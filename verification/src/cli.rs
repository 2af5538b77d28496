//! Run configuration: severity levels, the options record, and quote
//! inference from source text.

use vstd::prelude::*;

use crate::text::str_eq;

verus! {

/// A logging severity level, ordered from `Debug` (lowest) to `Critical`.
#[derive(Debug, Clone, Copy, PartialEq, Eq, Structural)]
pub enum LogLevel {
    Debug,
    Info,
    Warning,
    Error,
    Exception,
    Critical,
}

/// The rank of a level in the severity order.
pub open spec fn log_level_rank(l: LogLevel) -> int {
    match l {
        LogLevel::Debug => 0,
        LogLevel::Info => 1,
        LogLevel::Warning => 2,
        LogLevel::Error => 3,
        LogLevel::Exception => 4,
        LogLevel::Critical => 5,
    }
}

/// The ASCII-lowercase form of a character; the severity table matches over
/// this folding, so `ERROR` and `Error` designate the same level as `error`.
pub open spec fn lower_char(c: char) -> char {
    match c {
        'A' => 'a',
        'B' => 'b',
        'C' => 'c',
        'D' => 'd',
        'E' => 'e',
        'F' => 'f',
        'G' => 'g',
        'H' => 'h',
        'I' => 'i',
        'J' => 'j',
        'K' => 'k',
        'L' => 'l',
        'M' => 'm',
        'N' => 'n',
        'O' => 'o',
        'P' => 'p',
        'Q' => 'q',
        'R' => 'r',
        'S' => 's',
        'T' => 't',
        'U' => 'u',
        'V' => 'v',
        'W' => 'w',
        'X' => 'x',
        'Y' => 'y',
        'Z' => 'z',
        _ => c,
    }
}

/// The ASCII-lowercase form of a text.
pub open spec fn lower_text(s: Seq<char>) -> Seq<char> {
    s.map_values(|c: char| lower_char(c))
}

fn lower_char_of(c: char) -> (r: char)
    ensures
        r == lower_char(c),
{
    match c {
        'A' => 'a',
        'B' => 'b',
        'C' => 'c',
        'D' => 'd',
        'E' => 'e',
        'F' => 'f',
        'G' => 'g',
        'H' => 'h',
        'I' => 'i',
        'J' => 'j',
        'K' => 'k',
        'L' => 'l',
        'M' => 'm',
        'N' => 'n',
        'O' => 'o',
        'P' => 'p',
        'Q' => 'q',
        'R' => 'r',
        'S' => 's',
        'T' => 't',
        'U' => 'u',
        'V' => 'v',
        'W' => 'w',
        'X' => 'x',
        'Y' => 'y',
        'Z' => 'z',
        _ => c,
    }
}

/// Folds a method name to ASCII lowercase.
fn lower_ascii(s: &str) -> (r: String)
    ensures
        r@ == lower_text(s@),
{
    let n = s.unicode_len();
    let mut out = String::new();
    let mut i: usize = 0;
    proof {
        assert(out@ =~= lower_text(s@.take(0)));
    }
    while i < n
        invariant
            n == s@.len(),
            i <= n,
            out@ == lower_text(s@.take(i as int)),
        decreases n - i,
    {
        let c = lower_char_of(s.get_char(i));
        out.push(c);
        proof {
            assert(s@.take(i + 1) =~= s@.take(i as int).push(s@[i as int]));
            assert(lower_text(s@.take(i + 1)) =~= lower_text(s@.take(i as int)).push(
                lower_char(s@[i as int]),
            ));
        }
        i += 1;
    }
    proof {
        assert(s@.take(n as int) =~= s@);
    }
    out
}

/// The level a method name designates, if any; the table is case-insensitive
/// and `warn` and `warning` both designate `Warning`.
pub open spec fn log_level_of(s: Seq<char>) -> Option<LogLevel> {
    let l = lower_text(s);
    if l == "debug"@ {
        Some(LogLevel::Debug)
    } else if l == "info"@ {
        Some(LogLevel::Info)
    } else if l == "warn"@ || l == "warning"@ {
        Some(LogLevel::Warning)
    } else if l == "error"@ {
        Some(LogLevel::Error)
    } else if l == "exception"@ {
        Some(LogLevel::Exception)
    } else if l == "critical"@ {
        Some(LogLevel::Critical)
    } else {
        Option::<LogLevel>::None
    }
}

impl LogLevel {
    /// Maps a method name to its severity level, ignoring ASCII case.
    pub fn maybe_from_str(s: &str) -> (r: Option<LogLevel>)
        ensures
            r == log_level_of(s@),
    {
        let low = lower_ascii(s);
        let l = low.as_str();
        if str_eq(l, "debug") {
            Some(LogLevel::Debug)
        } else if str_eq(l, "info") {
            Some(LogLevel::Info)
        } else if str_eq(l, "warn") || str_eq(l, "warning") {
            Some(LogLevel::Warning)
        } else if str_eq(l, "error") {
            Some(LogLevel::Error)
        } else if str_eq(l, "exception") {
            Some(LogLevel::Exception)
        } else if str_eq(l, "critical") {
            Some(LogLevel::Critical)
        } else {
            None
        }
    }

    /// The rank of this level in the severity order.
    pub fn rank(&self) -> (r: u8)
        ensures
            r as int == log_level_rank(*self),
    {
        match self {
            LogLevel::Debug => 0,
            LogLevel::Info => 1,
            LogLevel::Warning => 2,
            LogLevel::Error => 3,
            LogLevel::Exception => 4,
            LogLevel::Critical => 5,
        }
    }
}

/// The options a run is configured with: the severity threshold and the files
/// to process.
#[derive(Debug, Clone)]
pub struct Opts {
    pub log_level: LogLevel,
    pub filenames: Vec<String>,
}

/// The quote character of the literal that starts at `col` in `s`: a quote
/// counts as itself, an `f` prefix defers to the character after it, and
/// anything else fails.
pub open spec fn quote_char_at(s: Seq<char>, col: int) -> Option<char> {
    if 0 <= col < s.len() {
        if s[col] == '\'' || s[col] == '"' {
            Some(s[col])
        } else if s[col] == 'f' {
            if col + 1 < s.len() && (s[col + 1] == '\'' || s[col + 1] == '"') {
                Some(s[col + 1])
            } else {
                Option::<char>::None
            }
        } else {
            Option::<char>::None
        }
    } else {
        Option::<char>::None
    }
}

/// Reads the quote character of the literal starting at `col_offset`.
pub fn get_char(string: &str, col_offset: usize) -> (r: Option<char>)
    ensures
        r == quote_char_at(string@, col_offset as int),
{
    let n = string.unicode_len();
    if col_offset >= n {
        return None;
    }
    let c = string.get_char(col_offset);
    if c == '\'' || c == '"' {
        Some(c)
    } else if c == 'f' {
        if col_offset + 1 < n {
            let c2 = string.get_char(col_offset + 1);
            if c2 == '\'' || c2 == '"' {
                Some(c2)
            } else {
                None
            }
        } else {
            None
        }
    } else {
        None
    }
}

/// The quote character in effect at a source position, read from the line
/// texts: row `lineno` is 1-indexed, `col_offset` is a 0-indexed character
/// column.
pub open spec fn quote_at(lines: Seq<Seq<char>>, lineno: int, col_offset: int) -> Option<char> {
    if 1 <= lineno <= lines.len() {
        quote_char_at(lines[lineno - 1], col_offset)
    } else {
        Option::<char>::None
    }
}

/// Infers the quote character that delimits the literal at the given source
/// position.
pub fn get_quotes(lines: &Vec<String>, lineno: usize, col_offset: usize) -> (r: Option<char>)
    ensures
        r == quote_at(lines@.map_values(|l: String| l@), lineno as int, col_offset as int),
{
    if lineno >= 1 && lineno <= lines.len() {
        get_char(lines[lineno - 1].as_str(), col_offset)
    } else {
        None
    }
}

} // verus!

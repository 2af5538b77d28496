//! Free-standing helpers: a regex-pattern builder for f-string logging calls
//! and a small string edit.

use vstd::prelude::*;

use crate::cli::LogLevel;

verus! {

/// The alternation of the level names at or above `log_level`, in severity
/// order.
pub open spec fn level_alternation(log_level: LogLevel) -> Seq<char> {
    match log_level {
        LogLevel::Debug => "debug|info|warning|error|exception|critical"@,
        LogLevel::Info => "info|warning|error|exception|critical"@,
        LogLevel::Warning => "warning|error|exception|critical"@,
        LogLevel::Error => "error|exception|critical"@,
        LogLevel::Exception => "exception|critical"@,
        LogLevel::Critical => "critical"@,
    }
}

/// The regex pattern that matches a one-line f-string logging call at or
/// above the given level.
pub open spec fn f_string_regex_text(log_level: LogLevel) -> Seq<char> {
    "logger\\.("@ + level_alternation(log_level) + ")\\(f\"(.+?)\"\\)"@
}

/// Combines all selected log levels into a regex pattern for f-string calls.
pub fn construct_f_string_regex(log_level: &LogLevel) -> (r: String)
    ensures
        r@ == f_string_regex_text(*log_level),
{
    let mut regex_str = "logger\\.(".to_owned();
    let alternation = match log_level {
        LogLevel::Debug => "debug|info|warning|error|exception|critical",
        LogLevel::Info => "info|warning|error|exception|critical",
        LogLevel::Warning => "warning|error|exception|critical",
        LogLevel::Error => "error|exception|critical",
        LogLevel::Exception => "exception|critical",
        LogLevel::Critical => "critical",
    };
    regex_str.append(alternation);
    regex_str.append(")\\(f\"(.+?)\"\\)");
    regex_str
}

/// Replaces the last character of `s` with `replacement`; an empty string is
/// returned unchanged.
pub fn replace_last_char_with_str(s: String, replacement: &str) -> (r: String)
    ensures
        r@ == if s@.len() == 0 {
            s@
        } else {
            s@.take(s@.len() - 1) + replacement@
        },
{
    let n = s.as_str().unicode_len();
    if n == 0 {
        s
    } else {
        let mut out = s.as_str().substring_char(0, n - 1).to_owned();
        out.append(replacement);
        proof {
            assert(s@.subrange(0, n - 1 as int) =~= s@.take(s@.len() - 1));
        }
        out
    }
}

} // verus!

//! The `.format()` template builder: argument collection, the curly-brace
//! occurrence scan, and the ordering of keyword and positional arguments
//! against the template's placeholder occurrences.

use vstd::prelude::*;

use crate::ast::Constant;
use crate::ast::Expr;
use crate::ast::ExprKind;
use crate::ast::Keyword;
use crate::parse_fstring::MAX_RESOLVE_DEPTH;
use crate::parse_fstring::ResolveError;
use crate::parse_fstring::args_and_kwargs_spec;
use crate::parse_fstring::args_fold_spec;
use crate::parse_fstring::kwargs_fold_spec;
use crate::parse_fstring::parse_formatted_value;
use crate::text::count2;
use crate::text::find_char;
use crate::text::lemma_count2_concat;
use crate::text::lemma_find_char_bounds;
use crate::text::str_eq;
use crate::text::strings_view;

verus! {

/// A named argument of a `.format()` call, with its value already rendered to
/// source text.
#[derive(Debug)]
pub struct NamedArg {
    pub key: String,
    pub value: String,
}

/// The key/text pairs of a list of named arguments.
pub open spec fn named_view(v: Seq<NamedArg>) -> Seq<(Seq<char>, Seq<char>)> {
    v.map_values(|na: NamedArg| (na.key@, na.value@))
}

/// Collects the arguments of a call: every positional argument and every
/// nameless (`**`) keyword value rendered to text, and the named arguments as
/// key/text pairs. Nameless keyword values come first among the positional
/// texts, as the keyword list is walked first.
#[verifier::loop_isolation(false)]
pub fn get_args_and_keywords(
    args: &Vec<Expr>,
    keywords: &Vec<Keyword>,
    quote: char,
    depth: usize,
) -> (r: Result<(Vec<String>, Vec<NamedArg>), ResolveError>)
    ensures
        match r {
            Ok(p) => args_and_kwargs_spec(args@, keywords@, quote, depth) == Ok::<
                (Seq<Seq<char>>, Seq<(Seq<char>, Seq<char>)>),
                ResolveError,
            >((strings_view(p.0@), named_view(p.1@))),
            Err(e) => args_and_kwargs_spec(args@, keywords@, quote, depth) == Err::<
                (Seq<Seq<char>>, Seq<(Seq<char>, Seq<char>)>),
                ResolveError,
            >(e),
        },
    decreases depth, 0int, 0int,
{
    if depth == 0 {
        return Err(ResolveError::TooDeep);
    }
    let mut f_args: Vec<String> = Vec::new();
    let mut f_named: Vec<NamedArg> = Vec::new();
    let ghost ktarget = kwargs_fold_spec(keywords@, quote, depth);
    let mut i: usize = 0;
    proof {
        assert(keywords@.skip(0) =~= keywords@);
        let p0 = ktarget->Ok_0;
        assert(strings_view(f_args@) + p0.0 =~= p0.0);
        assert(named_view(f_named@) + p0.1 =~= p0.1);
    }
    while i < keywords.len()
        invariant
            i <= keywords@.len(),
            depth >= 1,
            ktarget == match kwargs_fold_spec(keywords@.skip(i as int), quote, depth) {
                Err(e2) => Err::<(Seq<Seq<char>>, Seq<(Seq<char>, Seq<char>)>), ResolveError>(e2),
                Ok(p) => Ok((strings_view(f_args@) + p.0, named_view(f_named@) + p.1)),
            },
        decreases keywords@.len() - i,
    {
        proof {
            assert(keywords@.skip(i as int)[0] == keywords@[i as int]);
            assert(keywords@.skip(i as int).drop_first() =~= keywords@.skip(i + 1));
        }
        let t = match parse_formatted_value(
            &keywords[i].value,
            String::new(),
            true,
            quote,
            depth - 1,
        ) {
            Ok(t) => t,
            Err(e2) => {
                return Err(e2);
            },
        };
        let ghost old_fa = strings_view(f_args@);
        let ghost old_fn = named_view(f_named@);
        match &keywords[i].arg {
            Some(k) => {
                let na = NamedArg { key: k.clone(), value: t };
                f_named.push(na);
                proof {
                    let key_v = keywords@[i as int].arg->0@;
                    assert(named_view(f_named@) =~= old_fn.push((key_v, t@)));
                    let p1 = kwargs_fold_spec(keywords@.skip(i + 1), quote, depth)->Ok_0;
                    assert(old_fn + (seq![(key_v, t@)] + p1.1) =~= old_fn.push((key_v, t@))
                        + p1.1);
                }
            },
            None => {
                f_args.push(t);
                proof {
                    assert(strings_view(f_args@) =~= old_fa.push(t@));
                    let p1 = kwargs_fold_spec(keywords@.skip(i + 1), quote, depth)->Ok_0;
                    assert(old_fa + (seq![t@] + p1.0) =~= old_fa.push(t@) + p1.0);
                }
            },
        }
        i += 1;
    }
    proof {
        assert(keywords@.skip(keywords@.len() as int) =~= Seq::<Keyword>::empty());
        assert(strings_view(f_args@) + Seq::<Seq<char>>::empty() =~= strings_view(f_args@));
        assert(named_view(f_named@) + Seq::<(Seq<char>, Seq<char>)>::empty() =~= named_view(
            f_named@,
        ));
    }
    let ghost kw_extra = strings_view(f_args@);
    let ghost atarget = args_fold_spec(args@, quote, depth);
    let mut pos_texts: Vec<String> = Vec::new();
    let mut j: usize = 0;
    proof {
        assert(args@.skip(0) =~= args@);
        let a0 = atarget->Ok_0;
        assert(strings_view(pos_texts@) + a0 =~= a0);
    }
    while j < args.len()
        invariant
            j <= args@.len(),
            depth >= 1,
            atarget == match args_fold_spec(args@.skip(j as int), quote, depth) {
                Err(e2) => Err::<Seq<Seq<char>>, ResolveError>(e2),
                Ok(p) => Ok(strings_view(pos_texts@) + p),
            },
        decreases args@.len() - j,
    {
        proof {
            assert(args@.skip(j as int)[0] == args@[j as int]);
            assert(args@.skip(j as int).drop_first() =~= args@.skip(j + 1));
        }
        let t = match parse_formatted_value(&args[j], String::new(), true, quote, depth - 1) {
            Ok(t) => t,
            Err(e2) => {
                return Err(e2);
            },
        };
        let ghost old_pt = strings_view(pos_texts@);
        pos_texts.push(t);
        proof {
            assert(strings_view(pos_texts@) =~= old_pt.push(t@));
            let a1 = args_fold_spec(args@.skip(j + 1), quote, depth)->Ok_0;
            assert(old_pt + (seq![t@] + a1) =~= old_pt.push(t@) + a1);
        }
        j += 1;
    }
    proof {
        assert(args@.skip(args@.len() as int) =~= Seq::<Expr>::empty());
        assert(strings_view(pos_texts@) + Seq::<Seq<char>>::empty() =~= strings_view(
            pos_texts@,
        ));
    }
    let mut pos_texts = pos_texts;
    f_args.append(&mut pos_texts);
    proof {
        assert(strings_view(f_args@) =~= kw_extra + atarget->Ok_0);
    }
    Ok((f_args, f_named))
}

/// One `{...}` occurrence in a format string: the column range of the braces
/// (half-open, braces included) and the name before the `:` inside, empty for
/// a bare `{}` or `{:spec}` slot.
#[derive(Debug)]
pub struct Occurrence {
    pub start: usize,
    pub end: usize,
    pub name: String,
}

/// The (start, end, name) triples of a list of occurrences.
pub open spec fn occs_view(v: Seq<Occurrence>) -> Seq<(int, int, Seq<char>)> {
    v.map_values(|o: Occurrence| (o.start as int, o.end as int, o.name@))
}

/// The name part of the text between a pair of braces: what stands before the
/// first `:`, or all of it when there is none.
pub open spec fn occ_name_of(inner: Seq<char>) -> Seq<char> {
    inner.take(find_char(inner, ':', 0))
}

/// The occurrence scan from position `i` on, with `open` the position of the
/// last unmatched `{` before `i`: a `{` opens (and re-opens) a candidate, the
/// next `}` closes it into an occurrence.
pub open spec fn scan_occs(s: Seq<char>, i: int, open: Option<int>) -> Seq<(int, int, Seq<char>)>
    decreases s.len() - i,
{
    if i < 0 || i >= s.len() {
        Seq::empty()
    } else if s[i] == '{' {
        scan_occs(s, i + 1, Some(i))
    } else if s[i] == '}' && open is Some {
        seq![(open->0, i + 1, occ_name_of(s.subrange(open->0 + 1, i)))] + scan_occs(s, i + 1, Option::<int>::None)
    } else {
        scan_occs(s, i + 1, open)
    }
}

/// Every `{...}` occurrence of a format string, in order.
pub open spec fn occurrences_spec(s: Seq<char>) -> Seq<(int, int, Seq<char>)> {
    scan_occs(s, 0, Option::<int>::None)
}

/// Occurrence triples lie within `[0, hi)`, are non-empty, and do not overlap.
pub open spec fn occs_wf(occs: Seq<(int, int, Seq<char>)>, hi: int) -> bool {
    &&& forall|k: int| 0 <= k < occs.len() ==> 0 <= #[trigger] occs[k].0 < occs[k].1 <= hi
    &&& forall|k: int| 0 < k < occs.len() ==> #[trigger] occs[k - 1].1 <= occs[k].0
}

/// Scans a format string for its `{...}` occurrences.
#[verifier::loop_isolation(false)]
pub fn scan_occurrences(s: &str) -> (r: Vec<Occurrence>)
    ensures
        occs_view(r@) == occurrences_spec(s@),
        occs_wf(occs_view(r@), s@.len() as int),
{
    let n = s.unicode_len();
    let mut acc: Vec<Occurrence> = Vec::new();
    let mut open: Option<usize> = None;
    let mut i: usize = 0;
    proof {
        assert(occs_view(acc@) =~= Seq::<(int, int, Seq<char>)>::empty());
        assert(occs_view(acc@) + scan_occs(s@, 0, Option::<int>::None) =~= occurrences_spec(s@));
    }
    while i < n
        invariant
            n == s@.len(),
            i <= n,
            occurrences_spec(s@) == occs_view(acc@) + scan_occs(
                s@,
                i as int,
                match open {
                    Some(k) => Some(k as int),
                    None => Option::<int>::None,
                },
            ),
            occs_wf(occs_view(acc@), i as int),
            match open {
                Some(k) => k < i && (acc@.len() > 0 ==> occs_view(acc@).last().1 <= k as int),
                None => true,
            },
            acc@.len() > 0 ==> occs_view(acc@).last().1 <= i as int,
        decreases n - i,
    {
        let c = s.get_char(i);
        if c == '{' {
            open = Some(i);
        } else if c == '}' {
            match open {
                Some(st) => {
                    // extract the name: the inner text up to the first ':'
                    let mut k = st + 1;
                    while k < i && s.get_char(k) != ':'
                        invariant
                            st + 1 <= k <= i,
                            forall|j: int| st + 1 <= j < k ==> s@[j] != ':',
                        decreases i - k,
                    {
                        k += 1;
                    }
                    let name = s.substring_char(st + 1, k).to_owned();
                    proof {
                        let inner = s@.subrange(st + 1 as int, i as int);
                        assert(forall|j: int|
                            0 <= j < inner.len() ==> inner[j] == s@[st + 1 + j]);
                        crate::text::lemma_find_char_is(inner, ':', 0, k - (st + 1 as int));
                        assert(name@ =~= inner.take(k - (st + 1 as int)));
                        assert(name@ =~= occ_name_of(inner));
                    }
                    let occ = Occurrence { start: st, end: i + 1, name };
                    proof {
                        let ghost t = (st as int, i + 1 as int, occ.name@);
                        assert(occs_view(acc@.push(occ)) =~= occs_view(acc@).push(t));
                        assert(occs_view(acc@) + (seq![t] + scan_occs(
                            s@,
                            i + 1 as int,
                            Option::<int>::None,
                        )) =~= occs_view(acc@).push(t) + scan_occs(
                            s@,
                            i + 1 as int,
                            Option::<int>::None,
                        ));
                    }
                    acc.push(occ);
                    open = None;
                },
                None => {},
            }
        }
        i += 1;
    }
    proof {
        assert(scan_occs(
            s@,
            n as int,
            match open {
                Some(k) => Some(k as int),
                None => Option::<int>::None,
            },
        ) =~= Seq::<(int, int, Seq<char>)>::empty());
        assert(occs_view(acc@) + Seq::<(int, int, Seq<char>)>::empty() =~= occs_view(acc@));
    }
    acc
}

/// Why a `.format()` call could not be rewritten, over mathematical values.
pub enum FormatSpecError {
    /// An argument could not be rendered; the call site is skipped.
    Resolve(ResolveError),
    /// A positional argument beyond the template's open slots; a usage error
    /// in the input source that fails the whole run.
    Excess { arg: Seq<char> },
    /// A placeholder was left without an argument; fails the whole run.
    Unfilled,
}

/// Why a `.format()` call could not be rewritten.
#[derive(Debug, Clone, PartialEq)]
pub enum FormatCallError {
    /// An argument could not be rendered; the call site is skipped.
    Resolve(ResolveError),
    /// A positional argument beyond the template's open slots, carrying the
    /// argument's rendered text; a usage error in the input source that fails
    /// the whole run.
    ExcessArgument { arg: String },
    /// A placeholder was left without an argument; fails the whole run.
    UnfilledPlaceholder,
}

/// The mathematical value of a `.format()` rewrite error.
pub open spec fn fce_view(e: FormatCallError) -> FormatSpecError {
    match e {
        FormatCallError::Resolve(r) => FormatSpecError::Resolve(r),
        FormatCallError::ExcessArgument { arg } => FormatSpecError::Excess { arg: arg@ },
        FormatCallError::UnfilledPlaceholder => FormatSpecError::Unfilled,
    }
}

/// The views of a list of optional strings.
pub open spec fn opts_view(v: Seq<Option<String>>) -> Seq<Option<Seq<char>>> {
    v.map_values(
        |o: Option<String>|
            match o {
                Some(s) => Some(s@),
                None => Option::<Seq<char>>::None,
            },
    )
}

/// The first position at or after `from` whose slot is not yet filled, or the
/// length when all are.
pub open spec fn first_unfilled(filled: Seq<bool>, from: int) -> int
    decreases filled.len() - from,
{
    if from < 0 || from >= filled.len() {
        filled.len() as int
    } else if !filled[from] {
        from
    } else {
        first_unfilled(filled, from + 1)
    }
}

/// A position with only filled slots before it, itself unfilled or at the
/// end, is the one `first_unfilled` returns.
pub proof fn lemma_first_unfilled_is(filled: Seq<bool>, from: int, k: int)
    requires
        0 <= from <= k <= filled.len(),
        forall|j: int| from <= j < k ==> filled[j],
        k < filled.len() ==> !filled[k],
    ensures
        first_unfilled(filled, from) == k,
    decreases k - from,
{
    if from < k {
        lemma_first_unfilled_is(filled, from + 1, k)
    }
}

/// The first position at or after `from` holding no value, or the length when
/// none does.
pub open spec fn first_none(ordered: Seq<Option<Seq<char>>>, from: int) -> int
    decreases ordered.len() - from,
{
    if from < 0 || from >= ordered.len() {
        ordered.len() as int
    } else if ordered[from] is None {
        from
    } else {
        first_none(ordered, from + 1)
    }
}

/// A position with only held slots before it, itself empty or at the end,
/// is the one `first_none` returns.
pub proof fn lemma_first_none_is(ordered: Seq<Option<Seq<char>>>, from: int, k: int)
    requires
        0 <= from <= k <= ordered.len(),
        forall|j: int| from <= j < k ==> ordered[j] is Some,
        k < ordered.len() ==> ordered[k] is None,
    ensures
        first_none(ordered, from) == k,
    decreases k - from,
{
    if from < k {
        lemma_first_none_is(ordered, from + 1, k)
    }
}

/// Fills, with one keyword argument's value, every still-unfilled occurrence
/// from position `j` on whose name equals the key.
pub open spec fn kw_fill_one(
    occs: Seq<(int, int, Seq<char>)>,
    key: Seq<char>,
    value: Seq<char>,
    ordered: Seq<Option<Seq<char>>>,
    filled: Seq<bool>,
    j: int,
) -> (Seq<Option<Seq<char>>>, Seq<bool>)
    decreases occs.len() - j,
{
    if j < 0 || j >= occs.len() {
        (ordered, filled)
    } else if occs[j].2 == key && j < filled.len() && !filled[j] {
        kw_fill_one(occs, key, value, ordered.update(j, Some(value)), filled.update(j, true), j + 1)
    } else {
        kw_fill_one(occs, key, value, ordered, filled, j + 1)
    }
}

/// Fills every occurrence referenced by a named argument, named arguments
/// first in call order. Keyword arguments must be placed before positional
/// ones, because positional filling takes the next still-unfilled slot.
pub open spec fn kw_fill_all(
    occs: Seq<(int, int, Seq<char>)>,
    named: Seq<(Seq<char>, Seq<char>)>,
    ordered: Seq<Option<Seq<char>>>,
    filled: Seq<bool>,
) -> (Seq<Option<Seq<char>>>, Seq<bool>)
    decreases named.len(),
{
    if named.len() == 0 {
        (ordered, filled)
    } else {
        let st = kw_fill_one(occs, named[0].0, named[0].1, ordered, filled, 0);
        kw_fill_all(occs, named.drop_first(), st.0, st.1)
    }
}

/// Fills the remaining occurrences with the positional arguments, in order:
/// each argument replaces the next still-unfilled occurrence and lands in the
/// first still-empty output slot. An argument with no occurrence left is an
/// excess argument.
pub open spec fn pos_fill(
    args: Seq<Seq<char>>,
    ordered: Seq<Option<Seq<char>>>,
    filled: Seq<bool>,
) -> Result<(Seq<Option<Seq<char>>>, Seq<bool>), FormatSpecError>
    decreases args.len(),
{
    if args.len() == 0 {
        Ok((ordered, filled))
    } else {
        let j = first_unfilled(filled, 0);
        if j == filled.len() {
            Err(FormatSpecError::Excess { arg: args[0] })
        } else {
            let k = first_none(ordered, 0);
            if k == ordered.len() {
                Err(FormatSpecError::Unfilled)
            } else {
                pos_fill(args.drop_first(), ordered.update(k, Some(args[0])), filled.update(j, true))
            }
        }
    }
}

/// The filled slot texts, in occurrence order; a slot left empty means the
/// argument supply was exhausted.
pub open spec fn collect_filled(ordered: Seq<Option<Seq<char>>>, from: int) -> Result<
    Seq<Seq<char>>,
    FormatSpecError,
>
    decreases ordered.len() - from,
{
    if from < 0 || from >= ordered.len() {
        Ok(Seq::empty())
    } else {
        match ordered[from] {
            None => Err(FormatSpecError::Unfilled),
            Some(t) => match collect_filled(ordered, from + 1) {
                Err(e) => Err(e),
                Ok(rest) => Ok(seq![t] + rest),
            },
        }
    }
}

/// The template rebuilt from position `prev` on: the text between
/// occurrences is kept, every filled occurrence becomes `%s`, an unfilled one
/// keeps the text it had.
pub open spec fn rebuild_template(
    s: Seq<char>,
    occs: Seq<(int, int, Seq<char>)>,
    filled: Seq<bool>,
    idx: int,
    prev: int,
) -> Seq<char>
    decreases occs.len() - idx,
{
    if idx < 0 || idx >= occs.len() {
        s.subrange(prev, s.len() as int)
    } else {
        s.subrange(prev, occs[idx].0) + (if idx < filled.len() && filled[idx] {
            "%s"@
        } else {
            s.subrange(occs[idx].0, occs[idx].1)
        }) + rebuild_template(s, occs, filled, idx + 1, occs[idx].1)
    }
}

/// The string literal a `.format()` call is made on: the receiver of the
/// attribute access, when it is a string constant; otherwise empty.
pub open spec fn format_string_of(func: Expr) -> Seq<char> {
    match func.kind {
        ExprKind::Attribute { value, attr } => match (*value).kind {
            ExprKind::Constant { value: c } => match c {
                Constant::Str(s) => s@,
                _ => Seq::empty(),
            },
            _ => Seq::empty(),
        },
        _ => Seq::empty(),
    }
}

/// The rewritten template and ordered argument texts of a `.format()` call,
/// or the error that stops the rewrite.
pub open spec fn fix_format_call_spec(
    func: Expr,
    args: Seq<Expr>,
    keywords: Seq<Keyword>,
    quote: char,
) -> Result<(Seq<char>, Seq<Seq<char>>), FormatSpecError> {
    match args_and_kwargs_spec(args, keywords, quote, MAX_RESOLVE_DEPTH) {
        Err(e) => Err(FormatSpecError::Resolve(e)),
        Ok((f_args, named)) => {
            let s = format_string_of(func);
            let occs = occurrences_spec(s);
            let n = occs.len();
            let st = kw_fill_all(
                occs,
                named,
                Seq::new(n, |k: int| Option::<Seq<char>>::None),
                Seq::new(n, |k: int| false),
            );
            match pos_fill(f_args, st.0, st.1) {
                Err(e) => Err(e),
                Ok((ordered, filled)) => match collect_filled(ordered, 0) {
                    Err(e) => Err(e),
                    Ok(texts) => Ok((rebuild_template(s, occs, filled, 0, 0), texts)),
                },
            }
        },
    }
}

/// Rewrites a `.format()` call: named arguments fill their occurrences first
/// (a name may be referenced more than once), then positional arguments fill
/// the remaining slots in order; every filled occurrence becomes `%s`.
#[verifier::loop_isolation(false)]
#[verifier::rlimit(100)]
#[verifier::spinoff_prover]
pub fn fix_format_call(
    func: &Expr,
    args: &Vec<Expr>,
    keywords: &Vec<Keyword>,
    quote: char,
) -> (r: Result<(String, Vec<String>), FormatCallError>)
    ensures
        match r {
            Ok(p) => fix_format_call_spec(*func, args@, keywords@, quote) == Ok::<
                (Seq<char>, Seq<Seq<char>>),
                FormatSpecError,
            >((p.0@, strings_view(p.1@))),
            Err(e) => fix_format_call_spec(*func, args@, keywords@, quote) == Err::<
                (Seq<char>, Seq<Seq<char>>),
                FormatSpecError,
            >(fce_view(e)),
        },
{
    let (f_args, f_named) = match get_args_and_keywords(args, keywords, quote, MAX_RESOLVE_DEPTH) {
        Ok(p) => p,
        Err(e) => {
            return Err(FormatCallError::Resolve(e));
        },
    };
    let ghost g_fargs = strings_view(f_args@);
    let ghost g_named = named_view(f_named@);

    // Copy the string the `.format()` call is made on.
    let string = match &func.kind {
        ExprKind::Attribute { value, attr: _ } => match &value.kind {
            ExprKind::Constant { value: c } => match c {
                Constant::Str(s) => s.clone(),
                _ => String::new(),
            },
            _ => String::new(),
        },
        _ => String::new(),
    };
    proof {
        assert(string@ == format_string_of(*func));
    }

    let occs = scan_occurrences(string.as_str());
    let ghost occsv = occs_view(occs@);
    let n_occs = occs.len();

    // One output slot per occurrence, all empty, none filled.
    let mut ordered: Vec<Option<String>> = Vec::new();
    let mut filled: Vec<bool> = Vec::new();
    let mut ii: usize = 0;
    while ii < n_occs
        invariant
            ii <= n_occs,
            ordered@.len() == ii,
            filled@.len() == ii,
            forall|t: int| 0 <= t < ii ==> ordered@[t] is None,
            forall|t: int| 0 <= t < ii ==> !filled@[t],
        decreases n_occs - ii,
    {
        ordered.push(None);
        filled.push(false);
        ii += 1;
    }
    proof {
        assert(opts_view(ordered@) =~= Seq::new(occsv.len(), |k: int| Option::<Seq<char>>::None));
        assert(filled@ =~= Seq::new(occsv.len(), |k: int| false));
    }
    let ghost st0 = kw_fill_all(occsv, g_named, opts_view(ordered@), filled@);

    // Keyword arguments first: fill every occurrence referencing the key.
    let mut ni: usize = 0;
    proof {
        assert(g_named.skip(0) =~= g_named);
    }
    while ni < f_named.len()
        invariant
            ni <= f_named@.len(),
            ordered@.len() == n_occs,
            filled@.len() == n_occs,
            st0 == kw_fill_all(occsv, g_named.skip(ni as int), opts_view(ordered@), filled@),
        decreases f_named@.len() - ni,
    {
        proof {
            assert(g_named.skip(ni as int)[0] == g_named[ni as int]);
            assert(g_named.skip(ni as int).drop_first() =~= g_named.skip(ni + 1));
        }
        let ghost o_enter = opts_view(ordered@);
        let ghost f_enter = filled@;
        let mut j: usize = 0;
        while j < n_occs
            invariant
                j <= n_occs,
                ordered@.len() == n_occs,
                filled@.len() == n_occs,
                ni < f_named@.len(),
                kw_fill_one(occsv, g_named[ni as int].0, g_named[ni as int].1, o_enter, f_enter, 0)
                    == kw_fill_one(
                    occsv,
                    g_named[ni as int].0,
                    g_named[ni as int].1,
                    opts_view(ordered@),
                    filled@,
                    j as int,
                ),
            decreases n_occs - j,
        {
            if !filled[j] && str_eq(occs[j].name.as_str(), f_named[ni].key.as_str()) {
                let ghost o_before = opts_view(ordered@);
                ordered[j] = Some(f_named[ni].value.clone());
                filled[j] = true;
                proof {
                    assert(opts_view(ordered@) =~= o_before.update(
                        j as int,
                        Some(g_named[ni as int].1),
                    ));
                }
            }
            j += 1;
        }
        ni += 1;
    }
    proof {
        assert(g_named.skip(g_named.len() as int) =~= Seq::<(Seq<char>, Seq<char>)>::empty());
        assert(st0 == (opts_view(ordered@), filled@));
    }

    // Then the positional arguments, in order.
    let ghost ptarget = pos_fill(g_fargs, st0.0, st0.1);
    let mut ai: usize = 0;
    proof {
        assert(g_fargs.skip(0) =~= g_fargs);
    }
    while ai < f_args.len()
        invariant
            ai <= f_args@.len(),
            ordered@.len() == n_occs,
            filled@.len() == n_occs,
            ptarget == pos_fill(g_fargs.skip(ai as int), opts_view(ordered@), filled@),
        decreases f_args@.len() - ai,
    {
        proof {
            assert(g_fargs.skip(ai as int)[0] == g_fargs[ai as int]);
            assert(g_fargs.skip(ai as int).drop_first() =~= g_fargs.skip(ai + 1));
        }
        // the next still-unfilled occurrence
        let mut j: usize = 0;
        while j < n_occs && filled[j]
            invariant
                j <= n_occs,
                filled@.len() == n_occs,
                forall|t: int| 0 <= t < j ==> filled@[t],
            decreases n_occs - j,
        {
            j += 1;
        }
        proof {
            lemma_first_unfilled_is(filled@, 0, j as int);
        }
        if j == n_occs {
            return Err(FormatCallError::ExcessArgument { arg: f_args[ai].clone() });
        }
        // the first still-empty output slot
        let mut k: usize = 0;
        while k < n_occs && ordered[k].is_some()
            invariant
                k <= n_occs,
                ordered@.len() == n_occs,
                forall|t: int| 0 <= t < k ==> ordered@[t] is Some,
            decreases n_occs - k,
        {
            k += 1;
        }
        proof {
            assert(forall|t: int|
                0 <= t < k ==> opts_view(ordered@)[t] is Some);
            assert(k < n_occs ==> opts_view(ordered@)[k as int] is None);
            lemma_first_none_is(opts_view(ordered@), 0, k as int);
        }
        if k == n_occs {
            return Err(FormatCallError::UnfilledPlaceholder);
        }
        let ghost o_before = opts_view(ordered@);
        ordered[k] = Some(f_args[ai].clone());
        filled[j] = true;
        proof {
            assert(opts_view(ordered@) =~= o_before.update(k as int, Some(g_fargs[ai as int])));
        }
        ai += 1;
    }
    proof {
        assert(g_fargs.skip(g_fargs.len() as int) =~= Seq::<Seq<char>>::empty());
        assert(ptarget == Ok::<_, FormatSpecError>((opts_view(ordered@), filled@)));
    }

    // Collect the ordered argument texts; an empty slot means too few
    // arguments were supplied.
    let ghost o_final = opts_view(ordered@);
    let ghost ctarget = collect_filled(o_final, 0);
    let mut out_args: Vec<String> = Vec::new();
    let mut k: usize = 0;
    proof {
        let c0 = ctarget->Ok_0;
        assert(strings_view(out_args@) + c0 =~= c0);
    }
    while k < n_occs
        invariant
            k <= n_occs,
            ordered@.len() == n_occs,
            o_final == opts_view(ordered@),
            ctarget == match collect_filled(o_final, k as int) {
                Err(e) => Err::<Seq<Seq<char>>, FormatSpecError>(e),
                Ok(rest) => Ok(strings_view(out_args@) + rest),
            },
        decreases n_occs - k,
    {
        match &ordered[k] {
            None => {
                return Err(FormatCallError::UnfilledPlaceholder);
            },
            Some(t) => {
                let ghost old_out = strings_view(out_args@);
                out_args.push(t.clone());
                proof {
                    assert(strings_view(out_args@) =~= old_out.push(o_final[k as int]->0));
                    let rest2 = collect_filled(o_final, k + 1)->Ok_0;
                    assert(old_out + (seq![o_final[k as int]->0] + rest2) =~= old_out.push(
                        o_final[k as int]->0,
                    ) + rest2);
                }
            },
        }
        k += 1;
    }
    proof {
        assert(collect_filled(o_final, n_occs as int) == Ok::<Seq<Seq<char>>, FormatSpecError>(
            Seq::empty(),
        ));
        assert(strings_view(out_args@) + Seq::<Seq<char>>::empty() =~= strings_view(out_args@));
        assert(ctarget == Ok::<Seq<Seq<char>>, FormatSpecError>(strings_view(out_args@)));
    }

    // Rebuild the template: every filled occurrence becomes `%s`.
    let ghost rtarget = rebuild_template(string@, occsv, filled@, 0, 0);
    let n = string.as_str().unicode_len();
    let mut new_string = String::new();
    let mut prev: usize = 0;
    let mut idx: usize = 0;
    while idx < n_occs
        invariant
            idx <= n_occs,
            filled@.len() == n_occs,
            n == string@.len(),
            prev <= n,
            idx < n_occs ==> prev <= occsv[idx as int].0,
            idx > 0 ==> prev == occsv[idx as int - 1].1,
            rtarget == new_string@ + rebuild_template(
                string@,
                occsv,
                filled@,
                idx as int,
                prev as int,
            ),
        decreases n_occs - idx,
    {
        let start = occs[idx].start;
        let end = occs[idx].end;
        let ghost ns_old = new_string@;
        new_string.append(string.as_str().substring_char(prev, start));
        if filled[idx] {
            new_string.append("%s");
        } else {
            new_string.append(string.as_str().substring_char(start, end));
        }
        proof {
            let sub1 = string@.subrange(prev as int, start as int);
            let block = if filled@[idx as int] {
                "%s"@
            } else {
                string@.subrange(start as int, end as int)
            };
            let rest = rebuild_template(string@, occsv, filled@, idx as int + 1, end as int);
            assert(new_string@ =~= (ns_old + sub1) + block);
            assert(ns_old + ((sub1 + block) + rest) =~= ((ns_old + sub1) + block) + rest);
        }
        proof {
            assert(0 < idx as int + 1 < occsv.len() ==> occsv[(idx as int + 1) - 1].1 <= occsv[idx
                as int + 1].0);
        }
        prev = end;
        idx += 1;
    }
    let ghost ns_old = new_string@;
    new_string.append(string.as_str().substring_char(prev, n));
    proof {
        assert(rebuild_template(string@, occsv, filled@, n_occs as int, prev as int)
            == string@.subrange(prev as int, n as int));
        assert(new_string@ =~= ns_old + string@.subrange(prev as int, n as int));
        assert(new_string@ == rtarget);
        assert(fix_format_call_spec(*func, args@, keywords@, quote) == Ok::<
            (Seq<char>, Seq<Seq<char>>),
            FormatSpecError,
        >((new_string@, strings_view(out_args@))));
    }
    Ok((new_string, out_args))
}

/// The number of `true` entries.
pub open spec fn count_trues(s: Seq<bool>) -> int
    decreases s.len(),
{
    if s.len() == 0 {
        0
    } else {
        (if s[0] {
            1int
        } else {
            0int
        }) + count_trues(s.drop_first())
    }
}

/// The number of filled entries.
pub open spec fn count_somes(o: Seq<Option<Seq<char>>>) -> int
    decreases o.len(),
{
    if o.len() == 0 {
        0
    } else {
        (if o[0] is Some {
            1int
        } else {
            0int
        }) + count_somes(o.drop_first())
    }
}

/// Marking one unfilled slot raises the count by one.
pub proof fn lemma_count_trues_update(s: Seq<bool>, j: int)
    requires
        0 <= j < s.len(),
        !s[j],
    ensures
        count_trues(s.update(j, true)) == count_trues(s) + 1,
    decreases s.len(),
{
    if j == 0 {
        assert(s.update(0, true).drop_first() =~= s.drop_first());
    } else {
        assert(s.update(j, true).drop_first() =~= s.drop_first().update(j - 1, true));
        assert(s.update(j, true)[0] == s[0]);
        lemma_count_trues_update(s.drop_first(), j - 1);
    }
}

/// Filling one empty slot raises the count by one.
pub proof fn lemma_count_somes_update(o: Seq<Option<Seq<char>>>, j: int, v: Seq<char>)
    requires
        0 <= j < o.len(),
        o[j] is None,
    ensures
        count_somes(o.update(j, Some(v))) == count_somes(o) + 1,
    decreases o.len(),
{
    if j == 0 {
        assert(o.update(0, Some(v)).drop_first() =~= o.drop_first());
    } else {
        assert(o.update(j, Some(v)).drop_first() =~= o.drop_first().update(j - 1, Some(v)));
        assert(o.update(j, Some(v))[0] == o[0]);
        lemma_count_somes_update(o.drop_first(), j - 1, v);
    }
}

/// The slot arrays agree: a slot is marked filled exactly when it holds a
/// value.
pub open spec fn slots_aligned(ordered: Seq<Option<Seq<char>>>, filled: Seq<bool>) -> bool {
    &&& ordered.len() == filled.len()
    &&& forall|j: int| 0 <= j < filled.len() ==> (#[trigger] filled[j] <==> ordered[j] is Some)
}

/// Aligned slot arrays have equally many filled marks and held values.
pub proof fn lemma_aligned_counts(ordered: Seq<Option<Seq<char>>>, filled: Seq<bool>)
    requires
        slots_aligned(ordered, filled),
    ensures
        count_trues(filled) == count_somes(ordered),
    decreases filled.len(),
{
    if filled.len() > 0 {
        assert(forall|j: int|
            0 <= j < filled.drop_first().len() ==> filled.drop_first()[j] == filled[j + 1]
                && ordered.drop_first()[j] == ordered[j + 1]);
        lemma_aligned_counts(ordered.drop_first(), filled.drop_first());
    }
}

/// One keyword fill keeps the slot arrays aligned and their lengths.
pub proof fn lemma_kw_fill_one_aligned(
    occs: Seq<(int, int, Seq<char>)>,
    key: Seq<char>,
    value: Seq<char>,
    ordered: Seq<Option<Seq<char>>>,
    filled: Seq<bool>,
    j: int,
)
    requires
        slots_aligned(ordered, filled),
    ensures
        slots_aligned(
            kw_fill_one(occs, key, value, ordered, filled, j).0,
            kw_fill_one(occs, key, value, ordered, filled, j).1,
        ),
        kw_fill_one(occs, key, value, ordered, filled, j).0.len() == ordered.len(),
        kw_fill_one(occs, key, value, ordered, filled, j).1.len() == filled.len(),
    decreases occs.len() - j,
{
    if 0 <= j < occs.len() {
        if occs[j].2 == key && j < filled.len() && !filled[j] {
            lemma_kw_fill_one_aligned(
                occs,
                key,
                value,
                ordered.update(j, Some(value)),
                filled.update(j, true),
                j + 1,
            );
        } else {
            lemma_kw_fill_one_aligned(occs, key, value, ordered, filled, j + 1);
        }
    }
}

/// The whole keyword pass keeps the slot arrays aligned.
pub proof fn lemma_kw_fill_all_aligned(
    occs: Seq<(int, int, Seq<char>)>,
    named: Seq<(Seq<char>, Seq<char>)>,
    ordered: Seq<Option<Seq<char>>>,
    filled: Seq<bool>,
)
    requires
        slots_aligned(ordered, filled),
    ensures
        slots_aligned(
            kw_fill_all(occs, named, ordered, filled).0,
            kw_fill_all(occs, named, ordered, filled).1,
        ),
        kw_fill_all(occs, named, ordered, filled).0.len() == ordered.len(),
        kw_fill_all(occs, named, ordered, filled).1.len() == filled.len(),
    decreases named.len(),
{
    if named.len() > 0 {
        let st = kw_fill_one(occs, named[0].0, named[0].1, ordered, filled, 0);
        lemma_kw_fill_one_aligned(occs, named[0].0, named[0].1, ordered, filled, 0);
        lemma_kw_fill_all_aligned(occs, named.drop_first(), st.0, st.1);
    }
}

/// `first_unfilled` stays in range and lands on an unfilled slot when one
/// exists.
pub proof fn lemma_first_unfilled_bounds(filled: Seq<bool>, from: int)
    requires
        0 <= from <= filled.len(),
    ensures
        from <= first_unfilled(filled, from) <= filled.len(),
        first_unfilled(filled, from) < filled.len() ==> !filled[first_unfilled(filled, from)],
    decreases filled.len() - from,
{
    if from < filled.len() && filled[from] {
        lemma_first_unfilled_bounds(filled, from + 1);
    }
}

/// `first_none` stays in range and lands on an empty slot when one exists.
pub proof fn lemma_first_none_bounds(ordered: Seq<Option<Seq<char>>>, from: int)
    requires
        0 <= from <= ordered.len(),
    ensures
        from <= first_none(ordered, from) <= ordered.len(),
        first_none(ordered, from) < ordered.len() ==> ordered[first_none(ordered, from)] is None,
    decreases ordered.len() - from,
{
    if from < ordered.len() && ordered[from] is Some {
        lemma_first_none_bounds(ordered, from + 1);
    }
}

/// The positional pass keeps the slot counts equal and the lengths unchanged.
pub proof fn lemma_pos_fill_counts(
    args: Seq<Seq<char>>,
    ordered: Seq<Option<Seq<char>>>,
    filled: Seq<bool>,
)
    requires
        ordered.len() == filled.len(),
        count_trues(filled) == count_somes(ordered),
        pos_fill(args, ordered, filled) is Ok,
    ensures
        pos_fill(args, ordered, filled)->Ok_0.0.len() == ordered.len(),
        pos_fill(args, ordered, filled)->Ok_0.1.len() == filled.len(),
        count_trues(pos_fill(args, ordered, filled)->Ok_0.1) == count_somes(
            pos_fill(args, ordered, filled)->Ok_0.0,
        ),
    decreases args.len(),
{
    if args.len() > 0 {
        let j = first_unfilled(filled, 0);
        lemma_first_unfilled_bounds(filled, 0);
        if j < filled.len() {
            let k = first_none(ordered, 0);
            lemma_first_none_bounds(ordered, 0);
            if k < ordered.len() {
                lemma_count_trues_update(filled, j);
                lemma_count_somes_update(ordered, k, args[0]);
                lemma_pos_fill_counts(
                    args.drop_first(),
                    ordered.update(k, Some(args[0])),
                    filled.update(j, true),
                );
            }
        }
    }
}

/// A successful collection means every slot holds a value, and yields one
/// text per slot.
pub proof fn lemma_collect_all_some(ordered: Seq<Option<Seq<char>>>, from: int)
    requires
        0 <= from <= ordered.len(),
        collect_filled(ordered, from) is Ok,
    ensures
        collect_filled(ordered, from)->Ok_0.len() == ordered.len() - from,
        forall|j: int| from <= j < ordered.len() ==> (#[trigger] ordered[j]) is Some,
    decreases ordered.len() - from,
{
    if from < ordered.len() {
        lemma_collect_all_some(ordered, from + 1);
    }
}

/// When every slot holds a value, the count is the length.
pub proof fn lemma_all_some_count(ordered: Seq<Option<Seq<char>>>)
    requires
        forall|j: int| 0 <= j < ordered.len() ==> (#[trigger] ordered[j]) is Some,
    ensures
        count_somes(ordered) == ordered.len(),
    decreases ordered.len(),
{
    if ordered.len() > 0 {
        assert(forall|j: int|
            0 <= j < ordered.drop_first().len() ==> ordered.drop_first()[j] == ordered[j + 1]);
        lemma_all_some_count(ordered.drop_first());
    }
}

/// The count of filled marks is bounded by the length.
pub proof fn lemma_count_trues_le_len(filled: Seq<bool>)
    ensures
        0 <= count_trues(filled) <= filled.len(),
    decreases filled.len(),
{
    if filled.len() > 0 {
        lemma_count_trues_le_len(filled.drop_first());
    }
}

/// A full count means every slot is marked filled.
pub proof fn lemma_count_trues_full(filled: Seq<bool>)
    requires
        count_trues(filled) == filled.len(),
    ensures
        forall|j: int| 0 <= j < filled.len() ==> #[trigger] filled[j],
    decreases filled.len(),
{
    if filled.len() > 0 {
        lemma_count_trues_le_len(filled.drop_first());
        assert(filled[0]);
        lemma_count_trues_full(filled.drop_first());
        assert(forall|j: int|
            1 <= j < filled.len() ==> filled[j] == filled.drop_first()[j - 1]);
    }
}

/// The text outside the occurrences, walked gap by gap, contains no `%s`.
pub open spec fn gaps_clean(
    s: Seq<char>,
    occs: Seq<(int, int, Seq<char>)>,
    idx: int,
    prev: int,
) -> bool
    decreases occs.len() - idx,
{
    if idx < 0 || idx >= occs.len() {
        count2(s.subrange(prev, s.len() as int), '%', 's') == 0
    } else {
        count2(s.subrange(prev, occs[idx].0), '%', 's') == 0 && gaps_clean(
            s,
            occs,
            idx + 1,
            occs[idx].1,
        )
    }
}

/// The occurrence scan only yields well-formed triples: in range, non-empty,
/// in order.
pub proof fn lemma_scan_occs_wf(s: Seq<char>, i: int, open: Option<int>)
    requires
        0 <= i <= s.len(),
        open matches Some(k) ==> 0 <= k < i,
    ensures
        occs_wf(scan_occs(s, i, open), s.len() as int),
        scan_occs(s, i, open).len() > 0 ==> scan_occs(s, i, open)[0].0 >= (match open {
            Some(k) => k,
            None => i,
        }),
    decreases s.len() - i,
{
    if i >= s.len() {
    } else if s[i] == '{' {
        lemma_scan_occs_wf(s, i + 1, Some(i));
    } else if s[i] == '}' && open is Some {
        let k = open->0;
        let rest = scan_occs(s, i + 1, Option::<int>::None);
        lemma_scan_occs_wf(s, i + 1, Option::<int>::None);
        let whole = scan_occs(s, i, open);
        assert(whole == seq![(k, i + 1, occ_name_of(s.subrange(k + 1, i)))] + rest);
        assert(whole[0] == (k, i + 1, occ_name_of(s.subrange(k + 1, i))));
        assert(forall|t: int| 1 <= t < whole.len() ==> whole[t] == rest[t - 1]);
        assert(forall|t: int|
            0 <= t < whole.len() ==> 0 <= #[trigger] whole[t].0 < whole[t].1 <= s.len());
        assert forall|t: int| 0 < t < whole.len() implies #[trigger] whole[t - 1].1 <= whole[t].0
            by {
            if t == 1 {
                assert(whole[0].1 == i + 1);
                assert(whole[1] == rest[0]);
                assert(rest[0].0 >= i + 1);
            } else {
                assert(whole[t - 1] == rest[t - 2]);
                assert(whole[t] == rest[t - 1]);
                assert(rest[(t - 1) - 1].1 <= rest[t - 1].0);
            }
        }
    } else {
        lemma_scan_occs_wf(s, i + 1, open);
    }
}

/// A format string with no `%s` of its own has clean gaps between its
/// occurrences.
pub proof fn lemma_gaps_clean_from_zero(
    s: Seq<char>,
    occs: Seq<(int, int, Seq<char>)>,
    idx: int,
    prev: int,
)
    requires
        count2(s, '%', 's') == 0,
        occs_wf(occs, s.len() as int),
        0 <= idx,
        0 <= prev <= s.len(),
        idx < occs.len() ==> prev <= occs[idx].0,
    ensures
        gaps_clean(s, occs, idx, prev),
    decreases occs.len() - idx,
{
    if idx >= occs.len() {
        crate::text::lemma_count2_subrange_zero(s, '%', 's', prev, s.len() as int);
    } else {
        assert(0 <= occs[idx].0 < occs[idx].1 <= s.len());
        crate::text::lemma_count2_subrange_zero(s, '%', 's', prev, occs[idx].0);
        assert(idx + 1 < occs.len() ==> occs[(idx + 1) - 1].1 <= occs[idx + 1].0);
        lemma_gaps_clean_from_zero(s, occs, idx + 1, occs[idx].1);
    }
}

/// With every occurrence filled and no `%s` in the gaps, the rebuilt template
/// holds exactly one `%s` per occurrence.
pub proof fn lemma_rebuild_count(
    s: Seq<char>,
    occs: Seq<(int, int, Seq<char>)>,
    filled: Seq<bool>,
    idx: int,
    prev: int,
)
    requires
        0 <= idx,
        filled.len() == occs.len(),
        gaps_clean(s, occs, idx, prev),
        forall|k: int| idx <= k < filled.len() ==> #[trigger] filled[k],
    ensures
        idx <= occs.len() ==> count2(rebuild_template(s, occs, filled, idx, prev), '%', 's')
            == occs.len() - idx,
    decreases occs.len() - idx,
{
    reveal_strlit("%s");
    assert("%s"@.len() == 2);
    assert("%s"@[0] == '%');
    assert("%s"@[1] == 's');
    assert("%s"@.drop_first() =~= seq!['s']);
    assert(count2(seq!['s'], '%', 's') == 0);
    assert(count2("%s"@, '%', 's') == 1 + count2(seq!['s'], '%', 's'));
    assert(count2("%s"@, '%', 's') == 1);
    assert("%s"@.first() == '%');
    assert("%s"@.last() == 's');
    if idx >= occs.len() {
    } else {
        let gap = s.subrange(prev, occs[idx].0);
        let rest = rebuild_template(s, occs, filled, idx + 1, occs[idx].1);
        lemma_rebuild_count(s, occs, filled, idx + 1, occs[idx].1);
        lemma_count2_concat(gap, "%s"@, '%', 's');
        assert(count2(gap + "%s"@, '%', 's') == 1);
        lemma_count2_concat(gap + "%s"@, rest, '%', 's');
        assert((gap + "%s"@).last() == 's');
        assert(rebuild_template(s, occs, filled, idx, prev) == (gap + "%s"@) + rest);
    }
}

/// Placeholder-count law for the `.format()` builder: when the rewrite
/// succeeds and the format string's text outside its `{...}` occurrences
/// contains no `%s` of its own, the number of `%s` occurrences in the
/// produced template equals the number of produced arguments.
pub proof fn lemma_format_placeholder_count(
    func: Expr,
    args: Seq<Expr>,
    keywords: Seq<Keyword>,
    quote: char,
)
    requires
        fix_format_call_spec(func, args, keywords, quote) is Ok,
        gaps_clean(format_string_of(func), occurrences_spec(format_string_of(func)), 0, 0),
    ensures
        count2(fix_format_call_spec(func, args, keywords, quote)->Ok_0.0, '%', 's')
            == fix_format_call_spec(func, args, keywords, quote)->Ok_0.1.len(),
{
    let s = format_string_of(func);
    let occs = occurrences_spec(s);
    let n = occs.len();
    let gk = args_and_kwargs_spec(args, keywords, quote, MAX_RESOLVE_DEPTH);
    let f_args = gk->Ok_0.0;
    let named = gk->Ok_0.1;
    let o_init = Seq::new(n, |k: int| Option::<Seq<char>>::None);
    let f_init = Seq::new(n, |k: int| false);
    assert(slots_aligned(o_init, f_init));
    let st = kw_fill_all(occs, named, o_init, f_init);
    lemma_kw_fill_all_aligned(occs, named, o_init, f_init);
    lemma_aligned_counts(st.0, st.1);
    let pf = pos_fill(f_args, st.0, st.1);
    lemma_pos_fill_counts(f_args, st.0, st.1);
    let ordered = pf->Ok_0.0;
    let filled = pf->Ok_0.1;
    assert(ordered.len() == n);
    assert(filled.len() == n);
    lemma_collect_all_some(ordered, 0);
    lemma_all_some_count(ordered);
    assert(count_trues(filled) == n);
    lemma_count_trues_full(filled);
    lemma_rebuild_count(s, occs, filled, 0, 0);
    let res = fix_format_call_spec(func, args, keywords, quote)->Ok_0;
    assert(res.0 == rebuild_template(s, occs, filled, 0, 0));
    assert(res.1.len() == n);
}

} // verus!

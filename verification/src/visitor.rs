//! The expression classifier and the tree walker.
//!
//! The walker traverses the full syntax tree; every call node is handed to
//! the classifier, which decides whether it is a qualifying logging call and,
//! if so, builds the pending edit. A rejected call's children are still
//! traversed; a call that produced an edit is not descended into, so edits
//! never overlap.

use vstd::prelude::*;

use crate::ast::Comprehension;
use crate::ast::Constant;
use crate::ast::constant_text;
use crate::ast::Expr;
use crate::ast::ExprKind;
use crate::ast::Keyword;
use crate::ast::Stmt;
use crate::cli::LogLevel;
use crate::cli::get_quotes;
use crate::cli::log_level_of;
use crate::cli::log_level_rank;
use crate::cli::quote_at;
use crate::fix_file::Change;
use crate::fix_file::SpecChange;
use crate::fix_file::change_view;
use crate::parse_format::FormatCallError;
use crate::parse_format::FormatSpecError;
use crate::parse_format::fce_view;
use crate::parse_format::fix_format_call;
use crate::parse_format::fix_format_call_spec;
use crate::parse_fstring::ResolveError;
use crate::parse_fstring::clean_literal;
use crate::parse_fstring::fstring_values;
use crate::parse_fstring::fstring_values_spec;
use crate::parse_fstring::values_clean;
use crate::text::count2;
use crate::text::str_eq;
use crate::text::strings_view;

verus! {

/// What the classifier decided for one call node.
pub enum CallOutcome {
    /// Not a qualifying logging call; traversal continues into the children.
    Rejected,
    /// A qualifying call that could not be rewritten (quote inference or
    /// value rendering failed); the row is kept for diagnostics.
    Skipped { row: usize },
    /// A qualifying call with its pending edit.
    Edit(Change),
}

/// A classifier decision over mathematical values.
pub enum OutcomeSpec {
    Rejected,
    Skipped { row: int },
    Edit(SpecChange),
}

/// The mathematical value of a classifier decision.
pub open spec fn outcome_view(o: CallOutcome) -> OutcomeSpec {
    match o {
        CallOutcome::Rejected => OutcomeSpec::Rejected,
        CallOutcome::Skipped { row } => OutcomeSpec::Skipped { row: row as int },
        CallOutcome::Edit(c) => OutcomeSpec::Edit(change_view(c)),
    }
}

/// The views of a list of pending edits.
pub open spec fn changes_view(v: Seq<Change>) -> Seq<SpecChange> {
    v.map_values(|c: Change| change_view(c))
}

/// The values of a list of skipped rows.
pub open spec fn skips_view(v: Seq<usize>) -> Seq<int> {
    v.map_values(|u: usize| u as int)
}

/// Whether an expression is a bare name on the receiver block list: names
/// commonly confused with loggers, such as `warnings.warn` or
/// `messages.error`.
pub open spec fn is_blocked_receiver(e: Expr) -> bool {
    match e.kind {
        ExprKind::Name { id } => id@ == "warnings"@ || id@ == "messages"@,
        _ => false,
    }
}

/// The row a resolution error points at, with the call's own row as the
/// fallback.
pub open spec fn resolve_err_row(e: ResolveError, dflt: int) -> int {
    match e {
        ResolveError::Unsupported { row } => row as int,
        ResolveError::NestedFString { row } => row as int,
        ResolveError::TooDeep => dflt,
    }
}

fn resolve_err_row_exec(e: &ResolveError, dflt: usize) -> (r: usize)
    ensures
        r as int == resolve_err_row(*e, dflt as int),
{
    match e {
        ResolveError::Unsupported { row } => *row,
        ResolveError::NestedFString { row } => *row,
        ResolveError::TooDeep => dflt,
    }
}

/// The interpolation values of an interpolated-string expression, empty for
/// any other kind.
pub open spec fn joined_values_of(e: Expr) -> Seq<Expr> {
    match e.kind {
        ExprKind::JoinedStr { values } => values@,
        _ => Seq::empty(),
    }
}

/// The length of the run of adjacent interpolated-string arguments starting
/// at position `i`.
pub open spec fn joined_run_len(args: Seq<Expr>, i: int) -> int
    decreases args.len() - i,
{
    if i < 0 || i >= args.len() {
        args.len() as int
    } else if args[i].kind is JoinedStr {
        joined_run_len(args, i + 1)
    } else {
        i
    }
}

/// A prefix of interpolated strings ending at the first other argument is
/// the run `joined_run_len` measures.
pub proof fn lemma_joined_run_is(args: Seq<Expr>, from: int, k: int)
    requires
        0 <= from <= k <= args.len(),
        forall|j: int| from <= j < k ==> args[j].kind is JoinedStr,
        k < args.len() ==> !(args[k].kind is JoinedStr),
    ensures
        joined_run_len(args, from) == k,
    decreases k - from,
{
    if from < k {
        lemma_joined_run_is(args, from + 1, k)
    }
}

/// The template and arguments built from a run of adjacent
/// interpolated-string arguments, in order.
pub open spec fn fstring_run_spec(args: Seq<Expr>, i: int, k: int, quote: char) -> Result<
    (Seq<char>, Seq<Seq<char>>),
    ResolveError,
>
    decreases k - i,
{
    if i < 0 || i >= k {
        Ok((Seq::empty(), Seq::empty()))
    } else {
        match fstring_values_spec(joined_values_of(args[i]), quote) {
            Err(e) => Err(e),
            Ok(p) => match fstring_run_spec(args, i + 1, k, quote) {
                Err(e) => Err(e),
                Ok(rest) => Ok((p.0 + rest.0, p.1 + rest.1)),
            },
        }
    }
}

/// The classifier's decision for a call node `<func>(<args>)`.
///
/// The call qualifies when the callee is an attribute access whose name is a
/// known severity at or above the threshold, the receiver is not
/// block-listed, and the first argument is an interpolated string or a
/// `.format()` call; the edit then spans the literal (for interpolated
/// strings, the whole run of adjacent literal arguments), not the call.
pub open spec fn classify_call_spec(
    func: Expr,
    args: Seq<Expr>,
    lines: Seq<Seq<char>>,
    threshold: LogLevel,
) -> Result<OutcomeSpec, FormatSpecError> {
    match func.kind {
        ExprKind::Attribute { value, attr } => match log_level_of(attr@) {
            None => Ok(OutcomeSpec::Rejected),
            Some(lvl) => if log_level_rank(threshold) > log_level_rank(lvl) {
                Ok(OutcomeSpec::Rejected)
            } else if is_blocked_receiver(*value) {
                Ok(OutcomeSpec::Rejected)
            } else if args.len() == 0 {
                Ok(OutcomeSpec::Rejected)
            } else {
                let first = args[0];
                match first.kind {
                    ExprKind::JoinedStr { values } => match quote_at(
                        lines,
                        first.lineno as int,
                        first.col_offset as int,
                    ) {
                        None => Ok(OutcomeSpec::Skipped { row: first.lineno as int }),
                        Some(q) => {
                            let k = joined_run_len(args, 0);
                            match fstring_run_spec(args, 0, k, q) {
                                Err(e) => Ok(
                                    OutcomeSpec::Skipped {
                                        row: resolve_err_row(e, first.lineno as int),
                                    },
                                ),
                                Ok(p) => if p.0.len() == 0 {
                                    Ok(OutcomeSpec::Rejected)
                                } else {
                                    Ok(
                                        OutcomeSpec::Edit(
                                            SpecChange {
                                                lineno: first.lineno as int,
                                                col_offset: first.col_offset as int,
                                                end_lineno: args[k - 1].end_lineno as int,
                                                end_col_offset: args[k - 1].end_col_offset as int,
                                                new_string_content: p.0,
                                                new_string_variables: p.1,
                                                quote: q,
                                            },
                                        ),
                                    )
                                },
                            }
                        },
                    },
                    ExprKind::Call { func: ifunc, args: iargs, keywords: ikeywords } => match (
                    *ifunc).kind {
                        ExprKind::Attribute { value: ivalue, attr: iattr } => if iattr@
                            == "format"@ {
                            match quote_at(lines, first.lineno as int, first.col_offset as int) {
                                None => Ok(OutcomeSpec::Skipped { row: first.lineno as int }),
                                Some(q) => match fix_format_call_spec(*ifunc, iargs@, ikeywords@, q) {
                                    Err(FormatSpecError::Resolve(e)) => Ok(
                                        OutcomeSpec::Skipped {
                                            row: resolve_err_row(e, first.lineno as int),
                                        },
                                    ),
                                    Err(e) => Err(e),
                                    Ok(p) => if p.0.len() == 0 {
                                        Ok(OutcomeSpec::Rejected)
                                    } else {
                                        Ok(
                                            OutcomeSpec::Edit(
                                                SpecChange {
                                                    lineno: first.lineno as int,
                                                    col_offset: first.col_offset as int,
                                                    end_lineno: first.end_lineno as int,
                                                    end_col_offset: first.end_col_offset as int,
                                                    new_string_content: p.0,
                                                    new_string_variables: p.1,
                                                    quote: q,
                                                },
                                            ),
                                        )
                                    },
                                },
                            }
                        } else {
                            Ok(OutcomeSpec::Rejected)
                        },
                        _ => Ok(OutcomeSpec::Rejected),
                    },
                    _ => Ok(OutcomeSpec::Rejected),
                }
            },
        },
        _ => Ok(OutcomeSpec::Rejected),
    }
}

/// Classifies one call node and, when it qualifies, builds its pending edit.
#[verifier::loop_isolation(false)]
pub fn handle_call(
    func: &Expr,
    args: &Vec<Expr>,
    lines: &Vec<String>,
    threshold: LogLevel,
) -> (r: Result<CallOutcome, FormatCallError>)
    ensures
        match r {
            Ok(o) => classify_call_spec(*func, args@, strings_view(lines@), threshold) == Ok::<
                OutcomeSpec,
                FormatSpecError,
            >(outcome_view(o)),
            Err(e) => classify_call_spec(*func, args@, strings_view(lines@), threshold) == Err::<
                OutcomeSpec,
                FormatSpecError,
            >(fce_view(e)),
        },
{
    let (value, attr) = match &func.kind {
        ExprKind::Attribute { value, attr } => (value, attr),
        _ => {
            return Ok(CallOutcome::Rejected);
        },
    };
    let lvl = match LogLevel::maybe_from_str(attr.as_str()) {
        Some(lvl) => lvl,
        None => {
            return Ok(CallOutcome::Rejected);
        },
    };
    if threshold.rank() > lvl.rank() {
        return Ok(CallOutcome::Rejected);
    }
    let blocked = match &value.kind {
        ExprKind::Name { id } => str_eq(id.as_str(), "warnings") || str_eq(id.as_str(), "messages"),
        _ => false,
    };
    if blocked {
        return Ok(CallOutcome::Rejected);
    }
    if args.len() == 0 {
        return Ok(CallOutcome::Rejected);
    }
    let first = &args[0];
    match &first.kind {
        ExprKind::JoinedStr { values: _ } => {
            let q = match get_quotes(lines, first.lineno, first.col_offset) {
                Some(q) => q,
                None => {
                    return Ok(CallOutcome::Skipped { row: first.lineno });
                },
            };
            // the run of adjacent interpolated-string arguments
            let mut k: usize = 0;
            while k < args.len() && matches!(&args[k].kind, ExprKind::JoinedStr { .. })
                invariant
                    k <= args@.len(),
                    forall|j: int| 0 <= j < k ==> args@[j].kind is JoinedStr,
                decreases args@.len() - k,
            {
                k += 1;
            }
            proof {
                lemma_joined_run_is(args@, 0, k as int);
            }
            // build the template and arguments across the run
            let ghost target = fstring_run_spec(args@, 0, k as int, q);
            let mut tpl = String::new();
            let mut vars: Vec<String> = Vec::new();
            let mut j: usize = 0;
            proof {
                let p0 = target->Ok_0;
                assert(tpl@ + p0.0 =~= p0.0);
                assert(strings_view(vars@) + p0.1 =~= p0.1);
            }
            while j < k
                invariant
                    j <= k <= args@.len(),
                    target == match fstring_run_spec(args@, j as int, k as int, q) {
                        Err(e) => Err::<(Seq<char>, Seq<Seq<char>>), ResolveError>(e),
                        Ok(p) => Ok((tpl@ + p.0, strings_view(vars@) + p.1)),
                    },
                decreases k - j,
            {
                match &args[j].kind {
                    ExprKind::JoinedStr { values } => {
                        match fstring_values(values, q) {
                            Err(e) => {
                                return Ok(
                                    CallOutcome::Skipped {
                                        row: resolve_err_row_exec(&e, first.lineno),
                                    },
                                );
                            },
                            Ok((t, a)) => {
                                let ghost old_tpl = tpl@;
                                let ghost old_vars = strings_view(vars@);
                                let mut a = a;
                                let ghost a0 = strings_view(a@);
                                tpl.append(t.as_str());
                                vars.append(&mut a);
                                proof {
                                    let p1 = fstring_run_spec(args@, j + 1, k as int, q)->Ok_0;
                                    assert((old_tpl + t@) + p1.0 =~= old_tpl + (t@ + p1.0));
                                    assert(strings_view(vars@) =~= old_vars + a0);
                                    assert((old_vars + a0) + p1.1 =~= old_vars + (a0 + p1.1));
                                }
                            },
                        }
                    },
                    _ => {
                        proof {
                            assert(false);
                        }
                    },
                }
                j += 1;
            }
            if tpl.as_str().is_empty() {
                return Ok(CallOutcome::Rejected);
            }
            Ok(
                CallOutcome::Edit(
                    Change {
                        lineno: first.lineno,
                        col_offset: first.col_offset,
                        end_lineno: args[k - 1].end_lineno,
                        end_col_offset: args[k - 1].end_col_offset,
                        new_string_content: tpl,
                        new_string_variables: vars,
                        quote: q,
                    },
                ),
            )
        },
        ExprKind::Call { func: ifunc, args: iargs, keywords: ikeywords } => {
            let iattr = match &ifunc.kind {
                ExprKind::Attribute { value: _, attr } => attr,
                _ => {
                    return Ok(CallOutcome::Rejected);
                },
            };
            if !str_eq(iattr.as_str(), "format") {
                return Ok(CallOutcome::Rejected);
            }
            let q = match get_quotes(lines, first.lineno, first.col_offset) {
                Some(q) => q,
                None => {
                    return Ok(CallOutcome::Skipped { row: first.lineno });
                },
            };
            match fix_format_call(&**ifunc, iargs, ikeywords, q) {
                Err(FormatCallError::Resolve(e)) => Ok(
                    CallOutcome::Skipped { row: resolve_err_row_exec(&e, first.lineno) },
                ),
                Err(e) => Err(e),
                Ok((tpl, vars)) => {
                    if tpl.as_str().is_empty() {
                        return Ok(CallOutcome::Rejected);
                    }
                    Ok(
                        CallOutcome::Edit(
                            Change {
                                lineno: first.lineno,
                                col_offset: first.col_offset,
                                end_lineno: first.end_lineno,
                                end_col_offset: first.end_col_offset,
                                new_string_content: tpl,
                                new_string_variables: vars,
                                quote: q,
                            },
                        ),
                    )
                },
            }
        },
        _ => Ok(CallOutcome::Rejected),
    }
}

/// The severity level a call's method name designates, when its callee is an
/// attribute access with such a name.
pub open spec fn call_level_of(func: Expr) -> Option<LogLevel> {
    match func.kind {
        ExprKind::Attribute { value, attr } => log_level_of(attr@),
        _ => Option::<LogLevel>::None,
    }
}

/// Whether a call's receiver is a block-listed bare name.
pub open spec fn has_blocked_receiver(func: Expr) -> bool {
    match func.kind {
        ExprKind::Attribute { value, attr } => is_blocked_receiver(*value),
        _ => false,
    }
}

/// Severity law: for every call whose method name designates a severity
/// below the configured threshold, the classifier produces no change — the
/// call site is left untouched.
pub proof fn lemma_below_threshold_no_change(
    func: Expr,
    args: Seq<Expr>,
    lines: Seq<Seq<char>>,
    threshold: LogLevel,
)
    requires
        call_level_of(func) is Some,
        log_level_rank(call_level_of(func)->0) < log_level_rank(threshold),
    ensures
        classify_call_spec(func, args, lines, threshold) == Ok::<OutcomeSpec, FormatSpecError>(
            OutcomeSpec::Rejected,
        ),
{
    match func.kind {
        ExprKind::Attribute { value, attr } => {
            assert(log_level_of(attr@) == call_level_of(func));
        },
        _ => {},
    }
}

/// Block-list law: for every call whose receiver name is block-listed, the
/// classifier produces no change — the call site is left untouched.
pub proof fn lemma_blocklisted_receiver_no_change(
    func: Expr,
    args: Seq<Expr>,
    lines: Seq<Seq<char>>,
    threshold: LogLevel,
)
    requires
        has_blocked_receiver(func),
    ensures
        classify_call_spec(func, args, lines, threshold) == Ok::<OutcomeSpec, FormatSpecError>(
            OutcomeSpec::Rejected,
        ),
{
    match func.kind {
        ExprKind::Attribute { value, attr } => {
            assert(is_blocked_receiver(*value));
        },
        _ => {},
    }
}

/// Every literal anywhere in the expression is clean: its rendered text
/// holds no `%s` of its own and does not end with a bare `%`.
pub open spec fn expr_clean(e: Expr) -> bool
    decreases e,
{
    match e.kind {
        ExprKind::BoolOp { values } => expr_list_clean(values@),
        ExprKind::Name { id } => true,
        ExprKind::Attribute { value, attr } => expr_clean(*value),
        ExprKind::Constant { value } => clean_literal(value),
        ExprKind::Call { func, args, keywords } => expr_clean(*func) && expr_list_clean(args@)
            && kw_list_clean(keywords@),
        ExprKind::BinOp { left, op, right } => expr_clean(*left) && expr_clean(*right),
        ExprKind::Subscript { value, slice } => expr_clean(*value) && expr_clean(*slice),
        ExprKind::ListComp { elt, generators } => expr_clean(*elt) && comp_list_clean(generators@),
        ExprKind::GeneratorExp { elt, generators } => expr_clean(*elt) && comp_list_clean(
            generators@,
        ),
        ExprKind::DictComp { key, value, generators } => expr_clean(*key) && expr_clean(*value)
            && comp_list_clean(generators@),
        ExprKind::JoinedStr { values } => expr_list_clean(values@),
        ExprKind::FormattedValue { value } => expr_clean(*value),
        ExprKind::Other { children } => expr_list_clean(children@),
    }
}

pub open spec fn expr_list_clean(es: Seq<Expr>) -> bool
    decreases es,
{
    forall|i: int| 0 <= i < es.len() ==> expr_clean(#[trigger] es[i])
}

pub open spec fn kw_list_clean(kws: Seq<Keyword>) -> bool
    decreases kws,
{
    forall|i: int| 0 <= i < kws.len() ==> expr_clean((#[trigger] kws[i]).value)
}

pub open spec fn comp_list_clean(gens: Seq<Comprehension>) -> bool
    decreases gens,
{
    forall|i: int|
        0 <= i < gens.len() ==> expr_clean((#[trigger] gens[i]).target) && expr_clean(gens[i].iter)
}

pub open spec fn stmt_clean(s: Stmt) -> bool
    decreases s,
{
    expr_list_clean(s.exprs@) && stmt_list_clean(s.body@)
}

pub open spec fn stmt_list_clean(ss: Seq<Stmt>) -> bool
    decreases ss,
{
    forall|i: int| 0 <= i < ss.len() ==> stmt_clean(#[trigger] ss[i])
}

/// A pending edit whose template holds exactly one `%s` per argument.
pub open spec fn change_balanced(c: SpecChange) -> bool {
    count2(c.new_string_content, '%', 's') == c.new_string_variables.len()
}

pub open spec fn all_balanced(cs: Seq<SpecChange>) -> bool {
    forall|i: int| 0 <= i < cs.len() ==> change_balanced(#[trigger] cs[i])
}

proof fn lemma_all_balanced_concat(a: Seq<SpecChange>, b: Seq<SpecChange>)
    requires
        all_balanced(a),
        all_balanced(b),
    ensures
        all_balanced(a + b),
{
    assert forall|i: int| 0 <= i < (a + b).len() implies change_balanced(#[trigger] (a + b)[i]) by {
        if i < a.len() {
            assert((a + b)[i] == a[i]);
        } else {
            assert((a + b)[i] == b[i - a.len()]);
        }
    }
}

/// Every position inside the run of adjacent interpolated-string arguments
/// holds an interpolated string.
pub proof fn lemma_joined_run_members(args: Seq<Expr>, from: int)
    requires
        0 <= from <= args.len(),
    ensures
        from <= joined_run_len(args, from) <= args.len(),
        forall|j: int|
            from <= j < joined_run_len(args, from) ==> (#[trigger] args[j].kind) is JoinedStr,
    decreases args.len() - from,
{
    if from < args.len() && args[from].kind is JoinedStr {
        lemma_joined_run_members(args, from + 1);
    }
}

/// Placeholder-count law across a run of adjacent interpolated strings with
/// clean literal segments.
pub proof fn lemma_fstring_run_count(args: Seq<Expr>, i: int, k: int, quote: char)
    requires
        0 <= i <= k <= args.len(),
        forall|j: int| i <= j < k ==> values_clean(joined_values_of(#[trigger] args[j])),
        fstring_run_spec(args, i, k, quote) is Ok,
    ensures
        count2(fstring_run_spec(args, i, k, quote)->Ok_0.0, '%', 's') == fstring_run_spec(
            args,
            i,
            k,
            quote,
        )->Ok_0.1.len(),
        fstring_run_spec(args, i, k, quote)->Ok_0.0.len() > 0 ==> fstring_run_spec(
            args,
            i,
            k,
            quote,
        )->Ok_0.0.last() != '%',
    decreases k - i,
{
    if i < k {
        let p0 = fstring_values_spec(joined_values_of(args[i]), quote)->Ok_0;
        let rest = fstring_run_spec(args, i + 1, k, quote)->Ok_0;
        crate::parse_fstring::lemma_fstring_placeholder_count(joined_values_of(args[i]), quote);
        lemma_fstring_run_count(args, i + 1, k, quote);
        crate::text::lemma_count2_concat(p0.0, rest.0, '%', 's');
        let whole = fstring_run_spec(args, i, k, quote)->Ok_0;
        assert(whole.0 == p0.0 + rest.0);
        assert(whole.1 == p0.1 + rest.1);
        if whole.0.len() > 0 {
            if rest.0.len() > 0 {
                assert(whole.0.last() == rest.0.last());
            } else {
                assert(whole.0 =~= p0.0);
            }
        }
    }
}

/// Placeholder-count law at the classifier: an edit built for a call whose
/// arguments hold only clean literals has exactly one `%s` per argument.
pub proof fn lemma_classify_edit_balanced(
    func: Expr,
    args: Seq<Expr>,
    lines: Seq<Seq<char>>,
    threshold: LogLevel,
)
    requires
        expr_list_clean(args),
        classify_call_spec(func, args, lines, threshold) matches Ok(OutcomeSpec::Edit(c)),
    ensures
        classify_call_spec(func, args, lines, threshold) matches Ok(OutcomeSpec::Edit(c))
            && change_balanced(c),
{
    reveal_strlit("%s");
    let first = args[0];
    match first.kind {
        ExprKind::JoinedStr { values } => {
            let q = quote_at(lines, first.lineno as int, first.col_offset as int)->0;
            let k = joined_run_len(args, 0);
            lemma_joined_run_members(args, 0);
            assert forall|j: int| 0 <= j < k implies values_clean(
                joined_values_of(#[trigger] args[j]),
            ) by {
                assert(expr_clean(args[j]));
                assert(args[j].kind is JoinedStr);
                let vs = joined_values_of(args[j]);
                assert(expr_list_clean(vs));
                assert forall|v: int|
                    0 <= v < vs.len() implies ((#[trigger] vs[v].kind)
                    matches ExprKind::Constant { value } ==> clean_literal(value)) by {
                    assert(expr_clean(vs[v]));
                }
            }
            lemma_fstring_run_count(args, 0, k, q);
        },
        ExprKind::Call { func: ifunc, args: iargs, keywords: ikeywords } => {
            let q = quote_at(lines, first.lineno as int, first.col_offset as int)->0;
            let s = crate::parse_format::format_string_of(*ifunc);
            assert(count2(s, '%', 's') == 0) by {
                assert(expr_clean(first));
                match (*ifunc).kind {
                    ExprKind::Attribute { value, attr } => {
                        match (*value).kind {
                            ExprKind::Constant { value: c2 } => {
                                match c2 {
                                    Constant::Str(t) => {
                                        assert(expr_clean(*ifunc));
                                        assert(expr_clean(*value));
                                        assert(clean_literal(c2));
                                        assert(constant_text(c2) == t@);
                                    },
                                    _ => {
                                        assert(s =~= Seq::<char>::empty());
                                    },
                                }
                            },
                            _ => {
                                assert(s =~= Seq::<char>::empty());
                            },
                        }
                    },
                    _ => {
                        assert(s =~= Seq::<char>::empty());
                    },
                }
            }
            let occs = crate::parse_format::occurrences_spec(s);
            crate::parse_format::lemma_scan_occs_wf(s, 0, Option::<int>::None);
            if occs.len() > 0 {
                assert(0 <= occs[0].0);
            }
            crate::parse_format::lemma_gaps_clean_from_zero(s, occs, 0, 0);
            crate::parse_format::lemma_format_placeholder_count(*ifunc, iargs@, ikeywords@, q);
        },
        _ => {
            assert(false);
        },
    }
}

/// The edits and skipped rows a full walk of one expression produces, in
/// traversal order. A call that produced an edit is not descended into;
/// every other node's children are traversed.
pub open spec fn walk_expr_spec(e: Expr, lines: Seq<Seq<char>>, threshold: LogLevel) -> Result<
    (Seq<SpecChange>, Seq<int>),
    FormatSpecError,
>
    decreases e,
{
    match e.kind {
        ExprKind::BoolOp { values } => walk_list_spec(values@, lines, threshold),
        ExprKind::Name { id } => Ok((Seq::empty(), Seq::empty())),
        ExprKind::Attribute { value, attr } => walk_expr_spec(*value, lines, threshold),
        ExprKind::Constant { value } => Ok((Seq::empty(), Seq::empty())),
        ExprKind::Call { func, args, keywords } => match classify_call_spec(
            *func,
            args@,
            lines,
            threshold,
        ) {
            Err(e2) => Err(e2),
            Ok(OutcomeSpec::Edit(c)) => Ok((seq![c], Seq::empty())),
            Ok(out) => {
                let extra = match out {
                    OutcomeSpec::Skipped { row } => seq![row],
                    _ => Seq::<int>::empty(),
                };
                match walk_expr_spec(*func, lines, threshold) {
                    Err(e2) => Err(e2),
                    Ok(p1) => match walk_list_spec(args@, lines, threshold) {
                        Err(e2) => Err(e2),
                        Ok(p2) => match walk_kw_list_spec(keywords@, lines, threshold) {
                            Err(e2) => Err(e2),
                            Ok(p3) => Ok((p1.0 + p2.0 + p3.0, extra + (p1.1 + p2.1 + p3.1))),
                        },
                    },
                }
            },
        },
        ExprKind::BinOp { left, op, right } => match walk_expr_spec(*left, lines, threshold) {
            Err(e2) => Err(e2),
            Ok(p1) => match walk_expr_spec(*right, lines, threshold) {
                Err(e2) => Err(e2),
                Ok(p2) => Ok((p1.0 + p2.0, p1.1 + p2.1)),
            },
        },
        ExprKind::Subscript { value, slice } => match walk_expr_spec(*value, lines, threshold) {
            Err(e2) => Err(e2),
            Ok(p1) => match walk_expr_spec(*slice, lines, threshold) {
                Err(e2) => Err(e2),
                Ok(p2) => Ok((p1.0 + p2.0, p1.1 + p2.1)),
            },
        },
        ExprKind::ListComp { elt, generators } => match walk_expr_spec(*elt, lines, threshold) {
            Err(e2) => Err(e2),
            Ok(p1) => match walk_comp_list_spec(generators@, lines, threshold) {
                Err(e2) => Err(e2),
                Ok(p2) => Ok((p1.0 + p2.0, p1.1 + p2.1)),
            },
        },
        ExprKind::GeneratorExp { elt, generators } => match walk_expr_spec(*elt, lines, threshold) {
            Err(e2) => Err(e2),
            Ok(p1) => match walk_comp_list_spec(generators@, lines, threshold) {
                Err(e2) => Err(e2),
                Ok(p2) => Ok((p1.0 + p2.0, p1.1 + p2.1)),
            },
        },
        ExprKind::DictComp { key, value, generators } => match walk_expr_spec(
            *key,
            lines,
            threshold,
        ) {
            Err(e2) => Err(e2),
            Ok(p1) => match walk_expr_spec(*value, lines, threshold) {
                Err(e2) => Err(e2),
                Ok(p2) => match walk_comp_list_spec(generators@, lines, threshold) {
                    Err(e2) => Err(e2),
                    Ok(p3) => Ok((p1.0 + p2.0 + p3.0, p1.1 + p2.1 + p3.1)),
                },
            },
        },
        ExprKind::JoinedStr { values } => walk_list_spec(values@, lines, threshold),
        ExprKind::FormattedValue { value } => walk_expr_spec(*value, lines, threshold),
        ExprKind::Other { children } => walk_list_spec(children@, lines, threshold),
    }
}

/// The edits and skipped rows a walk of each expression in the list
/// produces, in order.
pub open spec fn walk_list_spec(es: Seq<Expr>, lines: Seq<Seq<char>>, threshold: LogLevel) -> Result<
    (Seq<SpecChange>, Seq<int>),
    FormatSpecError,
>
    decreases es,
{
    if es.len() == 0 {
        Ok((Seq::empty(), Seq::empty()))
    } else {
        match walk_expr_spec(es[0], lines, threshold) {
            Err(e2) => Err(e2),
            Ok(p1) => match walk_list_spec(es.drop_first(), lines, threshold) {
                Err(e2) => Err(e2),
                Ok(p2) => Ok((p1.0 + p2.0, p1.1 + p2.1)),
            },
        }
    }
}

/// The edits and skipped rows a walk of each keyword argument's value
/// produces, in order.
pub open spec fn walk_kw_list_spec(
    kws: Seq<Keyword>,
    lines: Seq<Seq<char>>,
    threshold: LogLevel,
) -> Result<(Seq<SpecChange>, Seq<int>), FormatSpecError>
    decreases kws,
{
    if kws.len() == 0 {
        Ok((Seq::empty(), Seq::empty()))
    } else {
        match walk_expr_spec(kws[0].value, lines, threshold) {
            Err(e2) => Err(e2),
            Ok(p1) => match walk_kw_list_spec(kws.drop_first(), lines, threshold) {
                Err(e2) => Err(e2),
                Ok(p2) => Ok((p1.0 + p2.0, p1.1 + p2.1)),
            },
        }
    }
}

/// The edits and skipped rows a walk of each comprehension clause's target
/// and iterator produces, in order.
pub open spec fn walk_comp_list_spec(
    gens: Seq<Comprehension>,
    lines: Seq<Seq<char>>,
    threshold: LogLevel,
) -> Result<(Seq<SpecChange>, Seq<int>), FormatSpecError>
    decreases gens,
{
    if gens.len() == 0 {
        Ok((Seq::empty(), Seq::empty()))
    } else {
        match walk_expr_spec(gens[0].target, lines, threshold) {
            Err(e2) => Err(e2),
            Ok(p1) => match walk_expr_spec(gens[0].iter, lines, threshold) {
                Err(e2) => Err(e2),
                Ok(p2) => match walk_comp_list_spec(gens.drop_first(), lines, threshold) {
                    Err(e2) => Err(e2),
                    Ok(p3) => Ok((p1.0 + p2.0 + p3.0, p1.1 + p2.1 + p3.1)),
                },
            },
        }
    }
}

/// The edits and skipped rows a walk of one statement produces: its direct
/// expressions first, then its nested statements.
pub open spec fn walk_stmt_spec(s: Stmt, lines: Seq<Seq<char>>, threshold: LogLevel) -> Result<
    (Seq<SpecChange>, Seq<int>),
    FormatSpecError,
>
    decreases s,
{
    match walk_list_spec(s.exprs@, lines, threshold) {
        Err(e2) => Err(e2),
        Ok(p1) => match walk_stmt_list_spec(s.body@, lines, threshold) {
            Err(e2) => Err(e2),
            Ok(p2) => Ok((p1.0 + p2.0, p1.1 + p2.1)),
        },
    }
}

/// The edits and skipped rows a walk of a statement list produces, in order.
pub open spec fn walk_stmt_list_spec(
    ss: Seq<Stmt>,
    lines: Seq<Seq<char>>,
    threshold: LogLevel,
) -> Result<(Seq<SpecChange>, Seq<int>), FormatSpecError>
    decreases ss,
{
    if ss.len() == 0 {
        Ok((Seq::empty(), Seq::empty()))
    } else {
        match walk_stmt_spec(ss[0], lines, threshold) {
            Err(e2) => Err(e2),
            Ok(p1) => match walk_stmt_list_spec(ss.drop_first(), lines, threshold) {
                Err(e2) => Err(e2),
                Ok(p2) => Ok((p1.0 + p2.0, p1.1 + p2.1)),
            },
        }
    }
}

/// Placeholder-count law for the walk of one expression: every edit produced
/// for a tree whose literals are clean is balanced.
pub proof fn lemma_walk_expr_balanced(e: Expr, lines: Seq<Seq<char>>, threshold: LogLevel)
    requires
        expr_clean(e),
        walk_expr_spec(e, lines, threshold) is Ok,
    ensures
        all_balanced(walk_expr_spec(e, lines, threshold)->Ok_0.0),
    decreases e,
{
    match e.kind {
        ExprKind::BoolOp { values } => {
            lemma_walk_list_balanced(values@, lines, threshold);
        },
        ExprKind::Name { id } => {},
        ExprKind::Attribute { value, attr } => {
            lemma_walk_expr_balanced(*value, lines, threshold);
        },
        ExprKind::Constant { value } => {},
        ExprKind::Call { func, args, keywords } => {
            let cls = classify_call_spec(*func, args@, lines, threshold);
            match cls {
                Ok(OutcomeSpec::Edit(c)) => {
                    lemma_classify_edit_balanced(*func, args@, lines, threshold);
                    let r = walk_expr_spec(e, lines, threshold)->Ok_0;
                    assert(r.0 == seq![c]);
                    assert(seq![c][0] == c);
                    assert(all_balanced(seq![c]));
                },
                Ok(_) => {
                    let p1 = walk_expr_spec(*func, lines, threshold)->Ok_0;
                    let p2 = walk_list_spec(args@, lines, threshold)->Ok_0;
                    let p3 = walk_kw_list_spec(keywords@, lines, threshold)->Ok_0;
                    lemma_walk_expr_balanced(*func, lines, threshold);
                    lemma_walk_list_balanced(args@, lines, threshold);
                    lemma_walk_kw_list_balanced(keywords@, lines, threshold);
                    lemma_all_balanced_concat(p1.0, p2.0);
                    lemma_all_balanced_concat(p1.0 + p2.0, p3.0);
                },
                Err(_) => {
                    assert(false);
                },
            }
        },
        ExprKind::BinOp { left, op, right } => {
            lemma_walk_expr_balanced(*left, lines, threshold);
            lemma_walk_expr_balanced(*right, lines, threshold);
            lemma_all_balanced_concat(
                walk_expr_spec(*left, lines, threshold)->Ok_0.0,
                walk_expr_spec(*right, lines, threshold)->Ok_0.0,
            );
        },
        ExprKind::Subscript { value, slice } => {
            lemma_walk_expr_balanced(*value, lines, threshold);
            lemma_walk_expr_balanced(*slice, lines, threshold);
            lemma_all_balanced_concat(
                walk_expr_spec(*value, lines, threshold)->Ok_0.0,
                walk_expr_spec(*slice, lines, threshold)->Ok_0.0,
            );
        },
        ExprKind::ListComp { elt, generators } => {
            lemma_walk_expr_balanced(*elt, lines, threshold);
            lemma_walk_comp_list_balanced(generators@, lines, threshold);
            lemma_all_balanced_concat(
                walk_expr_spec(*elt, lines, threshold)->Ok_0.0,
                walk_comp_list_spec(generators@, lines, threshold)->Ok_0.0,
            );
        },
        ExprKind::GeneratorExp { elt, generators } => {
            lemma_walk_expr_balanced(*elt, lines, threshold);
            lemma_walk_comp_list_balanced(generators@, lines, threshold);
            lemma_all_balanced_concat(
                walk_expr_spec(*elt, lines, threshold)->Ok_0.0,
                walk_comp_list_spec(generators@, lines, threshold)->Ok_0.0,
            );
        },
        ExprKind::DictComp { key, value, generators } => {
            lemma_walk_expr_balanced(*key, lines, threshold);
            lemma_walk_expr_balanced(*value, lines, threshold);
            lemma_walk_comp_list_balanced(generators@, lines, threshold);
            lemma_all_balanced_concat(
                walk_expr_spec(*key, lines, threshold)->Ok_0.0,
                walk_expr_spec(*value, lines, threshold)->Ok_0.0,
            );
            lemma_all_balanced_concat(
                walk_expr_spec(*key, lines, threshold)->Ok_0.0 + walk_expr_spec(
                    *value,
                    lines,
                    threshold,
                )->Ok_0.0,
                walk_comp_list_spec(generators@, lines, threshold)->Ok_0.0,
            );
        },
        ExprKind::JoinedStr { values } => {
            lemma_walk_list_balanced(values@, lines, threshold);
        },
        ExprKind::FormattedValue { value } => {
            lemma_walk_expr_balanced(*value, lines, threshold);
        },
        ExprKind::Other { children } => {
            lemma_walk_list_balanced(children@, lines, threshold);
        },
    }
}

/// Placeholder-count law for the walk of an expression list.
pub proof fn lemma_walk_list_balanced(es: Seq<Expr>, lines: Seq<Seq<char>>, threshold: LogLevel)
    requires
        expr_list_clean(es),
        walk_list_spec(es, lines, threshold) is Ok,
    ensures
        all_balanced(walk_list_spec(es, lines, threshold)->Ok_0.0),
    decreases es,
{
    if es.len() > 0 {
        assert(forall|i: int|
            0 <= i < es.drop_first().len() ==> #[trigger] es.drop_first()[i] == es[i + 1]);
        lemma_walk_expr_balanced(es[0], lines, threshold);
        lemma_walk_list_balanced(es.drop_first(), lines, threshold);
        lemma_all_balanced_concat(
            walk_expr_spec(es[0], lines, threshold)->Ok_0.0,
            walk_list_spec(es.drop_first(), lines, threshold)->Ok_0.0,
        );
    }
}

/// Placeholder-count law for the walk of keyword-argument values.
pub proof fn lemma_walk_kw_list_balanced(
    kws: Seq<Keyword>,
    lines: Seq<Seq<char>>,
    threshold: LogLevel,
)
    requires
        kw_list_clean(kws),
        walk_kw_list_spec(kws, lines, threshold) is Ok,
    ensures
        all_balanced(walk_kw_list_spec(kws, lines, threshold)->Ok_0.0),
    decreases kws,
{
    if kws.len() > 0 {
        assert(forall|i: int|
            0 <= i < kws.drop_first().len() ==> #[trigger] kws.drop_first()[i] == kws[i + 1]);
        lemma_walk_expr_balanced(kws[0].value, lines, threshold);
        lemma_walk_kw_list_balanced(kws.drop_first(), lines, threshold);
        lemma_all_balanced_concat(
            walk_expr_spec(kws[0].value, lines, threshold)->Ok_0.0,
            walk_kw_list_spec(kws.drop_first(), lines, threshold)->Ok_0.0,
        );
    }
}

/// Placeholder-count law for the walk of comprehension clauses.
pub proof fn lemma_walk_comp_list_balanced(
    gens: Seq<Comprehension>,
    lines: Seq<Seq<char>>,
    threshold: LogLevel,
)
    requires
        comp_list_clean(gens),
        walk_comp_list_spec(gens, lines, threshold) is Ok,
    ensures
        all_balanced(walk_comp_list_spec(gens, lines, threshold)->Ok_0.0),
    decreases gens,
{
    if gens.len() > 0 {
        assert(forall|i: int|
            0 <= i < gens.drop_first().len() ==> #[trigger] gens.drop_first()[i] == gens[i + 1]);
        lemma_walk_expr_balanced(gens[0].target, lines, threshold);
        lemma_walk_expr_balanced(gens[0].iter, lines, threshold);
        lemma_walk_comp_list_balanced(gens.drop_first(), lines, threshold);
        lemma_all_balanced_concat(
            walk_expr_spec(gens[0].target, lines, threshold)->Ok_0.0,
            walk_expr_spec(gens[0].iter, lines, threshold)->Ok_0.0,
        );
        lemma_all_balanced_concat(
            walk_expr_spec(gens[0].target, lines, threshold)->Ok_0.0 + walk_expr_spec(
                gens[0].iter,
                lines,
                threshold,
            )->Ok_0.0,
            walk_comp_list_spec(gens.drop_first(), lines, threshold)->Ok_0.0,
        );
    }
}

/// Placeholder-count law for the walk of one statement.
pub proof fn lemma_walk_stmt_balanced(s: Stmt, lines: Seq<Seq<char>>, threshold: LogLevel)
    requires
        stmt_clean(s),
        walk_stmt_spec(s, lines, threshold) is Ok,
    ensures
        all_balanced(walk_stmt_spec(s, lines, threshold)->Ok_0.0),
    decreases s,
{
    lemma_walk_list_balanced(s.exprs@, lines, threshold);
    lemma_walk_stmt_list_balanced(s.body@, lines, threshold);
    lemma_all_balanced_concat(
        walk_list_spec(s.exprs@, lines, threshold)->Ok_0.0,
        walk_stmt_list_spec(s.body@, lines, threshold)->Ok_0.0,
    );
}

/// Placeholder-count law at the change level: when every string literal in
/// the program is clean (no `%s` of its own, no trailing bare `%`), every
/// pending edit the walk produces has exactly one `%s` occurrence in its
/// template per argument in its argument list.
pub proof fn lemma_walk_stmt_list_balanced(
    ss: Seq<Stmt>,
    lines: Seq<Seq<char>>,
    threshold: LogLevel,
)
    requires
        stmt_list_clean(ss),
        walk_stmt_list_spec(ss, lines, threshold) is Ok,
    ensures
        all_balanced(walk_stmt_list_spec(ss, lines, threshold)->Ok_0.0),
    decreases ss,
{
    if ss.len() > 0 {
        assert(forall|i: int|
            0 <= i < ss.drop_first().len() ==> #[trigger] ss.drop_first()[i] == ss[i + 1]);
        lemma_walk_stmt_balanced(ss[0], lines, threshold);
        lemma_walk_stmt_list_balanced(ss.drop_first(), lines, threshold);
        lemma_all_balanced_concat(
            walk_stmt_spec(ss[0], lines, threshold)->Ok_0.0,
            walk_stmt_list_spec(ss.drop_first(), lines, threshold)->Ok_0.0,
        );
    }
}

/// Walks one call node: classifies it, records its edit or skipped row, and
/// traverses its children when no edit was produced.
#[verifier::loop_isolation(false)]
#[verifier::rlimit(100)]
#[verifier::spinoff_prover]
fn walk_call_node(
    e: &Expr,
    lines: &Vec<String>,
    threshold: LogLevel,
    changes: &mut Vec<Change>,
    skipped: &mut Vec<usize>,
) -> (r: Result<(), FormatCallError>)
    requires
        e.kind is Call,
    ensures
        r is Ok ==> (walk_expr_spec(*e, strings_view(lines@), threshold) matches Ok(p)
            && changes_view(final(changes)@) == changes_view(old(changes)@) + p.0 && skips_view(
            final(skipped)@,
        ) == skips_view(old(skipped)@) + p.1),
        r matches Err(er) ==> walk_expr_spec(*e, strings_view(lines@), threshold) == Err::<
            (Seq<SpecChange>, Seq<int>),
            FormatSpecError,
        >(fce_view(er)),
    decreases *e, 0int,
{
    let ghost c0 = changes_view(changes@);
    let ghost s0 = skips_view(skipped@);
    proof {
        assert(c0 + Seq::<SpecChange>::empty() =~= c0);
        assert(s0 + Seq::<int>::empty() =~= s0);
    }
    match &e.kind {
        ExprKind::Call { func, args, keywords } => {
            let out = match handle_call(&**func, args, lines, threshold) {
                Ok(o) => o,
                Err(er) => {
                    return Err(er);
                },
            };
            let ghost gout = outcome_view(out);
            match out {
                CallOutcome::Edit(c) => {
                    proof {
                        assert(c0.push(change_view(c)) =~= c0 + seq![change_view(c)]);
                    }
                    changes.push(c);
                    return Ok(());
                },
                CallOutcome::Skipped { row } => {
                    skipped.push(row);
                },
                CallOutcome::Rejected => {},
            }
            let ghost extra = match gout {
                OutcomeSpec::Skipped { row } => seq![row],
                _ => Seq::<int>::empty(),
            };
            let ghost s1 = skips_view(skipped@);
            proof {
                assert(s1 =~= s0 + extra);
            }
            match walk_expr(&**func, lines, threshold, changes, skipped) {
                Ok(_) => {},
                Err(er) => {
                    return Err(er);
                },
            }
            let ghost p1 = walk_expr_spec(**func, strings_view(lines@), threshold)->Ok_0;
            match walk_expr_list(args, lines, threshold, changes, skipped) {
                Ok(_) => {},
                Err(er) => {
                    return Err(er);
                },
            }
            let ghost p2 = walk_list_spec(args@, strings_view(lines@), threshold)->Ok_0;
            match walk_kw_list(keywords, lines, threshold, changes, skipped) {
                Ok(_) => {},
                Err(er) => {
                    return Err(er);
                },
            }
            let ghost p3 = walk_kw_list_spec(keywords@, strings_view(lines@), threshold)->Ok_0;
            proof {
                assert(((c0 + p1.0) + p2.0) + p3.0 =~= c0 + (p1.0 + p2.0 + p3.0));
                assert((((s0 + extra) + p1.1) + p2.1) + p3.1 =~= s0 + (extra + (p1.1 + p2.1
                    + p3.1)));
            }
            Ok(())
        },
        _ => {
            proof {
                assert(false);
            }
            Ok(())
        },
    }
}

/// Walks one expression, appending the edits and skipped rows it produces.
#[verifier::loop_isolation(false)]
#[verifier::rlimit(100)]
#[verifier::spinoff_prover]
pub(crate) fn walk_expr(
    e: &Expr,
    lines: &Vec<String>,
    threshold: LogLevel,
    changes: &mut Vec<Change>,
    skipped: &mut Vec<usize>,
) -> (r: Result<(), FormatCallError>)
    ensures
        r is Ok ==> (walk_expr_spec(*e, strings_view(lines@), threshold) matches Ok(p)
            && changes_view(final(changes)@) == changes_view(old(changes)@) + p.0 && skips_view(
            final(skipped)@,
        ) == skips_view(old(skipped)@) + p.1),
        r matches Err(er) ==> walk_expr_spec(*e, strings_view(lines@), threshold) == Err::<
            (Seq<SpecChange>, Seq<int>),
            FormatSpecError,
        >(fce_view(er)),
    decreases *e, 1int,
{
    let ghost c0 = changes_view(changes@);
    let ghost s0 = skips_view(skipped@);
    proof {
        assert(c0 + Seq::<SpecChange>::empty() =~= c0);
        assert(s0 + Seq::<int>::empty() =~= s0);
    }
    match &e.kind {
        ExprKind::BoolOp { values } => walk_expr_list(values, lines, threshold, changes, skipped),
        ExprKind::Name { id: _ } => Ok(()),
        ExprKind::Attribute { value, attr: _ } => walk_expr(
            &**value,
            lines,
            threshold,
            changes,
            skipped,
        ),
        ExprKind::Constant { value: _ } => Ok(()),
        ExprKind::Call { func, args, keywords } => walk_call_node(
            e,
            lines,
            threshold,
            changes,
            skipped,
        ),
        ExprKind::BinOp { left, op: _, right } => {
            match walk_expr(&**left, lines, threshold, changes, skipped) {
                Ok(_) => {},
                Err(er) => {
                    return Err(er);
                },
            }
            let ghost p1 = walk_expr_spec(**left, strings_view(lines@), threshold)->Ok_0;
            match walk_expr(&**right, lines, threshold, changes, skipped) {
                Ok(_) => {},
                Err(er) => {
                    return Err(er);
                },
            }
            let ghost p2 = walk_expr_spec(**right, strings_view(lines@), threshold)->Ok_0;
            proof {
                assert((c0 + p1.0) + p2.0 =~= c0 + (p1.0 + p2.0));
                assert((s0 + p1.1) + p2.1 =~= s0 + (p1.1 + p2.1));
            }
            Ok(())
        },
        ExprKind::Subscript { value, slice } => {
            match walk_expr(&**value, lines, threshold, changes, skipped) {
                Ok(_) => {},
                Err(er) => {
                    return Err(er);
                },
            }
            let ghost p1 = walk_expr_spec(**value, strings_view(lines@), threshold)->Ok_0;
            match walk_expr(&**slice, lines, threshold, changes, skipped) {
                Ok(_) => {},
                Err(er) => {
                    return Err(er);
                },
            }
            let ghost p2 = walk_expr_spec(**slice, strings_view(lines@), threshold)->Ok_0;
            proof {
                assert((c0 + p1.0) + p2.0 =~= c0 + (p1.0 + p2.0));
                assert((s0 + p1.1) + p2.1 =~= s0 + (p1.1 + p2.1));
            }
            Ok(())
        },
        ExprKind::ListComp { elt, generators } => {
            match walk_expr(&**elt, lines, threshold, changes, skipped) {
                Ok(_) => {},
                Err(er) => {
                    return Err(er);
                },
            }
            let ghost p1 = walk_expr_spec(**elt, strings_view(lines@), threshold)->Ok_0;
            match walk_comp_list(generators, lines, threshold, changes, skipped) {
                Ok(_) => {},
                Err(er) => {
                    return Err(er);
                },
            }
            let ghost p2 = walk_comp_list_spec(generators@, strings_view(lines@), threshold)->Ok_0;
            proof {
                assert((c0 + p1.0) + p2.0 =~= c0 + (p1.0 + p2.0));
                assert((s0 + p1.1) + p2.1 =~= s0 + (p1.1 + p2.1));
            }
            Ok(())
        },
        ExprKind::GeneratorExp { elt, generators } => {
            match walk_expr(&**elt, lines, threshold, changes, skipped) {
                Ok(_) => {},
                Err(er) => {
                    return Err(er);
                },
            }
            let ghost p1 = walk_expr_spec(**elt, strings_view(lines@), threshold)->Ok_0;
            match walk_comp_list(generators, lines, threshold, changes, skipped) {
                Ok(_) => {},
                Err(er) => {
                    return Err(er);
                },
            }
            let ghost p2 = walk_comp_list_spec(generators@, strings_view(lines@), threshold)->Ok_0;
            proof {
                assert((c0 + p1.0) + p2.0 =~= c0 + (p1.0 + p2.0));
                assert((s0 + p1.1) + p2.1 =~= s0 + (p1.1 + p2.1));
            }
            Ok(())
        },
        ExprKind::DictComp { key, value, generators } => {
            match walk_expr(&**key, lines, threshold, changes, skipped) {
                Ok(_) => {},
                Err(er) => {
                    return Err(er);
                },
            }
            let ghost p1 = walk_expr_spec(**key, strings_view(lines@), threshold)->Ok_0;
            match walk_expr(&**value, lines, threshold, changes, skipped) {
                Ok(_) => {},
                Err(er) => {
                    return Err(er);
                },
            }
            let ghost p2 = walk_expr_spec(**value, strings_view(lines@), threshold)->Ok_0;
            match walk_comp_list(generators, lines, threshold, changes, skipped) {
                Ok(_) => {},
                Err(er) => {
                    return Err(er);
                },
            }
            let ghost p3 = walk_comp_list_spec(generators@, strings_view(lines@), threshold)->Ok_0;
            proof {
                assert(((c0 + p1.0) + p2.0) + p3.0 =~= c0 + (p1.0 + p2.0 + p3.0));
                assert(((s0 + p1.1) + p2.1) + p3.1 =~= s0 + (p1.1 + p2.1 + p3.1));
            }
            Ok(())
        },
        ExprKind::JoinedStr { values } => walk_expr_list(values, lines, threshold, changes, skipped),
        ExprKind::FormattedValue { value } => walk_expr(&**value, lines, threshold, changes, skipped),
        ExprKind::Other { children } => walk_expr_list(children, lines, threshold, changes, skipped),
    }
}

/// Walks each expression in the list, appending what it produces.
#[verifier::loop_isolation(false)]
pub(crate) fn walk_expr_list(
    es: &Vec<Expr>,
    lines: &Vec<String>,
    threshold: LogLevel,
    changes: &mut Vec<Change>,
    skipped: &mut Vec<usize>,
) -> (r: Result<(), FormatCallError>)
    ensures
        r is Ok ==> (walk_list_spec(es@, strings_view(lines@), threshold) matches Ok(p)
            && changes_view(final(changes)@) == changes_view(old(changes)@) + p.0 && skips_view(
            final(skipped)@,
        ) == skips_view(old(skipped)@) + p.1),
        r matches Err(er) ==> walk_list_spec(es@, strings_view(lines@), threshold) == Err::<
            (Seq<SpecChange>, Seq<int>),
            FormatSpecError,
        >(fce_view(er)),
    decreases es@, 1int,
{
    let ghost target = walk_list_spec(es@, strings_view(lines@), threshold);
    let ghost c0 = changes_view(changes@);
    let ghost s0 = skips_view(skipped@);
    let ghost mut acc0: Seq<SpecChange> = Seq::empty();
    let ghost mut acc1: Seq<int> = Seq::empty();
    let mut i: usize = 0;
    proof {
        assert(es@.skip(0) =~= es@);
        let p = target->Ok_0;
        assert(acc0 + p.0 =~= p.0);
        assert(acc1 + p.1 =~= p.1);
        assert(c0 + acc0 =~= c0);
        assert(s0 + acc1 =~= s0);
    }
    while i < es.len()
        invariant
            i <= es@.len(),
            changes_view(changes@) == c0 + acc0,
            skips_view(skipped@) == s0 + acc1,
            target == match walk_list_spec(es@.skip(i as int), strings_view(lines@), threshold) {
                Err(e2) => Err::<(Seq<SpecChange>, Seq<int>), FormatSpecError>(e2),
                Ok(p) => Ok((acc0 + p.0, acc1 + p.1)),
            },
        decreases es@.len() - i,
    {
        proof {
            assert(es@.skip(i as int)[0] == es@[i as int]);
            assert(es@.skip(i as int).drop_first() =~= es@.skip(i + 1));
            assert(decreases_to!(es@ => es@[i as int]));
        }
        match walk_expr(&es[i], lines, threshold, changes, skipped) {
            Ok(_) => {},
            Err(er) => {
                return Err(er);
            },
        }
        proof {
            let p1 = walk_expr_spec(es@[i as int], strings_view(lines@), threshold)->Ok_0;
            let pr = walk_list_spec(es@.skip(i + 1), strings_view(lines@), threshold)->Ok_0;
            assert((c0 + acc0) + p1.0 =~= c0 + (acc0 + p1.0));
            assert((s0 + acc1) + p1.1 =~= s0 + (acc1 + p1.1));
            assert(acc0 + (p1.0 + pr.0) =~= (acc0 + p1.0) + pr.0);
            assert(acc1 + (p1.1 + pr.1) =~= (acc1 + p1.1) + pr.1);
            acc0 = acc0 + p1.0;
            acc1 = acc1 + p1.1;
        }
        i += 1;
    }
    proof {
        assert(es@.skip(es@.len() as int) =~= Seq::<Expr>::empty());
        let p = target->Ok_0;
        assert(acc0 + Seq::<SpecChange>::empty() =~= acc0);
        assert(acc1 + Seq::<int>::empty() =~= acc1);
    }
    Ok(())
}

/// Walks each keyword argument's value, appending what it produces.
#[verifier::loop_isolation(false)]
pub(crate) fn walk_kw_list(
    kws: &Vec<Keyword>,
    lines: &Vec<String>,
    threshold: LogLevel,
    changes: &mut Vec<Change>,
    skipped: &mut Vec<usize>,
) -> (r: Result<(), FormatCallError>)
    ensures
        r is Ok ==> (walk_kw_list_spec(kws@, strings_view(lines@), threshold) matches Ok(p)
            && changes_view(final(changes)@) == changes_view(old(changes)@) + p.0 && skips_view(
            final(skipped)@,
        ) == skips_view(old(skipped)@) + p.1),
        r matches Err(er) ==> walk_kw_list_spec(kws@, strings_view(lines@), threshold) == Err::<
            (Seq<SpecChange>, Seq<int>),
            FormatSpecError,
        >(fce_view(er)),
    decreases kws@, 1int,
{
    let ghost target = walk_kw_list_spec(kws@, strings_view(lines@), threshold);
    let ghost c0 = changes_view(changes@);
    let ghost s0 = skips_view(skipped@);
    let ghost mut acc0: Seq<SpecChange> = Seq::empty();
    let ghost mut acc1: Seq<int> = Seq::empty();
    let mut i: usize = 0;
    proof {
        assert(kws@.skip(0) =~= kws@);
        let p = target->Ok_0;
        assert(acc0 + p.0 =~= p.0);
        assert(acc1 + p.1 =~= p.1);
        assert(c0 + acc0 =~= c0);
        assert(s0 + acc1 =~= s0);
    }
    while i < kws.len()
        invariant
            i <= kws@.len(),
            changes_view(changes@) == c0 + acc0,
            skips_view(skipped@) == s0 + acc1,
            target == match walk_kw_list_spec(kws@.skip(i as int), strings_view(lines@), threshold) {
                Err(e2) => Err::<(Seq<SpecChange>, Seq<int>), FormatSpecError>(e2),
                Ok(p) => Ok((acc0 + p.0, acc1 + p.1)),
            },
        decreases kws@.len() - i,
    {
        proof {
            assert(kws@.skip(i as int)[0] == kws@[i as int]);
            assert(kws@.skip(i as int).drop_first() =~= kws@.skip(i + 1));
            assert(decreases_to!(kws@ => kws@[i as int]));
        }
        match walk_expr(&kws[i].value, lines, threshold, changes, skipped) {
            Ok(_) => {},
            Err(er) => {
                return Err(er);
            },
        }
        proof {
            let p1 = walk_expr_spec(kws@[i as int].value, strings_view(lines@), threshold)->Ok_0;
            let pr = walk_kw_list_spec(kws@.skip(i + 1), strings_view(lines@), threshold)->Ok_0;
            assert((c0 + acc0) + p1.0 =~= c0 + (acc0 + p1.0));
            assert((s0 + acc1) + p1.1 =~= s0 + (acc1 + p1.1));
            assert(acc0 + (p1.0 + pr.0) =~= (acc0 + p1.0) + pr.0);
            assert(acc1 + (p1.1 + pr.1) =~= (acc1 + p1.1) + pr.1);
            acc0 = acc0 + p1.0;
            acc1 = acc1 + p1.1;
        }
        i += 1;
    }
    proof {
        assert(kws@.skip(kws@.len() as int) =~= Seq::<Keyword>::empty());
        assert(acc0 + Seq::<SpecChange>::empty() =~= acc0);
        assert(acc1 + Seq::<int>::empty() =~= acc1);
    }
    Ok(())
}

/// Walks each comprehension clause's target and iterator, appending what
/// they produce.
#[verifier::loop_isolation(false)]
pub(crate) fn walk_comp_list(
    gens: &Vec<Comprehension>,
    lines: &Vec<String>,
    threshold: LogLevel,
    changes: &mut Vec<Change>,
    skipped: &mut Vec<usize>,
) -> (r: Result<(), FormatCallError>)
    ensures
        r is Ok ==> (walk_comp_list_spec(gens@, strings_view(lines@), threshold) matches Ok(p)
            && changes_view(final(changes)@) == changes_view(old(changes)@) + p.0 && skips_view(
            final(skipped)@,
        ) == skips_view(old(skipped)@) + p.1),
        r matches Err(er) ==> walk_comp_list_spec(gens@, strings_view(lines@), threshold) == Err::<
            (Seq<SpecChange>, Seq<int>),
            FormatSpecError,
        >(fce_view(er)),
    decreases gens@, 1int,
{
    let ghost target = walk_comp_list_spec(gens@, strings_view(lines@), threshold);
    let ghost c0 = changes_view(changes@);
    let ghost s0 = skips_view(skipped@);
    let ghost mut acc0: Seq<SpecChange> = Seq::empty();
    let ghost mut acc1: Seq<int> = Seq::empty();
    let mut i: usize = 0;
    proof {
        assert(gens@.skip(0) =~= gens@);
        let p = target->Ok_0;
        assert(acc0 + p.0 =~= p.0);
        assert(acc1 + p.1 =~= p.1);
        assert(c0 + acc0 =~= c0);
        assert(s0 + acc1 =~= s0);
    }
    while i < gens.len()
        invariant
            i <= gens@.len(),
            changes_view(changes@) == c0 + acc0,
            skips_view(skipped@) == s0 + acc1,
            target == match walk_comp_list_spec(
                gens@.skip(i as int),
                strings_view(lines@),
                threshold,
            ) {
                Err(e2) => Err::<(Seq<SpecChange>, Seq<int>), FormatSpecError>(e2),
                Ok(p) => Ok((acc0 + p.0, acc1 + p.1)),
            },
        decreases gens@.len() - i,
    {
        proof {
            assert(gens@.skip(i as int)[0] == gens@[i as int]);
            assert(gens@.skip(i as int).drop_first() =~= gens@.skip(i + 1));
            assert(decreases_to!(gens@ => gens@[i as int]));
        }
        match walk_expr(&gens[i].target, lines, threshold, changes, skipped) {
            Ok(_) => {},
            Err(er) => {
                return Err(er);
            },
        }
        let ghost p1 = walk_expr_spec(gens@[i as int].target, strings_view(lines@), threshold)->Ok_0;
        match walk_expr(&gens[i].iter, lines, threshold, changes, skipped) {
            Ok(_) => {},
            Err(er) => {
                return Err(er);
            },
        }
        proof {
            let p2 = walk_expr_spec(gens@[i as int].iter, strings_view(lines@), threshold)->Ok_0;
            let pr = walk_comp_list_spec(gens@.skip(i + 1), strings_view(lines@), threshold)->Ok_0;
            assert(((c0 + acc0) + p1.0) + p2.0 =~= c0 + ((acc0 + p1.0) + p2.0));
            assert(((s0 + acc1) + p1.1) + p2.1 =~= s0 + ((acc1 + p1.1) + p2.1));
            assert(acc0 + (p1.0 + p2.0 + pr.0) =~= ((acc0 + p1.0) + p2.0) + pr.0);
            assert(acc1 + (p1.1 + p2.1 + pr.1) =~= ((acc1 + p1.1) + p2.1) + pr.1);
            acc0 = (acc0 + p1.0) + p2.0;
            acc1 = (acc1 + p1.1) + p2.1;
        }
        i += 1;
    }
    proof {
        assert(gens@.skip(gens@.len() as int) =~= Seq::<Comprehension>::empty());
        assert(acc0 + Seq::<SpecChange>::empty() =~= acc0);
        assert(acc1 + Seq::<int>::empty() =~= acc1);
    }
    Ok(())
}

/// Walks one statement: its direct expressions, then its nested statements.
#[verifier::loop_isolation(false)]
pub(crate) fn walk_stmt(
    s: &Stmt,
    lines: &Vec<String>,
    threshold: LogLevel,
    changes: &mut Vec<Change>,
    skipped: &mut Vec<usize>,
) -> (r: Result<(), FormatCallError>)
    ensures
        r is Ok ==> (walk_stmt_spec(*s, strings_view(lines@), threshold) matches Ok(p)
            && changes_view(final(changes)@) == changes_view(old(changes)@) + p.0 && skips_view(
            final(skipped)@,
        ) == skips_view(old(skipped)@) + p.1),
        r matches Err(er) ==> walk_stmt_spec(*s, strings_view(lines@), threshold) == Err::<
            (Seq<SpecChange>, Seq<int>),
            FormatSpecError,
        >(fce_view(er)),
    decreases *s, 1int,
{
    let ghost c0 = changes_view(changes@);
    let ghost s0 = skips_view(skipped@);
    match walk_expr_list(&s.exprs, lines, threshold, changes, skipped) {
        Ok(_) => {},
        Err(er) => {
            return Err(er);
        },
    }
    let ghost p1 = walk_list_spec(s.exprs@, strings_view(lines@), threshold)->Ok_0;
    match walk_stmt_list(&s.body, lines, threshold, changes, skipped) {
        Ok(_) => {},
        Err(er) => {
            return Err(er);
        },
    }
    proof {
        let p2 = walk_stmt_list_spec(s.body@, strings_view(lines@), threshold)->Ok_0;
        assert((c0 + p1.0) + p2.0 =~= c0 + (p1.0 + p2.0));
        assert((s0 + p1.1) + p2.1 =~= s0 + (p1.1 + p2.1));
    }
    Ok(())
}

/// Walks a statement list in order, appending what it produces.
#[verifier::loop_isolation(false)]
pub(crate) fn walk_stmt_list(
    ss: &Vec<Stmt>,
    lines: &Vec<String>,
    threshold: LogLevel,
    changes: &mut Vec<Change>,
    skipped: &mut Vec<usize>,
) -> (r: Result<(), FormatCallError>)
    ensures
        r is Ok ==> (walk_stmt_list_spec(ss@, strings_view(lines@), threshold) matches Ok(p)
            && changes_view(final(changes)@) == changes_view(old(changes)@) + p.0 && skips_view(
            final(skipped)@,
        ) == skips_view(old(skipped)@) + p.1),
        r matches Err(er) ==> walk_stmt_list_spec(ss@, strings_view(lines@), threshold) == Err::<
            (Seq<SpecChange>, Seq<int>),
            FormatSpecError,
        >(fce_view(er)),
    decreases ss@, 1int,
{
    let ghost target = walk_stmt_list_spec(ss@, strings_view(lines@), threshold);
    let ghost c0 = changes_view(changes@);
    let ghost s0 = skips_view(skipped@);
    let ghost mut acc0: Seq<SpecChange> = Seq::empty();
    let ghost mut acc1: Seq<int> = Seq::empty();
    let mut i: usize = 0;
    proof {
        assert(ss@.skip(0) =~= ss@);
        let p = target->Ok_0;
        assert(acc0 + p.0 =~= p.0);
        assert(acc1 + p.1 =~= p.1);
        assert(c0 + acc0 =~= c0);
        assert(s0 + acc1 =~= s0);
    }
    while i < ss.len()
        invariant
            i <= ss@.len(),
            changes_view(changes@) == c0 + acc0,
            skips_view(skipped@) == s0 + acc1,
            target == match walk_stmt_list_spec(ss@.skip(i as int), strings_view(lines@), threshold) {
                Err(e2) => Err::<(Seq<SpecChange>, Seq<int>), FormatSpecError>(e2),
                Ok(p) => Ok((acc0 + p.0, acc1 + p.1)),
            },
        decreases ss@.len() - i,
    {
        proof {
            assert(ss@.skip(i as int)[0] == ss@[i as int]);
            assert(ss@.skip(i as int).drop_first() =~= ss@.skip(i + 1));
            assert(decreases_to!(ss@ => ss@[i as int]));
        }
        match walk_stmt(&ss[i], lines, threshold, changes, skipped) {
            Ok(_) => {},
            Err(er) => {
                return Err(er);
            },
        }
        proof {
            let p1 = walk_stmt_spec(ss@[i as int], strings_view(lines@), threshold)->Ok_0;
            let pr = walk_stmt_list_spec(ss@.skip(i + 1), strings_view(lines@), threshold)->Ok_0;
            assert((c0 + acc0) + p1.0 =~= c0 + (acc0 + p1.0));
            assert((s0 + acc1) + p1.1 =~= s0 + (acc1 + p1.1));
            assert(acc0 + (p1.0 + pr.0) =~= (acc0 + p1.0) + pr.0);
            assert(acc1 + (p1.1 + pr.1) =~= (acc1 + p1.1) + pr.1);
            acc0 = acc0 + p1.0;
            acc1 = acc1 + p1.1;
        }
        i += 1;
    }
    proof {
        assert(ss@.skip(ss@.len() as int) =~= Seq::<Stmt>::empty());
        assert(acc0 + Seq::<SpecChange>::empty() =~= acc0);
        assert(acc1 + Seq::<int>::empty() =~= acc1);
    }
    Ok(())
}

} // verus!

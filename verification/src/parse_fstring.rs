//! The format-value resolver and the f-string template builder.
//!
//! The resolver renders one expression that appeared inside an interpolation
//! point back to source text, normalized onto one line. The f-string builder
//! walks the values of an interpolated string, copying literal segments and
//! turning each interpolation slot into a `%s` placeholder plus one rendered
//! argument.

use vstd::prelude::*;

use crate::ast::Comprehension;
use crate::ast::Constant;
use crate::ast::Expr;
use crate::ast::ExprKind;
use crate::ast::Keyword;
use crate::ast::constant_str;
use crate::ast::constant_text;
use crate::ast::operator_text;
use crate::ast::operator_to_string;
use crate::parse_format::NamedArg;
use crate::parse_format::get_args_and_keywords;
use crate::text::concat_texts;
use crate::text::count2;
use crate::text::lemma_count2_concat;
use crate::text::join_texts;
use crate::text::join_with;
use crate::text::lemma_concat_texts_push;
use crate::text::strings_view;

verus! {

/// The recursion budget of the resolver; expressions nested deeper than this
/// are rejected rather than risking stack exhaustion.
pub const MAX_RESOLVE_DEPTH: usize = 128;

/// Why one interpolated value could not be rendered. Recoverable: the call
/// site it belongs to is skipped, the rest of the tree is still processed.
#[derive(Debug, Clone, Copy, PartialEq, Eq, Structural)]
pub enum ResolveError {
    /// An expression kind the resolver does not handle, at the given source
    /// row.
    Unsupported { row: usize },
    /// An interpolated string nested inside an interpolation point, at the
    /// given source row.
    NestedFString { row: usize },
    /// The expression is nested deeper than the recursion budget.
    TooDeep,
}

/// Appends a pending attribute chain (`a.b.c` suffix) to a rendered base.
pub open spec fn with_postfix(base: Seq<char>, postfix: Seq<char>) -> Seq<char> {
    if postfix.len() == 0 {
        base
    } else {
        base + "."@ + postfix
    }
}

/// The text of a constant in an interpolation point: string and bytes
/// literals are quoted when they stand inside a call's argument list, so the
/// rendered call round-trips as valid source.
pub open spec fn constant_value_text(c: Constant, in_call: bool, quote: char) -> Seq<char> {
    if in_call && (c is Str || c is Bytes) {
        seq![quote] + constant_text(c) + seq![quote]
    } else {
        constant_text(c)
    }
}

/// The rendered form `key=value` of one keyword argument.
pub open spec fn named_arg_texts(named: Seq<(Seq<char>, Seq<char>)>) -> Seq<Seq<char>> {
    named.map_values(|p: (Seq<char>, Seq<char>)| p.0 + "="@ + p.1)
}

/// The rendered source text of one expression inside an interpolation point,
/// or the reason it cannot be rendered.
///
/// `postfix` is the attribute chain still to be appended, `in_call` tells
/// whether the expression stands in a call's argument list, and `depth` is
/// the remaining recursion budget.
pub open spec fn resolve_value_spec(
    e: Expr,
    postfix: Seq<char>,
    in_call: bool,
    quote: char,
    depth: usize,
) -> Result<Seq<char>, ResolveError>
    decreases depth, 1int, 0int,
{
    if depth == 0 {
        Err(ResolveError::TooDeep)
    } else {
        match e.kind {
            ExprKind::Name { id } => Ok(with_postfix(id@, postfix)),
            ExprKind::Attribute { value, attr } => resolve_value_spec(
                *value,
                if postfix.len() == 0 {
                    attr@
                } else {
                    attr@ + "."@ + postfix
                },
                in_call,
                quote,
                (depth - 1) as usize,
            ),
            ExprKind::Constant { value } => Ok(
                with_postfix(constant_value_text(value, in_call, quote), postfix),
            ),
            ExprKind::Call { func, args, keywords } => match args_and_kwargs_spec(
                args@,
                keywords@,
                quote,
                (depth - 1) as usize,
            ) {
                Err(e2) => Err(e2),
                Ok((arg_texts, named)) => {
                    let joined = join_texts(arg_texts + named_arg_texts(named), ", "@);
                    match func.kind {
                        ExprKind::Name { id } => Ok(
                            with_postfix(id@ + "("@ + joined + ")"@, postfix),
                        ),
                        ExprKind::Attribute { value, attr } => match resolve_value_spec(
                            *value,
                            Seq::empty(),
                            true,
                            quote,
                            (depth - 1) as usize,
                        ) {
                            Err(e2) => Err(e2),
                            Ok(rt) => Ok(
                                with_postfix(rt + "."@ + attr@ + "("@ + joined + ")"@, postfix),
                            ),
                        },
                        _ => Err(ResolveError::Unsupported { row: func.lineno }),
                    }
                },
            },
            ExprKind::BinOp { left, op, right } => match resolve_value_spec(
                *left,
                Seq::empty(),
                in_call,
                quote,
                (depth - 1) as usize,
            ) {
                Err(e2) => Err(e2),
                Ok(lt) => match resolve_value_spec(
                    *right,
                    Seq::empty(),
                    in_call,
                    quote,
                    (depth - 1) as usize,
                ) {
                    Err(e2) => Err(e2),
                    Ok(rt) => Ok(
                        with_postfix(lt + " "@ + operator_text(op) + " "@ + rt, postfix),
                    ),
                },
            },
            ExprKind::Subscript { value, slice } => match resolve_value_spec(
                *value,
                Seq::empty(),
                in_call,
                quote,
                (depth - 1) as usize,
            ) {
                Err(e2) => Err(e2),
                Ok(vt) => match resolve_value_spec(
                    *slice,
                    Seq::empty(),
                    false,
                    quote,
                    (depth - 1) as usize,
                ) {
                    Err(e2) => Err(e2),
                    Ok(st) => Ok(
                        with_postfix(
                            vt + "["@ + seq![quote] + st + seq![quote] + "]"@,
                            postfix,
                        ),
                    ),
                },
            },
            ExprKind::ListComp { elt, generators } => bracket_comp_spec(
                *elt,
                generators@,
                postfix,
                quote,
                depth,
            ),
            ExprKind::GeneratorExp { elt, generators } => bracket_comp_spec(
                *elt,
                generators@,
                postfix,
                quote,
                depth,
            ),
            ExprKind::DictComp { key, value, generators } => match resolve_value_spec(
                *key,
                Seq::empty(),
                true,
                quote,
                (depth - 1) as usize,
            ) {
                Err(e2) => Err(e2),
                Ok(kt) => match resolve_value_spec(
                    *value,
                    Seq::empty(),
                    true,
                    quote,
                    (depth - 1) as usize,
                ) {
                    Err(e2) => Err(e2),
                    Ok(vt) => match comp_clauses_spec(generators@, quote, depth) {
                        Err(e2) => Err(e2),
                        Ok(clauses) => Ok(
                            with_postfix(
                                "{"@ + kt + ": "@ + vt + concat_texts(clauses) + "}"@,
                                postfix,
                            ),
                        ),
                    },
                },
            },
            ExprKind::JoinedStr { values } => Err(ResolveError::NestedFString { row: e.lineno }),
            _ => Err(ResolveError::Unsupported { row: e.lineno }),
        }
    }
}

/// A list or generator comprehension rendered in list-comprehension bracket
/// syntax.
pub open spec fn bracket_comp_spec(
    elt: Expr,
    gens: Seq<Comprehension>,
    postfix: Seq<char>,
    quote: char,
    depth: usize,
) -> Result<Seq<char>, ResolveError>
    decreases depth, 0int, gens.len() + 1,
{
    if depth == 0 {
        Err(ResolveError::TooDeep)
    } else {
        match resolve_value_spec(elt, Seq::empty(), true, quote, (depth - 1) as usize) {
            Err(e2) => Err(e2),
            Ok(et) => match comp_clauses_spec(gens, quote, depth) {
                Err(e2) => Err(e2),
                Ok(clauses) => Ok(with_postfix("["@ + et + concat_texts(clauses) + "]"@, postfix)),
            },
        }
    }
}

/// The rendered `for <target> in <iter>` clauses of a comprehension, one text
/// per clause.
pub open spec fn comp_clauses_spec(
    gens: Seq<Comprehension>,
    quote: char,
    depth: usize,
) -> Result<Seq<Seq<char>>, ResolveError>
    decreases depth, 0int, gens.len(),
{
    if depth == 0 {
        Err(ResolveError::TooDeep)
    } else if gens.len() == 0 {
        Ok(Seq::empty())
    } else {
        match resolve_value_spec(gens[0].target, Seq::empty(), true, quote, (depth - 1) as usize) {
            Err(e2) => Err(e2),
            Ok(tt) => match resolve_value_spec(
                gens[0].iter,
                Seq::empty(),
                true,
                quote,
                (depth - 1) as usize,
            ) {
                Err(e2) => Err(e2),
                Ok(it) => match comp_clauses_spec(gens.drop_first(), quote, depth) {
                    Err(e2) => Err(e2),
                    Ok(rest) => Ok(seq![" for "@ + tt + " in "@ + it] + rest),
                },
            },
        }
    }
}

/// The rendered texts of the remaining positional arguments of a call.
pub open spec fn args_fold_spec(args: Seq<Expr>, quote: char, depth: usize) -> Result<
    Seq<Seq<char>>,
    ResolveError,
>
    decreases depth, 0int, args.len(),
{
    if depth == 0 {
        Err(ResolveError::TooDeep)
    } else if args.len() == 0 {
        Ok(Seq::empty())
    } else {
        match resolve_value_spec(args[0], Seq::empty(), true, quote, (depth - 1) as usize) {
            Err(e2) => Err(e2),
            Ok(t) => match args_fold_spec(args.drop_first(), quote, depth) {
                Err(e2) => Err(e2),
                Ok(rest) => Ok(seq![t] + rest),
            },
        }
    }
}

/// The contribution of the remaining keyword arguments of a call: the texts
/// of nameless (`**`) keywords, and the key/text pairs of named ones.
pub open spec fn kwargs_fold_spec(keywords: Seq<Keyword>, quote: char, depth: usize) -> Result<
    (Seq<Seq<char>>, Seq<(Seq<char>, Seq<char>)>),
    ResolveError,
>
    decreases depth, 0int, keywords.len(),
{
    if depth == 0 {
        Err(ResolveError::TooDeep)
    } else if keywords.len() == 0 {
        Ok((Seq::empty(), Seq::empty()))
    } else {
        match resolve_value_spec(
            keywords[0].value,
            Seq::empty(),
            true,
            quote,
            (depth - 1) as usize,
        ) {
            Err(e2) => Err(e2),
            Ok(t) => match kwargs_fold_spec(keywords.drop_first(), quote, depth) {
                Err(e2) => Err(e2),
                Ok((extra, named)) => match keywords[0].arg {
                    Some(k) => Ok((extra, seq![(k@, t)] + named)),
                    None => Ok((seq![t] + extra, named)),
                },
            },
        }
    }
}

/// The resolved positional argument texts and named-argument pairs of a call:
/// nameless keyword values come first among the positional texts, as the
/// collection pass encounters them first.
pub open spec fn args_and_kwargs_spec(
    args: Seq<Expr>,
    keywords: Seq<Keyword>,
    quote: char,
    depth: usize,
) -> Result<(Seq<Seq<char>>, Seq<(Seq<char>, Seq<char>)>), ResolveError>
    decreases depth, 0int, args.len() + keywords.len() + 1,
{
    if depth == 0 {
        Err(ResolveError::TooDeep)
    } else {
        match kwargs_fold_spec(keywords, quote, depth) {
            Err(e2) => Err(e2),
            Ok((extra, named)) => match args_fold_spec(args, quote, depth) {
                Err(e2) => Err(e2),
                Ok(arg_texts) => Ok((extra + arg_texts, named)),
            },
        }
    }
}

/// Applies a pending attribute chain to a rendered base.
fn apply_postfix(base: String, postfix: String) -> (r: String)
    ensures
        r@ == with_postfix(base@, postfix@),
{
    if postfix.as_str().is_empty() {
        base
    } else {
        let mut out = base;
        out.append(".");
        out.append(postfix.as_str());
        out
    }
}

/// Renders the `for ... in ...` clauses of a comprehension.
#[verifier::loop_isolation(false)]
fn render_comp_clauses(gens: &Vec<Comprehension>, quote: char, depth: usize) -> (r: Result<
    String,
    ResolveError,
>)
    ensures
        match r {
            Ok(s) => comp_clauses_spec(gens@, quote, depth) matches Ok(clauses) && s@
                == concat_texts(clauses),
            Err(e) => comp_clauses_spec(gens@, quote, depth) == Err::<
                Seq<Seq<char>>,
                ResolveError,
            >(e),
        },
    decreases depth, 0int, 0int,
{
    if depth == 0 {
        return Err(ResolveError::TooDeep);
    }
    let mut out = String::new();
    let ghost target = comp_clauses_spec(gens@, quote, depth);
    let ghost mut pre: Seq<Seq<char>> = Seq::empty();
    let mut i: usize = 0;
    proof {
        assert(gens@.skip(0) =~= gens@);
        assert(out@ =~= concat_texts(pre));
        let r0 = comp_clauses_spec(gens@, quote, depth)->Ok_0;
        assert(pre + r0 =~= r0);
    }
    while i < gens.len()
        invariant
            i <= gens@.len(),
            out@ == concat_texts(pre),
            target == match comp_clauses_spec(gens@.skip(i as int), quote, depth) {
                Err(e2) => Err::<Seq<Seq<char>>, ResolveError>(e2),
                Ok(rest) => Ok(pre + rest),
            },
        decreases gens@.len() - i,
    {
        proof {
            assert(gens@.skip(i as int)[0] == gens@[i as int]);
            assert(gens@.skip(i as int).drop_first() =~= gens@.skip(i + 1));
        }
        let tt = match parse_formatted_value(&gens[i].target, String::new(), true, quote, depth - 1)
        {
            Ok(t) => t,
            Err(e2) => {
                return Err(e2);
            },
        };
        let it = match parse_formatted_value(&gens[i].iter, String::new(), true, quote, depth - 1) {
            Ok(t) => t,
            Err(e2) => {
                return Err(e2);
            },
        };
        out.append(" for ");
        out.append(tt.as_str());
        out.append(" in ");
        out.append(it.as_str());
        proof {
            let clause = " for "@ + tt@ + " in "@ + it@;
            assert(out@ =~= concat_texts(pre) + clause);
            lemma_concat_texts_push(pre, clause);
            let rest2 = comp_clauses_spec(gens@.skip(i + 1), quote, depth)->Ok_0;
            assert(pre + (seq![clause] + rest2) =~= pre.push(clause) + rest2);
            pre = pre.push(clause);
        }
        i += 1;
    }
    proof {
        assert(gens@.skip(gens@.len() as int) =~= Seq::<Comprehension>::empty());
        assert(comp_clauses_spec(Seq::<Comprehension>::empty(), quote, depth) == Ok::<
            Seq<Seq<char>>,
            ResolveError,
        >(Seq::empty()));
        assert(pre + Seq::<Seq<char>>::empty() =~= pre);
    }
    Ok(out)
}

/// Renders a list or generator comprehension in bracket syntax.
fn render_bracket_comp(
    elt: &Expr,
    gens: &Vec<Comprehension>,
    postfix: String,
    quote: char,
    depth: usize,
) -> (r: Result<String, ResolveError>)
    ensures
        match r {
            Ok(s) => bracket_comp_spec(*elt, gens@, postfix@, quote, depth) == Ok::<
                Seq<char>,
                ResolveError,
            >(s@),
            Err(e) => bracket_comp_spec(*elt, gens@, postfix@, quote, depth) == Err::<
                Seq<char>,
                ResolveError,
            >(e),
        },
    decreases depth, 0int, 1int,
{
    if depth == 0 {
        return Err(ResolveError::TooDeep);
    }
    let et = match parse_formatted_value(elt, String::new(), true, quote, depth - 1) {
        Ok(t) => t,
        Err(e2) => {
            return Err(e2);
        },
    };
    let ct = match render_comp_clauses(gens, quote, depth) {
        Ok(t) => t,
        Err(e2) => {
            return Err(e2);
        },
    };
    let mut o = "[".to_owned();
    o.append(et.as_str());
    o.append(ct.as_str());
    o.append("]");
    proof {
        let clauses = comp_clauses_spec(gens@, quote, depth)->Ok_0;
        assert(o@ =~= "["@ + et@ + concat_texts(clauses) + "]"@);
    }
    Ok(apply_postfix(o, postfix))
}

/// Renders one expression from an interpolation point back to source text.
///
/// `postfix` is the attribute chain still to be appended after the rendered
/// base, `in_call` tells whether the result stands in a call's argument list
/// (string and bytes literals are then quoted), and `depth` is the remaining
/// recursion budget.
#[verifier::loop_isolation(false)]
pub fn parse_formatted_value(
    value: &Expr,
    postfix: String,
    in_call: bool,
    quote: char,
    depth: usize,
) -> (r: Result<String, ResolveError>)
    ensures
        match r {
            Ok(s) => resolve_value_spec(*value, postfix@, in_call, quote, depth) == Ok::<
                Seq<char>,
                ResolveError,
            >(s@),
            Err(e) => resolve_value_spec(*value, postfix@, in_call, quote, depth) == Err::<
                Seq<char>,
                ResolveError,
            >(e),
        },
    decreases depth, 1int, 0int,
{
    if depth == 0 {
        return Err(ResolveError::TooDeep);
    }
    match &value.kind {
        ExprKind::Name { id } => Ok(apply_postfix(id.clone(), postfix)),
        ExprKind::Attribute { value: inner, attr } => {
            let new_postfix = if postfix.as_str().is_empty() {
                attr.clone()
            } else {
                let mut np = attr.clone();
                np.append(".");
                np.append(postfix.as_str());
                np
            };
            parse_formatted_value(&**inner, new_postfix, in_call, quote, depth - 1)
        },
        ExprKind::Constant { value: c } => {
            let text = constant_str(c);
            let base = if in_call && (matches!(c, Constant::Str(_)) || matches!(
                c,
                Constant::Bytes(_),
            )) {
                let mut o = String::new();
                o.push(quote);
                o.append(text.as_str());
                o.push(quote);
                proof {
                    assert(o@ =~= seq![quote] + text@ + seq![quote]);
                }
                o
            } else {
                text
            };
            Ok(apply_postfix(base, postfix))
        },
        ExprKind::Call { func, args, keywords } => {
            match get_args_and_keywords(args, keywords, quote, depth - 1) {
                Err(e2) => Err(e2),
                Ok((f_args, f_named)) => {
                    let ghost av = strings_view(f_args@);
                    let ghost nv = f_named@.map_values(|na: NamedArg| (na.key@, na.value@));
                    let mut parts = f_args;
                    let mut i: usize = 0;
                    proof {
                        assert(named_arg_texts(nv.take(0)) =~= Seq::<Seq<char>>::empty());
                        assert(av + Seq::<Seq<char>>::empty() =~= av);
                    }
                    while i < f_named.len()
                        invariant
                            i <= f_named@.len(),
                            nv == f_named@.map_values(|na: NamedArg| (na.key@, na.value@)),
                            strings_view(parts@) == av + named_arg_texts(nv.take(i as int)),
                        decreases f_named@.len() - i,
                    {
                        let mut part = f_named[i].key.clone();
                        part.append("=");
                        part.append(f_named[i].value.as_str());
                        parts.push(part);
                        proof {
                            assert(part@ =~= nv[i as int].0 + "="@ + nv[i as int].1);
                            assert(nv.take(i + 1) =~= nv.take(i as int).push(nv[i as int]));
                            assert(named_arg_texts(nv.take(i + 1)) =~= named_arg_texts(
                                nv.take(i as int),
                            ).push(nv[i as int].0 + "="@ + nv[i as int].1));
                            assert(strings_view(parts@) =~= (av + named_arg_texts(
                                nv.take(i as int),
                            )).push(part@));
                            assert((av + named_arg_texts(nv.take(i as int))).push(part@) =~= av
                                + named_arg_texts(nv.take(i as int)).push(part@));
                        }
                        i += 1;
                    }
                    proof {
                        assert(nv.take(nv.len() as int) =~= nv);
                    }
                    let joined = join_with(&parts, ", ");
                    match &func.kind {
                        ExprKind::Name { id } => {
                            let mut o = id.clone();
                            o.append("(");
                            o.append(joined.as_str());
                            o.append(")");
                            Ok(apply_postfix(o, postfix))
                        },
                        ExprKind::Attribute { value: recv, attr } => {
                            match parse_formatted_value(
                                &**recv,
                                String::new(),
                                true,
                                quote,
                                depth - 1,
                            ) {
                                Err(e2) => Err(e2),
                                Ok(rt) => {
                                    let mut o = rt;
                                    o.append(".");
                                    o.append(attr.as_str());
                                    o.append("(");
                                    o.append(joined.as_str());
                                    o.append(")");
                                    Ok(apply_postfix(o, postfix))
                                },
                            }
                        },
                        _ => Err(ResolveError::Unsupported { row: func.lineno }),
                    }
                },
            }
        },
        ExprKind::BinOp { left, op, right } => {
            let lt = match parse_formatted_value(&**left, String::new(), in_call, quote, depth - 1)
            {
                Ok(t) => t,
                Err(e2) => {
                    return Err(e2);
                },
            };
            let rt = match parse_formatted_value(&**right, String::new(), in_call, quote, depth - 1)
            {
                Ok(t) => t,
                Err(e2) => {
                    return Err(e2);
                },
            };
            let op_s = operator_to_string(op);
            let mut o = lt;
            o.append(" ");
            o.append(op_s.as_str());
            o.append(" ");
            o.append(rt.as_str());
            Ok(apply_postfix(o, postfix))
        },
        ExprKind::Subscript { value: inner, slice } => {
            let vt = match parse_formatted_value(&**inner, String::new(), in_call, quote, depth - 1)
            {
                Ok(t) => t,
                Err(e2) => {
                    return Err(e2);
                },
            };
            let st = match parse_formatted_value(&**slice, String::new(), false, quote, depth - 1) {
                Ok(t) => t,
                Err(e2) => {
                    return Err(e2);
                },
            };
            let mut o = vt;
            o.append("[");
            o.push(quote);
            o.append(st.as_str());
            o.push(quote);
            o.append("]");
            proof {
                assert(o@ =~= vt@ + "["@ + seq![quote] + st@ + seq![quote] + "]"@);
            }
            Ok(apply_postfix(o, postfix))
        },
        ExprKind::ListComp { elt, generators } => render_bracket_comp(
            &**elt,
            generators,
            postfix,
            quote,
            depth,
        ),
        ExprKind::GeneratorExp { elt, generators } => render_bracket_comp(
            &**elt,
            generators,
            postfix,
            quote,
            depth,
        ),
        ExprKind::DictComp { key, value: dvalue, generators } => {
            let kt = match parse_formatted_value(&**key, String::new(), true, quote, depth - 1) {
                Ok(t) => t,
                Err(e2) => {
                    return Err(e2);
                },
            };
            let vt = match parse_formatted_value(&**dvalue, String::new(), true, quote, depth - 1) {
                Ok(t) => t,
                Err(e2) => {
                    return Err(e2);
                },
            };
            let ct = match render_comp_clauses(generators, quote, depth) {
                Ok(t) => t,
                Err(e2) => {
                    return Err(e2);
                },
            };
            let mut o = "{".to_owned();
            o.append(kt.as_str());
            o.append(": ");
            o.append(vt.as_str());
            o.append(ct.as_str());
            o.append("}");
            proof {
                let clauses = comp_clauses_spec(generators@, quote, depth)->Ok_0;
                assert(o@ =~= "{"@ + kt@ + ": "@ + vt@ + concat_texts(clauses) + "}"@);
            }
            Ok(apply_postfix(o, postfix))
        },
        ExprKind::JoinedStr { values: _ } => Err(
            ResolveError::NestedFString { row: value.lineno },
        ),
        _ => Err(ResolveError::Unsupported { row: value.lineno }),
    }
}

/// The template segment and arguments one value of an interpolated string
/// contributes: literal text is copied, an interpolation slot becomes `%s`
/// plus one rendered argument.
pub open spec fn fstring_value_spec(v: Expr, quote: char) -> Result<
    (Seq<char>, Seq<Seq<char>>),
    ResolveError,
> {
    match v.kind {
        ExprKind::Constant { value } => Ok((constant_text(value), Seq::empty())),
        ExprKind::FormattedValue { value } => match resolve_value_spec(
            *value,
            Seq::empty(),
            false,
            quote,
            MAX_RESOLVE_DEPTH,
        ) {
            Err(e2) => Err(e2),
            Ok(t) => Ok(("%s"@, seq![t])),
        },
        _ => Err(ResolveError::Unsupported { row: v.lineno }),
    }
}

/// The template and ordered argument texts built from the values of one or
/// more interpolated strings, in a single left-to-right pass.
pub open spec fn fstring_values_spec(values: Seq<Expr>, quote: char) -> Result<
    (Seq<char>, Seq<Seq<char>>),
    ResolveError,
>
    decreases values.len(),
{
    if values.len() == 0 {
        Ok((Seq::empty(), Seq::empty()))
    } else {
        match fstring_value_spec(values[0], quote) {
            Err(e2) => Err(e2),
            Ok((t, a)) => match fstring_values_spec(values.drop_first(), quote) {
                Err(e2) => Err(e2),
                Ok((rt, ra)) => Ok((t + rt, a + ra)),
            },
        }
    }
}

/// Processes one value of an interpolated string, extending the template and
/// the argument list.
fn parse_fstring(value: &Expr, string: &mut String, args: &mut Vec<String>, quote: char) -> (r:
    Result<(), ResolveError>)
    ensures
        r is Ok ==> (fstring_value_spec(*value, quote) matches Ok(p) && final(string)@ == old(
            string,
        )@ + p.0 && strings_view(final(args)@) == strings_view(old(args)@) + p.1),
        r matches Err(e) ==> fstring_value_spec(*value, quote) == Err::<
            (Seq<char>, Seq<Seq<char>>),
            ResolveError,
        >(e),
{
    match &value.kind {
        ExprKind::Constant { value: c } => {
            let t = constant_str(c);
            string.append(t.as_str());
            proof {
                assert(strings_view(args@) + Seq::<Seq<char>>::empty() =~= strings_view(args@));
            }
            Ok(())
        },
        ExprKind::FormattedValue { value: inner } => {
            match parse_formatted_value(&**inner, String::new(), false, quote, MAX_RESOLVE_DEPTH) {
                Err(e2) => Err(e2),
                Ok(t) => {
                    string.append("%s");
                    args.push(t);
                    proof {
                        assert(strings_view(args@) =~= strings_view(old(args)@) + seq![t@]);
                    }
                    Ok(())
                },
            }
        },
        _ => Err(ResolveError::Unsupported { row: value.lineno }),
    }
}

/// Builds the template and argument list of an f-string call, or reports why
/// a value could not be rendered.
#[verifier::loop_isolation(false)]
pub(crate) fn fstring_values(values: &Vec<Expr>, quote: char) -> (r: Result<
    (String, Vec<String>),
    ResolveError,
>)
    ensures
        match r {
            Ok(p) => fstring_values_spec(values@, quote) == Ok::<
                (Seq<char>, Seq<Seq<char>>),
                ResolveError,
            >((p.0@, strings_view(p.1@))),
            Err(e) => fstring_values_spec(values@, quote) == Err::<
                (Seq<char>, Seq<Seq<char>>),
                ResolveError,
            >(e),
        },
{
    let mut string = String::new();
    let mut args: Vec<String> = Vec::new();
    let ghost target = fstring_values_spec(values@, quote);
    let mut i: usize = 0;
    proof {
        assert(values@.skip(0) =~= values@);
        let p0 = fstring_values_spec(values@, quote)->Ok_0;
        assert(string@ + p0.0 =~= p0.0);
        assert(strings_view(args@) + p0.1 =~= p0.1);
    }
    while i < values.len()
        invariant
            i <= values@.len(),
            target == match fstring_values_spec(values@.skip(i as int), quote) {
                Err(e2) => Err::<(Seq<char>, Seq<Seq<char>>), ResolveError>(e2),
                Ok(p) => Ok((string@ + p.0, strings_view(args@) + p.1)),
            },
        decreases values@.len() - i,
    {
        proof {
            assert(values@.skip(i as int)[0] == values@[i as int]);
            assert(values@.skip(i as int).drop_first() =~= values@.skip(i + 1));
        }
        let ghost old_string = string@;
        let ghost old_args = strings_view(args@);
        match parse_fstring(&values[i], &mut string, &mut args, quote) {
            Ok(_) => {},
            Err(e2) => {
                return Err(e2);
            },
        }
        proof {
            let p0 = fstring_value_spec(values@[i as int], quote)->Ok_0;
            let p1 = fstring_values_spec(values@.skip(i + 1), quote)->Ok_0;
            assert((old_string + p0.0) + p1.0 =~= old_string + (p0.0 + p1.0));
            assert((old_args + p0.1) + p1.1 =~= old_args + (p0.1 + p1.1));
        }
        i += 1;
    }
    proof {
        assert(values@.skip(values@.len() as int) =~= Seq::<Expr>::empty());
        assert(string@ + Seq::<char>::empty() =~= string@);
        assert(strings_view(args@) + Seq::<Seq<char>>::empty() =~= strings_view(args@));
    }
    Ok((string, args))
}

/// A literal whose rendered text holds no `%s` of its own and does not end
/// with a bare `%`; placeholder counting stays exact across such segments.
pub open spec fn clean_literal(c: Constant) -> bool {
    count2(constant_text(c), '%', 's') == 0 && (constant_text(c).len() > 0 ==> constant_text(
        c,
    ).last() != '%')
}

/// Every literal segment among the values of an interpolated string is
/// clean.
pub open spec fn values_clean(values: Seq<Expr>) -> bool {
    forall|i: int|
        0 <= i < values.len() ==> ((#[trigger] values[i].kind) matches ExprKind::Constant {
            value,
        } ==> clean_literal(value))
}

/// Placeholder-count law for the f-string builder: when the literal segments
/// of the interpolated string contain no `%s` of their own and none of them
/// ends with a bare `%`, the number of `%s` occurrences in the produced
/// template equals the number of produced arguments.
pub proof fn lemma_fstring_placeholder_count(values: Seq<Expr>, quote: char)
    requires
        values_clean(values),
        fstring_values_spec(values, quote) is Ok,
    ensures
        count2(fstring_values_spec(values, quote)->Ok_0.0, '%', 's') == fstring_values_spec(
            values,
            quote,
        )->Ok_0.1.len(),
        fstring_values_spec(values, quote)->Ok_0.0.len() > 0 ==> fstring_values_spec(
            values,
            quote,
        )->Ok_0.0.last() != '%',
    decreases values.len(),
{
    reveal_strlit("%s");
    assert("%s"@.len() == 2);
    assert("%s"@[0] == '%');
    assert("%s"@[1] == 's');
    assert("%s"@.drop_first() =~= seq!['s']);
    assert(count2("%s"@, '%', 's') == 1 + count2(seq!['s'], '%', 's'));
    assert(count2("%s"@, '%', 's') == 1);
    if values.len() > 0 {
        let p0 = fstring_value_spec(values[0], quote)->Ok_0;
        let rest = fstring_values_spec(values.drop_first(), quote)->Ok_0;
        assert(forall|i: int|
            0 <= i < values.drop_first().len() ==> values.drop_first()[i] == values[i + 1]);
        lemma_fstring_placeholder_count(values.drop_first(), quote);
        lemma_count2_concat(p0.0, rest.0, '%', 's');
        match values[0].kind {
            ExprKind::Constant { value } => {
                assert(count2(p0.0, '%', 's') == 0);
                assert(p0.0.len() > 0 ==> p0.0.last() != '%');
                assert(p0.1.len() == 0);
            },
            ExprKind::FormattedValue { value } => {
                assert(p0.0 == "%s"@);
                assert(p0.0.last() == 's');
                assert(p0.1.len() == 1);
            },
            _ => {
                assert(false);
            },
        }
        assert(p0.0.len() > 0 ==> p0.0.last() != '%');
        let whole = fstring_values_spec(values, quote)->Ok_0;
        assert(whole.0 == p0.0 + rest.0);
        assert(whole.1 == p0.1 + rest.1);
        if whole.0.len() > 0 {
            if rest.0.len() > 0 {
                assert(whole.0.last() == rest.0.last());
            } else {
                assert(whole.0 =~= p0.0);
            }
        }
    }
}

/// Builds the template and argument list of an f-string call; `None` when a
/// value could not be rendered and the call site must be skipped.
pub fn fix_fstring(values: &Vec<Expr>, quote: char) -> (r: Option<(String, Vec<String>)>)
    ensures
        match fstring_values_spec(values@, quote) {
            Ok(p) => r matches Some(q) && q.0@ == p.0 && strings_view(q.1@) == p.1,
            Err(_) => r is None,
        },
{
    match fstring_values(values, quote) {
        Ok(p) => Some(p),
        Err(_) => None,
    }
}

} // verus!

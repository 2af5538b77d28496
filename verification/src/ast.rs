//! The syntax-tree model the rewriter works on.
//!
//! Nodes carry their source span: rows are 1-indexed, columns are 0-indexed
//! character offsets, and end positions are exclusive on the column axis.
//! Numeric literals are carried in their decimal textual form, and bytes
//! literals in their (lossily) decoded textual form, so every value here is a
//! plain value.

use vstd::prelude::*;

use crate::text::join_texts;
use crate::text::join_with;

verus! {

/// A Python constant literal.
pub enum Constant {
    /// The `None` literal.
    NoneValue,
    Bool(bool),
    Str(String),
    /// A bytes literal, already decoded to text.
    Bytes(String),
    /// An integer literal, in decimal textual form.
    Int(String),
    /// A float literal, in decimal textual form.
    Float(String),
    Ellipsis,
    /// A complex literal; `imag_nonneg` tells whether a `+` sign must be
    /// printed between the parts (a negative imaginary part brings its own
    /// sign in its textual form).
    Complex { real_part: String, imag_part: String, imag_nonneg: bool },
    Tuple(Vec<Constant>),
}

/// A Python binary operator.
pub enum Operator {
    Add,
    Sub,
    Mult,
    MatMult,
    Div,
    Mod,
    Pow,
    LShift,
    RShift,
    BitOr,
    BitXor,
    BitAnd,
    FloorDiv,
}

/// One keyword argument of a call; `arg` is `None` for a `**kwargs` spread.
pub struct Keyword {
    pub arg: Option<String>,
    pub value: Expr,
}

/// One `for <target> in <iter>` clause of a comprehension.
pub struct Comprehension {
    pub target: Expr,
    pub iter: Expr,
}

/// The shape of an expression node. Kinds the rewriter does not interpret are
/// folded into `Other`, which keeps the child expressions so that traversal
/// still reaches every call in the tree.
pub enum ExprKind {
    BoolOp { values: Vec<Expr> },
    Name { id: String },
    Attribute { value: Box<Expr>, attr: String },
    Constant { value: Constant },
    Call { func: Box<Expr>, args: Vec<Expr>, keywords: Vec<Keyword> },
    BinOp { left: Box<Expr>, op: Operator, right: Box<Expr> },
    Subscript { value: Box<Expr>, slice: Box<Expr> },
    ListComp { elt: Box<Expr>, generators: Vec<Comprehension> },
    GeneratorExp { elt: Box<Expr>, generators: Vec<Comprehension> },
    DictComp { key: Box<Expr>, value: Box<Expr>, generators: Vec<Comprehension> },
    JoinedStr { values: Vec<Expr> },
    FormattedValue { value: Box<Expr> },
    Other { children: Vec<Expr> },
}

/// An expression node together with its source span.
pub struct Expr {
    pub lineno: usize,
    pub col_offset: usize,
    pub end_lineno: usize,
    pub end_col_offset: usize,
    pub kind: ExprKind,
}

/// A statement: the rewriter only needs the expressions a statement holds
/// directly and the statements nested under it.
pub struct Stmt {
    pub exprs: Vec<Expr>,
    pub body: Vec<Stmt>,
}

/// The textual form of a constant.
pub open spec fn constant_text(c: Constant) -> Seq<char>
    decreases c,
{
    match c {
        Constant::NoneValue => "None"@,
        Constant::Bool(b) => if b {
            "True"@
        } else {
            "False"@
        },
        Constant::Str(s) => s@,
        Constant::Bytes(s) => "b\""@ + s@ + "\""@,
        Constant::Int(s) => s@,
        Constant::Float(s) => s@,
        Constant::Ellipsis => "..."@,
        Constant::Complex { real_part, imag_part, imag_nonneg } => if imag_nonneg {
            real_part@ + "+"@ + imag_part@ + "j"@
        } else {
            real_part@ + imag_part@ + "j"@
        },
        Constant::Tuple(items) => "("@ + join_texts(tuple_texts(items@), ", "@) + ")"@,
    }
}

/// The textual forms of the items of a tuple constant.
pub open spec fn tuple_texts(items: Seq<Constant>) -> Seq<Seq<char>>
    decreases items,
{
    if items.len() == 0 {
        Seq::empty()
    } else {
        seq![constant_text(items[0])] + tuple_texts(items.drop_first())
    }
}

/// Tuple item texts grow one item at a time from the right.
pub proof fn lemma_tuple_texts_push(items: Seq<Constant>, x: Constant)
    ensures
        tuple_texts(items.push(x)) == tuple_texts(items).push(constant_text(x)),
    decreases items.len(),
{
    if items.len() == 0 {
        assert(items.push(x) =~= seq![x]);
        assert(seq![x].drop_first() =~= Seq::<Constant>::empty());
        assert(seq![x][0] == x);
        assert(tuple_texts(Seq::<Constant>::empty()) == Seq::<Seq<char>>::empty());
        assert(tuple_texts(seq![x]) == seq![constant_text(x)] + Seq::<Seq<char>>::empty());
        assert(seq![constant_text(x)] + Seq::<Seq<char>>::empty() =~= seq![constant_text(x)]);
        assert(tuple_texts(items).push(constant_text(x)) =~= seq![constant_text(x)]);
    } else {
        assert(items.push(x).drop_first() =~= items.drop_first().push(x));
        assert(items.push(x)[0] == items[0]);
        lemma_tuple_texts_push(items.drop_first(), x);
        assert(seq![constant_text(items[0])] + tuple_texts(items.drop_first()).push(
            constant_text(x),
        ) =~= (seq![constant_text(items[0])] + tuple_texts(items.drop_first())).push(
            constant_text(x),
        ));
    }
}

#[verifier::loop_isolation(false)]
pub(crate) fn constant_str(c: &Constant) -> (r: String)
    ensures
        r@ == constant_text(*c),
    decreases *c,
{
    match c {
        Constant::NoneValue => "None".to_owned(),
        Constant::Bool(b) => if *b {
            "True".to_owned()
        } else {
            "False".to_owned()
        },
        Constant::Str(s) => s.clone(),
        Constant::Bytes(s) => {
            let mut out = "b\"".to_owned();
            out.append(s.as_str());
            out.append("\"");
            out
        },
        Constant::Int(s) => s.clone(),
        Constant::Float(s) => s.clone(),
        Constant::Ellipsis => "...".to_owned(),
        Constant::Complex { real_part, imag_part, imag_nonneg } => {
            let mut out = real_part.clone();
            if *imag_nonneg {
                out.append("+");
            }
            out.append(imag_part.as_str());
            out.append("j");
            out
        },
        Constant::Tuple(items) => {
            let mut texts: Vec<String> = Vec::new();
            let mut i: usize = 0;
            while i < items.len()
                invariant
                    i <= items@.len(),
                    texts@.map_values(|s: String| s@) == tuple_texts(items@.take(i as int)),
                decreases items@.len() - i,
            {
                proof {
                    assert(*c == Constant::Tuple(*items));
                    assert(decreases_to!(*c => *items));
                    assert(decreases_to!(*items => items@));
                    assert(decreases_to!(items@ => items@[i as int]));
                    assert(decreases_to!(*c => items@[i as int]));
                }
                let t = constant_str(&items[i]);
                texts.push(t);
                proof {
                    lemma_tuple_texts_push(items@.take(i as int), items@[i as int]);
                    assert(items@.take(i + 1 as int) =~= items@.take(i as int).push(
                        items@[i as int],
                    ));
                    assert(texts@.map_values(|s: String| s@) =~= tuple_texts(
                        items@.take(i as int),
                    ).push(t@));
                }
                i += 1;
            }
            proof {
                assert(items@.take(items@.len() as int) =~= items@);
            }
            let mut out = "(".to_owned();
            out.append(join_with(&texts, ", ").as_str());
            out.append(")");
            out
        },
    }
}

/// Renders a constant to source text: `None`, `True`/`False`, numbers in
/// decimal form, bytes as `b"..."`, tuples parenthesized and comma-joined.
pub fn constant_to_string(constant: Constant) -> (r: String)
    ensures
        r@ == constant_text(constant),
{
    constant_str(&constant)
}

/// The source symbol of a binary operator.
pub open spec fn operator_text(op: Operator) -> Seq<char> {
    match op {
        Operator::Add => "+"@,
        Operator::Sub => "-"@,
        Operator::Mult => "*"@,
        Operator::MatMult => "@"@,
        Operator::Div => "/"@,
        Operator::Mod => "%"@,
        Operator::Pow => "**"@,
        Operator::LShift => "<<"@,
        Operator::RShift => ">>"@,
        Operator::BitOr => "|"@,
        Operator::BitXor => "^"@,
        Operator::BitAnd => "&"@,
        Operator::FloorDiv => "//"@,
    }
}

/// Renders a binary operator to its source symbol.
pub fn operator_to_string(operator: &Operator) -> (r: String)
    ensures
        r@ == operator_text(*operator),
{
    match operator {
        Operator::Add => "+".to_owned(),
        Operator::Sub => "-".to_owned(),
        Operator::Mult => "*".to_owned(),
        Operator::MatMult => "@".to_owned(),
        Operator::Div => "/".to_owned(),
        Operator::Mod => "%".to_owned(),
        Operator::Pow => "**".to_owned(),
        Operator::LShift => "<<".to_owned(),
        Operator::RShift => ">>".to_owned(),
        Operator::BitOr => "|".to_owned(),
        Operator::BitXor => "^".to_owned(),
        Operator::BitAnd => "&".to_owned(),
        Operator::FloorDiv => "//".to_owned(),
    }
}

} // verus!

//! End-to-end tests: Python source is parsed with rustpython-parser, the
//! tree is converted into the library's model, and the rewrite pipeline is
//! run against expected outputs.

use printf_log_formatter::ast::Comprehension;
use printf_log_formatter::ast::Constant;
use printf_log_formatter::ast::Expr;
use printf_log_formatter::ast::ExprKind;
use printf_log_formatter::ast::Keyword;
use printf_log_formatter::ast::Operator;
use printf_log_formatter::ast::Stmt;
use printf_log_formatter::ast::constant_to_string;
use printf_log_formatter::ast::operator_to_string;
use printf_log_formatter::cli::LogLevel;
use printf_log_formatter::cli::get_char;
use printf_log_formatter::cli::get_quotes;
use printf_log_formatter::enums::Quotes;
use printf_log_formatter::fix_file::Change;
use printf_log_formatter::fix_file::change_content;
use printf_log_formatter::fix_file::get_changes;
use printf_log_formatter::parse_format::FormatCallError;
use printf_log_formatter::parse_fstring::fix_fstring;
use printf_log_formatter::parse_fstring::parse_formatted_value;
use printf_log_formatter::text::join_with;
use printf_log_formatter::text::split_lines;
use printf_log_formatter::text::str_eq;
use printf_log_formatter::utils::construct_f_string_regex;
use printf_log_formatter::utils::replace_last_char_with_str;

use rustpython_parser::ast::Ranged;
use rustpython_parser::ast as py;
use rustpython_parser::parse_program;

// ---------------------------------------------------------------------------
// Conversion from the parser's tree to the library's model.
// ---------------------------------------------------------------------------

struct Positions {
    line_starts: Vec<usize>,
    source: String,
}

impl Positions {
    fn new(source: &str) -> Positions {
        let mut line_starts = vec![0usize];
        for (i, b) in source.bytes().enumerate() {
            if b == b'\n' {
                line_starts.push(i + 1);
            }
        }
        Positions { line_starts, source: source.to_string() }
    }

    /// Byte offset -> (1-based row, 0-based character column).
    fn pos(&self, off: usize) -> (usize, usize) {
        let mut row = 0usize;
        for (i, s) in self.line_starts.iter().enumerate() {
            if *s <= off {
                row = i;
            } else {
                break;
            }
        }
        let col = self.source[self.line_starts[row]..off].chars().count();
        (row + 1, col)
    }
}

fn conv_const(c: &py::Constant) -> Constant {
    match c {
        py::Constant::None => Constant::NoneValue,
        py::Constant::Bool(b) => Constant::Bool(*b),
        py::Constant::Str(s) => Constant::Str(s.clone()),
        py::Constant::Bytes(b) => Constant::Bytes(String::from_utf8_lossy(b).into_owned()),
        py::Constant::Int(i) => Constant::Int(i.to_string()),
        py::Constant::Float(f) => Constant::Float(f.to_string()),
        py::Constant::Complex { real, imag } => Constant::Complex {
            real_part: real.to_string(),
            imag_part: imag.to_string(),
            imag_nonneg: *imag >= 0.0,
        },
        py::Constant::Ellipsis => Constant::Ellipsis,
        py::Constant::Tuple(items) => Constant::Tuple(items.iter().map(conv_const).collect()),
    }
}

fn conv_op(op: &py::Operator) -> Operator {
    match op {
        py::Operator::Add => Operator::Add,
        py::Operator::Sub => Operator::Sub,
        py::Operator::Mult => Operator::Mult,
        py::Operator::MatMult => Operator::MatMult,
        py::Operator::Div => Operator::Div,
        py::Operator::Mod => Operator::Mod,
        py::Operator::Pow => Operator::Pow,
        py::Operator::LShift => Operator::LShift,
        py::Operator::RShift => Operator::RShift,
        py::Operator::BitOr => Operator::BitOr,
        py::Operator::BitXor => Operator::BitXor,
        py::Operator::BitAnd => Operator::BitAnd,
        py::Operator::FloorDiv => Operator::FloorDiv,
    }
}

fn mk_expr(p: &Positions, range: rustpython_parser::text_size::TextRange, kind: ExprKind) -> Expr {
    let (lineno, col_offset) = p.pos(range.start().to_usize());
    let (end_lineno, end_col_offset) = p.pos(range.end().to_usize());
    Expr { lineno, col_offset, end_lineno, end_col_offset, kind }
}

fn conv_comp(p: &Positions, g: &py::Comprehension) -> Comprehension {
    Comprehension { target: conv_expr(p, &g.target), iter: conv_expr(p, &g.iter) }
}

fn conv_exprs(p: &Positions, es: &[py::Expr]) -> Vec<Expr> {
    es.iter().map(|e| conv_expr(p, e)).collect()
}

fn conv_opt(p: &Positions, e: &Option<Box<py::Expr>>, out: &mut Vec<Expr>) {
    if let Some(e) = e {
        out.push(conv_expr(p, e));
    }
}

fn conv_expr(p: &Positions, e: &py::Expr) -> Expr {
    let range = e.range();
    let kind = match e {
        py::Expr::BoolOp(x) => ExprKind::BoolOp { values: conv_exprs(p, &x.values) },
        py::Expr::BinOp(x) => ExprKind::BinOp {
            left: Box::new(conv_expr(p, &x.left)),
            op: conv_op(&x.op),
            right: Box::new(conv_expr(p, &x.right)),
        },
        py::Expr::Call(x) => ExprKind::Call {
            func: Box::new(conv_expr(p, &x.func)),
            args: conv_exprs(p, &x.args),
            keywords: x
                .keywords
                .iter()
                .map(|k| Keyword {
                    arg: k.arg.as_ref().map(|a| a.to_string()),
                    value: conv_expr(p, &k.value),
                })
                .collect(),
        },
        py::Expr::Attribute(x) => ExprKind::Attribute {
            value: Box::new(conv_expr(p, &x.value)),
            attr: x.attr.to_string(),
        },
        py::Expr::Name(x) => ExprKind::Name { id: x.id.to_string() },
        py::Expr::Constant(x) => ExprKind::Constant { value: conv_const(&x.value) },
        py::Expr::Subscript(x) => ExprKind::Subscript {
            value: Box::new(conv_expr(p, &x.value)),
            slice: Box::new(conv_expr(p, &x.slice)),
        },
        py::Expr::ListComp(x) => ExprKind::ListComp {
            elt: Box::new(conv_expr(p, &x.elt)),
            generators: x.generators.iter().map(|g| conv_comp(p, g)).collect(),
        },
        py::Expr::GeneratorExp(x) => ExprKind::GeneratorExp {
            elt: Box::new(conv_expr(p, &x.elt)),
            generators: x.generators.iter().map(|g| conv_comp(p, g)).collect(),
        },
        py::Expr::DictComp(x) => ExprKind::DictComp {
            key: Box::new(conv_expr(p, &x.key)),
            value: Box::new(conv_expr(p, &x.value)),
            generators: x.generators.iter().map(|g| conv_comp(p, g)).collect(),
        },
        py::Expr::JoinedStr(x) => ExprKind::JoinedStr { values: conv_exprs(p, &x.values) },
        py::Expr::FormattedValue(x) => ExprKind::FormattedValue {
            value: Box::new(conv_expr(p, &x.value)),
        },
        py::Expr::NamedExpr(x) => ExprKind::Other {
            children: vec![conv_expr(p, &x.target), conv_expr(p, &x.value)],
        },
        py::Expr::UnaryOp(x) => ExprKind::Other { children: vec![conv_expr(p, &x.operand)] },
        py::Expr::Lambda(x) => ExprKind::Other { children: vec![conv_expr(p, &x.body)] },
        py::Expr::IfExp(x) => ExprKind::Other {
            children: vec![conv_expr(p, &x.test), conv_expr(p, &x.body), conv_expr(p, &x.orelse)],
        },
        py::Expr::Dict(x) => {
            let mut children = Vec::new();
            for k in x.keys.iter().flatten() {
                children.push(conv_expr(p, k));
            }
            for v in &x.values {
                children.push(conv_expr(p, v));
            }
            ExprKind::Other { children }
        },
        py::Expr::Set(x) => ExprKind::Other { children: conv_exprs(p, &x.elts) },
        py::Expr::SetComp(x) => {
            let mut children = vec![conv_expr(p, &x.elt)];
            for g in &x.generators {
                children.push(conv_expr(p, &g.target));
                children.push(conv_expr(p, &g.iter));
            }
            ExprKind::Other { children }
        },
        py::Expr::Await(x) => ExprKind::Other { children: vec![conv_expr(p, &x.value)] },
        py::Expr::Yield(x) => {
            let mut children = Vec::new();
            conv_opt(p, &x.value, &mut children);
            ExprKind::Other { children }
        },
        py::Expr::YieldFrom(x) => ExprKind::Other { children: vec![conv_expr(p, &x.value)] },
        py::Expr::Compare(x) => {
            let mut children = vec![conv_expr(p, &x.left)];
            for c in &x.comparators {
                children.push(conv_expr(p, c));
            }
            ExprKind::Other { children }
        },
        py::Expr::Starred(x) => ExprKind::Other { children: vec![conv_expr(p, &x.value)] },
        py::Expr::List(x) => ExprKind::Other { children: conv_exprs(p, &x.elts) },
        py::Expr::Tuple(x) => ExprKind::Other { children: conv_exprs(p, &x.elts) },
        py::Expr::Slice(x) => {
            let mut children = Vec::new();
            conv_opt(p, &x.lower, &mut children);
            conv_opt(p, &x.upper, &mut children);
            conv_opt(p, &x.step, &mut children);
            ExprKind::Other { children }
        },
    };
    mk_expr(p, range, kind)
}

fn conv_stmts(p: &Positions, ss: &[py::Stmt]) -> Vec<Stmt> {
    ss.iter().map(|s| conv_stmt(p, s)).collect()
}

fn conv_stmt(p: &Positions, s: &py::Stmt) -> Stmt {
    let mut exprs: Vec<Expr> = Vec::new();
    let mut body: Vec<Stmt> = Vec::new();
    match s {
        py::Stmt::Expr(x) => exprs.push(conv_expr(p, &x.value)),
        py::Stmt::Assign(x) => {
            for t in &x.targets {
                exprs.push(conv_expr(p, t));
            }
            exprs.push(conv_expr(p, &x.value));
        },
        py::Stmt::AugAssign(x) => {
            exprs.push(conv_expr(p, &x.target));
            exprs.push(conv_expr(p, &x.value));
        },
        py::Stmt::AnnAssign(x) => {
            exprs.push(conv_expr(p, &x.target));
            exprs.push(conv_expr(p, &x.annotation));
            if let Some(v) = &x.value {
                exprs.push(conv_expr(p, v));
            }
        },
        py::Stmt::Return(x) => {
            if let Some(v) = &x.value {
                exprs.push(conv_expr(p, v));
            }
        },
        py::Stmt::Delete(x) => {
            for t in &x.targets {
                exprs.push(conv_expr(p, t));
            }
        },
        py::Stmt::If(x) => {
            exprs.push(conv_expr(p, &x.test));
            body.extend(conv_stmts(p, &x.body));
            body.extend(conv_stmts(p, &x.orelse));
        },
        py::Stmt::While(x) => {
            exprs.push(conv_expr(p, &x.test));
            body.extend(conv_stmts(p, &x.body));
            body.extend(conv_stmts(p, &x.orelse));
        },
        py::Stmt::For(x) => {
            exprs.push(conv_expr(p, &x.target));
            exprs.push(conv_expr(p, &x.iter));
            body.extend(conv_stmts(p, &x.body));
            body.extend(conv_stmts(p, &x.orelse));
        },
        py::Stmt::AsyncFor(x) => {
            exprs.push(conv_expr(p, &x.target));
            exprs.push(conv_expr(p, &x.iter));
            body.extend(conv_stmts(p, &x.body));
            body.extend(conv_stmts(p, &x.orelse));
        },
        py::Stmt::With(x) => {
            for item in &x.items {
                exprs.push(conv_expr(p, &item.context_expr));
            }
            body.extend(conv_stmts(p, &x.body));
        },
        py::Stmt::AsyncWith(x) => {
            for item in &x.items {
                exprs.push(conv_expr(p, &item.context_expr));
            }
            body.extend(conv_stmts(p, &x.body));
        },
        py::Stmt::FunctionDef(x) => {
            for d in &x.decorator_list {
                exprs.push(conv_expr(p, d));
            }
            body.extend(conv_stmts(p, &x.body));
        },
        py::Stmt::AsyncFunctionDef(x) => {
            for d in &x.decorator_list {
                exprs.push(conv_expr(p, d));
            }
            body.extend(conv_stmts(p, &x.body));
        },
        py::Stmt::ClassDef(x) => {
            for b in &x.bases {
                exprs.push(conv_expr(p, b));
            }
            for d in &x.decorator_list {
                exprs.push(conv_expr(p, d));
            }
            body.extend(conv_stmts(p, &x.body));
        },
        py::Stmt::Try(x) => {
            body.extend(conv_stmts(p, &x.body));
            for h in &x.handlers {
                let py::ExceptHandler::ExceptHandler(h) = h;
                if let Some(t) = &h.type_ {
                    exprs.push(conv_expr(p, t));
                }
                body.extend(conv_stmts(p, &h.body));
            }
            body.extend(conv_stmts(p, &x.orelse));
            body.extend(conv_stmts(p, &x.finalbody));
        },
        py::Stmt::Raise(x) => {
            if let Some(e) = &x.exc {
                exprs.push(conv_expr(p, e));
            }
            if let Some(c) = &x.cause {
                exprs.push(conv_expr(p, c));
            }
        },
        py::Stmt::Assert(x) => {
            exprs.push(conv_expr(p, &x.test));
            if let Some(m) = &x.msg {
                exprs.push(conv_expr(p, m));
            }
        },
        _ => {},
    }
    Stmt { exprs, body }
}

fn parse_to_model(source: &str) -> Vec<Stmt> {
    let p = Positions::new(source);
    let program = parse_program(source, "test.py").expect("parse failed");
    conv_stmts(&p, &program)
}

// ---------------------------------------------------------------------------
// Pipeline helpers.
// ---------------------------------------------------------------------------

fn pipeline(source: &str, level: LogLevel) -> (Vec<String>, bool) {
    let program = parse_to_model(source);
    let (changes, _skipped) = get_changes(&program, source, level).expect("fatal rewrite error");
    change_content(source, &changes)
}

fn changes_of(source: &str, level: LogLevel) -> Vec<Change> {
    let program = parse_to_model(source);
    let (changes, _skipped) = get_changes(&program, source, level).expect("fatal rewrite error");
    changes
}

fn run(input: &str, expected: &str) {
    let (lines, _changed) = pipeline(input, LogLevel::Error);
    assert_eq!(lines.join("\n"), expected, "input: {input:?}");
}

// ---------------------------------------------------------------------------
// The `.format()` rewrite cases.
// ---------------------------------------------------------------------------

#[test]
fn test_change_content_format() {
    // Simple
    run("logger.error('{}'.format(1))", "logger.error('%s', 1)");
    // With formatting
    run("logger.error('{:02f}'.format(1))", "logger.error('%s', 1)");
    // Named variable
    run("logger.error('{foo}'.format(foo=1))", "logger.error('%s', 1)");
    // With formatting
    run("logger.error('{foo:02f}'.format(foo=1))", "logger.error('%s', 1)");
    // Weird ordering
    run(
        "logger.error('{x} + {} == {y}'.format(3, y=4, x=1))",
        "logger.error('%s + %s == %s', 1, 3, 4)",
    );
    // Packed single line
    run(
        "logger.error('{}'.format(1)) or 1 + 1 == 3",
        "logger.error('%s', 1) or 1 + 1 == 3",
    );
    // Variable
    run("foo=1\nlogger.error('{}'.format(foo))", "foo=1\nlogger.error('%s', foo)");
    run("foo=1\nlogger.error('{foo}'.format(foo=foo))", "foo=1\nlogger.error('%s', foo)");
    // Multi-line
    run(
        "logger.error(\n\t'{}'.format(\n\t\t1\n\t)\n)",
        "logger.error(\n\t'%s', 1\n)",
    );
    // Contained by class
    run(
        "class Foo:\n\tdef bar(self):\n\t\tlogger.error('{}'.format(1))\n",
        "class Foo:\n\tdef bar(self):\n\t\tlogger.error('%s', 1)\n",
    );
    // Nested properties
    run("logger.error('{}'.format(a.b.c.d))", "logger.error('%s', a.b.c.d)");
    // Call in string
    run("logger.error('foo {}'.format(len(bar)))", "logger.error('foo %s', len(bar))");
    // Binary operation
    run("logger.error('{}'.format(foo + 1))", "logger.error('%s', foo + 1)");
    // Newline character
    run("logger.error('{}\\n{}'.format(foo, bar))", "logger.error('%s\n%s', foo, bar)");
    // Call
    run(
        "logging.error('Error parsing event file: {}'.format(e.errors()))",
        "logging.error('Error parsing event file: %s', e.errors())",
    );
    // Index
    run("logger.error('{}'.format(ret[\"id\"]))", "logger.error('%s', ret['id'])");
}

// ---------------------------------------------------------------------------
// The f-string rewrite cases.
// ---------------------------------------------------------------------------

#[test]
fn test_change_content_fstring() {
    // Simple
    run("logger.error(f'{1}')", "logger.error('%s', 1)");
    // With formatting
    run("logger.error(f'{1:02f}')", "logger.error('%s', 1)");
    // Variable
    run("logger.error(f'{foo}')", "logger.error('%s', foo)");
    // Packed single line
    run("logger.error(f'{1}') or 1 + 1 == 3", "logger.error('%s', 1) or 1 + 1 == 3");
    // Log level below default - expect no change
    run("logger.debug(f'{1}')", "logger.debug(f'{1}')");
    run("logger.info(f'{1}')", "logger.info(f'{1}')");
    run("logger.warning(f'{1}')", "logger.warning(f'{1}')");
    run("logger.warn(f'{1}')", "logger.warn(f'{1}')");
    // Nested properties
    run("logger.error(f'{a.b.c.d}')", "logger.error('%s', a.b.c.d)");
    // Call in string
    run("logger.error(f'foo {len(bar)}')", "logger.error('foo %s', len(bar))");
    // Binary operation
    run("logger.error(f'{foo + 1}')", "logger.error('%s', foo + 1)");
    // Newline character
    run("logger.error(f'{foo}\\n{bar}')", "logger.error('%s\n%s', foo, bar)");
    // Multi-line
    run(
        "logger.error(\n\tf'foo {bar} '\n\tf'baz %s',\n\te,\n\texc_info=True\n)",
        "logger.error(\n\t'foo %s baz %s', bar,\n\te,\n\texc_info=True\n)",
    );
    // Call inside f-string
    run(
        "logging.error(f'Error parsing event file: {e.errors()}')",
        "logging.error('Error parsing event file: %s', e.errors())",
    );
    // Index inside f-string
    run("logger.error(f'{ret[\"id\"]}')", "logger.error('%s', ret['id'])");
    // List comprehension
    run(
        "logger.error(f'{[str(e) for errors in all_errors for e in errors]}')",
        "logger.error('%s', [str(e) for errors in all_errors for e in errors])",
    );
    // Dict comprehension
    run(
        "logger.error(f'{ {\"foo\": str(e) for errors in all_errors for e in errors} }')",
        "logger.error('%s', {'foo': str(e) for errors in all_errors for e in errors})",
    );
    // Call containing list comprehension
    run(
        "logger.error(f'{\", \".join([str(e) for e in errors for errors in all_errors])}')",
        "logger.error('%s', ', '.join([str(e) for e in errors for errors in all_errors]))",
    );
    // Generator
    run(
        "logger.exception(f'{\", \".join(b for b in bs)}')",
        "logger.exception('%s', ', '.join([b for b in bs]))",
    );
    // Named args in calls
    run(
        "logger.error(f'{something(1, x=2, y=4)}')",
        "logger.error('%s', something(1, x=2, y=4))",
    );
}

// ---------------------------------------------------------------------------
// Excess-argument failure.
// ---------------------------------------------------------------------------

#[test]
fn test_change_content_format_with_too_many_arguments_panics() {
    let source = "logger.error('{}'.format(1,2))";
    let program = parse_to_model(source);
    let result = get_changes(&program, source, LogLevel::Error);
    match result {
        Err(FormatCallError::ExcessArgument { arg }) => assert_eq!(arg, "2"),
        other => panic!("expected an excess-argument error, got {other:?}"),
    }
}

// ---------------------------------------------------------------------------
// Regressions.
// ---------------------------------------------------------------------------

#[test]
fn test_for_regressions() {
    // Normal f-string -- expect no change
    run("f'{1}'", "f'{1}'");
    // Leading argument is not string -- expect no change
    run(
        "messages.error(self.request, '{}'.format(foo))",
        "messages.error(self.request, '{}'.format(foo))",
    );
    // Line trim
    run(
        "logger.error(\n\tf'{1}'\n\tf'{2}',\n\texc_info=True\n)",
        "logger.error(\n\t'%s%s', 1, 2,\n\texc_info=True\n)",
    );
    run("logger.exception(f'foo {bar}')", "logger.exception('foo %s', bar)");
    run("warnings.error(f'{1}')", "warnings.error(f'{1}')");
    // Quotes are set correctly
    run(
        "logger.error(f\"{1}\")\nlogger.error(f'{2}')",
        "logger.error(\"%s\", 1)\nlogger.error('%s', 2)",
    );
}

// ---------------------------------------------------------------------------
// Idempotence: feeding a rewrite's output back in produces no further change.
// ---------------------------------------------------------------------------

#[test]
fn test_rewrite_is_idempotent() {
    let inputs = vec![
        "logger.error('{}'.format(1))",
        "logger.error('{x} + {} == {y}'.format(3, y=4, x=1))",
        "logger.error(f'{a.b.c.d}')",
        "logger.error(\n\t'{}'.format(\n\t\t1\n\t)\n)",
        "logger.error(\n\tf'foo {bar} '\n\tf'baz %s',\n\te,\n\texc_info=True\n)",
        "logger.error(f'{ret[\"id\"]}')",
    ];
    for input in inputs {
        let (lines, first_changed) = pipeline(input, LogLevel::Error);
        assert!(first_changed);
        let once = lines.join("\n");
        let program = parse_to_model(&once);
        let (changes, _skipped) =
            get_changes(&program, &once, LogLevel::Error).expect("fatal rewrite error");
        let (lines2, changed_again) = change_content(&once, &changes);
        assert!(!changed_again, "second rewrite changed {once:?}");
        assert_eq!(lines2.join("\n"), once);
    }
}

// ---------------------------------------------------------------------------
// Severity threshold and block list.
// ---------------------------------------------------------------------------

#[test]
fn test_threshold_error_leaves_debug_call_unchanged() {
    run("logger.debug(f'{1}')", "logger.debug(f'{1}')");
    let changes = changes_of("logger.debug(f'{1}')", LogLevel::Error);
    assert!(changes.is_empty());
}

#[test]
fn test_threshold_debug_rewrites_debug_call() {
    let (lines, changed) = pipeline("logger.debug(f'{1}')", LogLevel::Debug);
    assert!(changed);
    assert_eq!(lines.join("\n"), "logger.debug('%s', 1)");
}

#[test]
fn test_blocklisted_receiver_unchanged() {
    run(
        "messages.error(self.request, '{}'.format(foo))",
        "messages.error(self.request, '{}'.format(foo))",
    );
    let changes = changes_of("messages.error(self.request, '{}'.format(foo))", LogLevel::Error);
    assert!(changes.is_empty());
}

#[test]
fn test_end_to_end_error_format_call() {
    run("logger.error('{}'.format(1))", "logger.error('%s', 1)");
}

#[test]
fn test_end_to_end_nested_attribute_chain() {
    run("logger.error(f'{a.b.c.d}')", "logger.error('%s', a.b.c.d)");
}

// ---------------------------------------------------------------------------
// Template/argument laws on concrete values.
// ---------------------------------------------------------------------------

#[test]
fn test_keyword_repetition_law() {
    let changes = changes_of("logger.error('{x} + {x}'.format(x=5))", LogLevel::Error);
    assert_eq!(changes.len(), 1);
    assert_eq!(changes[0].new_string_content, "%s + %s");
    assert_eq!(changes[0].new_string_variables, vec!["5".to_string(), "5".to_string()]);
}

#[test]
fn test_ordering_law() {
    let changes = changes_of("logger.error('{x} + {} == {y}'.format(3, y=4, x=1))", LogLevel::Error);
    assert_eq!(changes.len(), 1);
    assert_eq!(changes[0].new_string_content, "%s + %s == %s");
    assert_eq!(
        changes[0].new_string_variables,
        vec!["1".to_string(), "3".to_string(), "4".to_string()],
    );
}

#[test]
fn test_placeholder_count_matches_arguments() {
    let sources = vec![
        "logger.error(f'foo {a} bar {b}')",
        "logger.error('{} and {x}'.format(1, x=2))",
        "logger.error(f'{a}{b}{c}')",
    ];
    for source in sources {
        for change in changes_of(source, LogLevel::Error) {
            let count = change.new_string_content.matches("%s").count();
            assert_eq!(count, change.new_string_variables.len(), "source: {source:?}");
        }
    }
}

#[test]
fn test_too_few_arguments_is_an_error() {
    let source = "logger.error('{} {}'.format(1))";
    let program = parse_to_model(source);
    let result = get_changes(&program, source, LogLevel::Error);
    assert!(matches!(result, Err(FormatCallError::UnfilledPlaceholder)), "got {result:?}");
}

#[test]
fn test_unsupported_value_skips_call_site() {
    // a lambda inside the interpolation point cannot be rendered
    let source = "logger.error(f'{(lambda: 1)}')";
    let program = parse_to_model(source);
    let (changes, skipped) = get_changes(&program, source, LogLevel::Error).unwrap();
    assert!(changes.is_empty());
    assert_eq!(skipped, vec![1usize]);
    let (lines, changed) = change_content(source, &changes);
    assert!(!changed);
    assert_eq!(lines.join("\n"), source);
}

#[test]
fn test_nested_fstring_skips_call_site() {
    let source = "logger.error(f'{f\"{1}\"}')";
    let program = parse_to_model(source);
    let (changes, skipped) = get_changes(&program, source, LogLevel::Error).unwrap();
    assert!(changes.is_empty());
    assert_eq!(skipped, vec![1usize]);
}

// ---------------------------------------------------------------------------
// Multi-line splice law, directly against the splice engine.
// ---------------------------------------------------------------------------

#[test]
fn test_multiline_splice_collapses_rows_and_keeps_comma() {
    // The call spans rows 2-5; the literal (the spliced span) starts at row 2
    // column 8 and ends on row 4, which ends with a trailing comma; row 5
    // holds the closing parenthesis.
    let content = "x = (\n    y + '{} {}'.format(\n        1,\n        2),\n)";
    let change = Change {
        lineno: 2,
        col_offset: 8,
        end_lineno: 4,
        end_col_offset: 10,
        new_string_content: "%s %s".to_string(),
        new_string_variables: vec!["1".to_string(), "2".to_string()],
        quote: '\'',
    };
    let (lines, changed) = change_content(content, &vec![change]);
    assert!(changed);
    assert_eq!(
        lines,
        vec![
            "x = (".to_string(),
            "    y + '%s %s', 1, 2,".to_string(),
            ")".to_string(),
        ],
    );
}

#[test]
fn test_single_line_splice_replaces_column_range() {
    let content = "abcdefgh";
    let change = Change {
        lineno: 1,
        col_offset: 2,
        end_lineno: 1,
        end_col_offset: 5,
        new_string_content: "T".to_string(),
        new_string_variables: vec![],
        quote: '"',
    };
    let (lines, changed) = change_content(content, &vec![change]);
    assert!(changed);
    assert_eq!(lines, vec!["ab\"T\"fgh".to_string()]);
}

#[test]
fn test_change_without_arguments_emits_template_alone() {
    let content = "abc";
    let change = Change {
        lineno: 1,
        col_offset: 0,
        end_lineno: 1,
        end_col_offset: 3,
        new_string_content: "t".to_string(),
        new_string_variables: vec![],
        quote: '\'',
    };
    let (lines, _) = change_content(content, &vec![change]);
    assert_eq!(lines, vec!["'t'".to_string()]);
}

// ---------------------------------------------------------------------------
// The builders, called directly on hand-built nodes.
// ---------------------------------------------------------------------------

fn leaf(kind: ExprKind) -> Expr {
    Expr { lineno: 1, col_offset: 0, end_lineno: 1, end_col_offset: 0, kind }
}

#[test]
fn test_fix_fstring_directly() {
    let values = vec![
        leaf(ExprKind::Constant { value: Constant::Str("a ".to_string()) }),
        leaf(ExprKind::FormattedValue {
            value: Box::new(leaf(ExprKind::Name { id: "x".to_string() })),
        }),
    ];
    let (template, args) = fix_fstring(&values, '\'').unwrap();
    assert_eq!(template, "a %s");
    assert_eq!(args, vec!["x".to_string()]);
}

#[test]
fn test_parse_formatted_value_directly() {
    // a.b rendered through the attribute chain
    let chain = leaf(ExprKind::Attribute {
        value: Box::new(leaf(ExprKind::Name { id: "a".to_string() })),
        attr: "b".to_string(),
    });
    let r = parse_formatted_value(&chain, String::new(), false, '\'', 16);
    assert_eq!(r.unwrap(), "a.b");
    // a string constant is quoted inside a call's argument list
    let lit = leaf(ExprKind::Constant { value: Constant::Str("id".to_string()) });
    let r = parse_formatted_value(&lit, String::new(), true, '\'', 16);
    assert_eq!(r.unwrap(), "'id'");
}

#[test]
fn test_quote_inference_failure_skips_call_site() {
    // the first argument starts with a bytes prefix, so no quote can be
    // inferred for the rewritten literal
    let source = "logger.error(b'{}'.format(1))";
    let program = parse_to_model(source);
    let (changes, skipped) = get_changes(&program, source, LogLevel::Error).unwrap();
    assert!(changes.is_empty());
    assert_eq!(skipped, vec![1usize]);
}

// ---------------------------------------------------------------------------
// Unit tests for the smaller public functions.
// ---------------------------------------------------------------------------

#[test]
fn test_maybe_from_str() {
    assert_eq!(LogLevel::maybe_from_str("debug"), Some(LogLevel::Debug));
    assert_eq!(LogLevel::maybe_from_str("info"), Some(LogLevel::Info));
    assert_eq!(LogLevel::maybe_from_str("warn"), Some(LogLevel::Warning));
    assert_eq!(LogLevel::maybe_from_str("warning"), Some(LogLevel::Warning));
    assert_eq!(LogLevel::maybe_from_str("error"), Some(LogLevel::Error));
    assert_eq!(LogLevel::maybe_from_str("exception"), Some(LogLevel::Exception));
    assert_eq!(LogLevel::maybe_from_str("critical"), Some(LogLevel::Critical));
    assert_eq!(LogLevel::maybe_from_str("fatal"), None);
}

#[test]
fn test_maybe_from_str_ignores_case() {
    assert_eq!(LogLevel::maybe_from_str("DEBUG"), Some(LogLevel::Debug));
    assert_eq!(LogLevel::maybe_from_str("Error"), Some(LogLevel::Error));
    assert_eq!(LogLevel::maybe_from_str("WaRnInG"), Some(LogLevel::Warning));
    assert_eq!(LogLevel::maybe_from_str("EXCEPTION"), Some(LogLevel::Exception));
    assert_eq!(LogLevel::maybe_from_str("FATAL"), None);
}

#[test]
fn test_uppercase_level_name_is_rewritten() {
    run("logger.ERROR(f'{1}')", "logger.ERROR('%s', 1)");
    run("logger.Error('{}'.format(1))", "logger.Error('%s', 1)");
}

#[test]
fn test_get_char_reads_quotes() {
    assert_eq!(get_char("'abc'", 0), Some('\''));
    assert_eq!(get_char("\"abc\"", 0), Some('"'));
    assert_eq!(get_char("f'abc'", 0), Some('\''));
    assert_eq!(get_char("f\"abc\"", 0), Some('"'));
    assert_eq!(get_char("xyz", 0), None);
    assert_eq!(get_char("'", 9), None);
    assert_eq!(get_char("f", 0), None);
}

#[test]
fn test_get_quotes_indexes_rows_from_one() {
    let lines = vec!["first".to_string(), "x = f'hi'".to_string()];
    assert_eq!(get_quotes(&lines, 2, 4), Some('\''));
    assert_eq!(get_quotes(&lines, 1, 0), None);
    assert_eq!(get_quotes(&lines, 3, 0), None);
    assert_eq!(get_quotes(&lines, 0, 0), None);
}

#[test]
fn test_quotes_char() {
    assert_eq!(Quotes::Single.char(), '\'');
    assert_eq!(Quotes::Double.char(), '"');
}

#[test]
fn test_constant_to_string() {
    assert_eq!(constant_to_string(Constant::NoneValue), "None");
    assert_eq!(constant_to_string(Constant::Bool(true)), "True");
    assert_eq!(constant_to_string(Constant::Bool(false)), "False");
    assert_eq!(constant_to_string(Constant::Str("hi".to_string())), "hi");
    assert_eq!(constant_to_string(Constant::Bytes("ab".to_string())), "b\"ab\"");
    assert_eq!(constant_to_string(Constant::Int("42".to_string())), "42");
    assert_eq!(constant_to_string(Constant::Float("1.5".to_string())), "1.5");
    assert_eq!(constant_to_string(Constant::Ellipsis), "...");
    assert_eq!(
        constant_to_string(Constant::Complex {
            real_part: "1".to_string(),
            imag_part: "2".to_string(),
            imag_nonneg: true,
        }),
        "1+2j",
    );
    assert_eq!(
        constant_to_string(Constant::Complex {
            real_part: "1".to_string(),
            imag_part: "-2".to_string(),
            imag_nonneg: false,
        }),
        "1-2j",
    );
    assert_eq!(
        constant_to_string(Constant::Tuple(vec![
            Constant::Int("1".to_string()),
            Constant::Str("a".to_string()),
        ])),
        "(1, a)",
    );
}

#[test]
fn test_operator_to_string() {
    assert_eq!(operator_to_string(&Operator::Add), "+");
    assert_eq!(operator_to_string(&Operator::Sub), "-");
    assert_eq!(operator_to_string(&Operator::Mult), "*");
    assert_eq!(operator_to_string(&Operator::MatMult), "@");
    assert_eq!(operator_to_string(&Operator::Div), "/");
    assert_eq!(operator_to_string(&Operator::Mod), "%");
    assert_eq!(operator_to_string(&Operator::Pow), "**");
    assert_eq!(operator_to_string(&Operator::LShift), "<<");
    assert_eq!(operator_to_string(&Operator::RShift), ">>");
    assert_eq!(operator_to_string(&Operator::BitOr), "|");
    assert_eq!(operator_to_string(&Operator::BitXor), "^");
    assert_eq!(operator_to_string(&Operator::BitAnd), "&");
    assert_eq!(operator_to_string(&Operator::FloorDiv), "//");
}

#[test]
fn test_construct_f_string_regex() {
    assert_eq!(
        construct_f_string_regex(&LogLevel::Error),
        "logger\\.(error|exception|critical)\\(f\"(.+?)\"\\)",
    );
    assert_eq!(
        construct_f_string_regex(&LogLevel::Debug),
        "logger\\.(debug|info|warning|error|exception|critical)\\(f\"(.+?)\"\\)",
    );
    assert_eq!(
        construct_f_string_regex(&LogLevel::Critical),
        "logger\\.(critical)\\(f\"(.+?)\"\\)",
    );
}

#[test]
fn test_replace_last_char_with_str() {
    assert_eq!(replace_last_char_with_str("abc".to_string(), "xyz"), "abxyz");
    assert_eq!(replace_last_char_with_str("a".to_string(), ""), "");
    assert_eq!(replace_last_char_with_str(String::new(), "xyz"), "");
}

#[test]
fn test_split_lines() {
    let lines = split_lines("a\nb\n");
    assert_eq!(lines, vec!["a".to_string(), "b".to_string(), String::new()]);
    assert_eq!(split_lines(""), vec![String::new()]);
    assert_eq!(split_lines("abc"), vec!["abc".to_string()]);
}

#[test]
fn test_str_eq_and_join_with() {
    assert!(str_eq("abc", "abc"));
    assert!(!str_eq("abc", "abd"));
    assert!(!str_eq("abc", "ab"));
    let items = vec!["a".to_string(), "b".to_string(), "c".to_string()];
    assert_eq!(join_with(&items, ", "), "a, b, c");
    assert_eq!(join_with(&Vec::new(), ", "), "");
}

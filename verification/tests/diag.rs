use std::rc::Rc;

use scriptcore::ast::{BinaryOp, Expr, Prog, RawExpr, Stmt, Str};
use scriptcore::diag::{
    eval_err_to_stacktrace, join_strings, push_dec_i64, render_parse_error, render_token_as_char,
    LexError, ParseError, Token,
};
use scriptcore::eval::error::Error;
use scriptcore::eval::scope::ScopeStack;
use scriptcore::eval::utf8::check_utf8;
use scriptcore::eval::value::Heap;
use scriptcore::eval::{eval_prog, EvaluationContext, NoBuiltins};

fn bs(s: &str) -> Str {
    s.as_bytes().to_vec()
}

fn e(raw: RawExpr, loc: (usize, usize)) -> Expr {
    Expr(raw, loc)
}

fn var(name: &str, loc: (usize, usize)) -> Expr {
    e(RawExpr::Var { name: bs(name) }, loc)
}

fn lit_int(n: i64, loc: (usize, usize)) -> Expr {
    e(RawExpr::Int { n }, loc)
}

fn call(f: Expr, args: Vec<Expr>, loc: (usize, usize)) -> Expr {
    e(RawExpr::Call { func: Box::new(f), args }, loc)
}

#[test]
fn stacktrace_has_one_frame_per_call_level() {
    // An error three user-call levels deep reconstructs exactly three
    // frames, innermost call first, each with its own call site.
    let stmts = vec![
        Stmt::Func {
            name: (bs("h"), (1, 1)),
            args: Rc::new(vec![]),
            stmts: Rc::new(vec![Stmt::Expr {
                expr: e(
                    RawExpr::BinaryOp {
                        op: BinaryOp::Sum,
                        op_loc: (1, 12),
                        lhs: Box::new(lit_int(1, (1, 10))),
                        rhs: Box::new(e(RawExpr::Str { s: bs("x") }, (1, 14))),
                    },
                    (1, 10),
                ),
            }]),
        },
        Stmt::Func {
            name: (bs("g"), (2, 1)),
            args: Rc::new(vec![]),
            stmts: Rc::new(vec![Stmt::Expr { expr: call(var("h", (2, 10)), vec![], (2, 10)) }]),
        },
        Stmt::Func {
            name: (bs("f"), (3, 1)),
            args: Rc::new(vec![]),
            stmts: Rc::new(vec![Stmt::Expr { expr: call(var("g", (3, 10)), vec![], (3, 10)) }]),
        },
        Stmt::Expr { expr: call(var("f", (4, 1)), vec![], (4, 1)) },
    ];
    let mut heap = Heap::new();
    let scopes = ScopeStack::new();
    let mut context = EvaluationContext {
        builtins: NoBuiltins,
        cur_script_dir: Vec::new(),
        global_bindings: Vec::new(),
    };
    let prog = Prog::Body { stmts: Rc::new(stmts) };
    let err = eval_prog(&mut context, &mut heap, &scopes, Vec::new(), &prog, 100)
        .expect_err("the program should fail");
    let st = eval_err_to_stacktrace(&bs("script"), None, &err);
    assert_eq!(st.stacktrace.len(), 3);
    assert_eq!(st.stacktrace[0], bs("script:2:10: in 'g'"));
    assert_eq!(st.stacktrace[1], bs("script:3:10: in 'f'"));
    assert_eq!(st.stacktrace[2], bs("script:4:1: in '<root>'"));
    assert_eq!(st.msg, bs("1:12: in 'h': invalid types for operation"));
}

#[test]
fn located_leaf_message_carries_position() {
    let err = Error::AtLoc {
        source: Box::new(Error::Undefined { name: bs("x") }),
        line: 3,
        col: 7,
    };
    let st = eval_err_to_stacktrace(&bs("script"), None, &err);
    assert!(st.stacktrace.is_empty());
    assert_eq!(st.msg, bs("3:7: 'x' is not defined"));
}

#[test]
fn arity_message_names_both_counts() {
    let err = Error::ArgNumMismatch { need: 2, got: 3 };
    let st = eval_err_to_stacktrace(&bs("script"), None, &err);
    assert_eq!(st.msg, bs("expected 2 arguments but got 3"));
}

#[test]
fn decimal_rendering_handles_signs_and_extremes() {
    let mut out: Str = Vec::new();
    push_dec_i64(-12, &mut out);
    assert_eq!(out, bs("-12"));
    let mut out: Str = Vec::new();
    push_dec_i64(0, &mut out);
    assert_eq!(out, bs("0"));
    let mut out: Str = Vec::new();
    push_dec_i64(i64::MIN, &mut out);
    assert_eq!(out, bs("-9223372036854775808"));
}

#[test]
fn tokens_render_as_written() {
    assert_eq!(render_token_as_char(&Token::Fn), bs("`fn`"));
    assert_eq!(render_token_as_char(&Token::ColonEquals), bs(":="));
    assert_eq!(render_token_as_char(&Token::Ident(bs("abc"))), bs("`abc`"));
    assert_eq!(render_token_as_char(&Token::IntLiteral(-5)), bs("-5"));
    assert_eq!(render_token_as_char(&Token::StrLiteral(bs("hi"))), bs("\"hi\""));
    assert_eq!(render_token_as_char(&Token::BraceOpen), bs("{"));
}

#[test]
fn join_strings_uses_comma_and_or() {
    assert_eq!(join_strings(&vec![]), bs(""));
    assert_eq!(join_strings(&vec![bs("a")]), bs("a"));
    assert_eq!(join_strings(&vec![bs("a"), bs("b")]), bs("a or b"));
    assert_eq!(join_strings(&vec![bs("a"), bs("b"), bs("c")]), bs("a, b or c"));
}

#[test]
fn parse_errors_render_standard_diagnostics() {
    let (loc, msg) = render_parse_error(&ParseError::InvalidToken { location: (1, 2) });
    assert_eq!(loc, (1, 2));
    assert_eq!(msg, bs("invalid token"));

    let (loc, msg) = render_parse_error(&ParseError::UnrecognizedEof {
        location: (9, 1),
        expected: vec![bs("\";\""), bs("\"}\"")],
    });
    assert_eq!(loc, (9, 1));
    assert_eq!(msg, bs("unexpected EOF; expected \";\" or \"}\""));

    let (loc, msg) = render_parse_error(&ParseError::UnrecognizedToken {
        token: ((2, 5), Token::Comma, (2, 6)),
        expected: vec![bs("\")\"")],
    });
    assert_eq!(loc, (2, 5));
    assert_eq!(msg, bs("unexpected ','; expected \")\""));

    let (loc, msg) = render_parse_error(&ParseError::ExtraToken {
        token: ((3, 1), Token::Semicolon, (3, 2)),
    });
    assert_eq!(loc, (3, 1));
    assert_eq!(msg, bs("encountered extra token ';'"));

    let (loc, msg) =
        render_parse_error(&ParseError::User { error: LexError::Unexpected((4, 4), b'@') });
    assert_eq!(loc, (4, 4));
    assert_eq!(msg, bs("unexpected '@'"));
}

#[test]
fn utf8_checker_accepts_and_rejects() {
    assert!(check_utf8(&bs("plain ascii")));
    assert!(check_utf8(&"käse 🧀".as_bytes().to_vec()));
    assert!(!check_utf8(&vec![0xff]));
    assert!(!check_utf8(&vec![0xc0, 0xaf])); // overlong
    assert!(!check_utf8(&vec![0xed, 0xa0, 0x80])); // surrogate
    assert!(!check_utf8(&vec![0xf4, 0x90, 0x80, 0x80])); // beyond max
    assert!(!check_utf8(&vec![0xe2, 0x82])); // truncated
}

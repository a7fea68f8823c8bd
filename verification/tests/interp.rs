use std::rc::Rc;

use scriptcore::ast::{BinaryOp, Expr, Location, Prog, PropItem, RawExpr, Stmt, Str};
use scriptcore::eval::bind::BindType;
use scriptcore::eval::error::Error;
use scriptcore::eval::scope::ScopeStack;
use scriptcore::eval::value::{new_built_in_func, new_int, new_null, new_val_ref_with_source, ref_eq, Heap, SourcedValue, Value};
use scriptcore::eval::{eval_prog, eval_stmts, EvaluationContext, NoBuiltins};

fn bs(s: &str) -> Str {
    s.as_bytes().to_vec()
}

fn e(raw: RawExpr, loc: Location) -> Expr {
    Expr(raw, loc)
}

fn var(name: &str, loc: Location) -> Expr {
    e(RawExpr::Var { name: bs(name) }, loc)
}

fn lit_int(n: i64, loc: Location) -> Expr {
    e(RawExpr::Int { n }, loc)
}

fn strl(s: &str, loc: Location) -> Expr {
    e(RawExpr::Str { s: bs(s) }, loc)
}

fn binop(op: BinaryOp, op_loc: Location, lhs: Expr, rhs: Expr, loc: Location) -> Expr {
    e(
        RawExpr::BinaryOp { op, op_loc, lhs: Box::new(lhs), rhs: Box::new(rhs) },
        loc,
    )
}

fn call(f: Expr, args: Vec<Expr>, loc: Location) -> Expr {
    e(RawExpr::Call { func: Box::new(f), args }, loc)
}

fn declare(lhs: Expr, rhs: Expr) -> Stmt {
    Stmt::Declare { lhs, rhs }
}

fn assign(lhs: Expr, rhs: Expr) -> Stmt {
    Stmt::Assign { lhs, rhs }
}

fn block(stmts: Vec<Stmt>) -> Stmt {
    Stmt::Block { block: Rc::new(stmts) }
}

fn func(name: &str, loc: Location, args: Vec<Expr>, stmts: Vec<Stmt>) -> Stmt {
    Stmt::Func { name: (bs(name), loc), args: Rc::new(args), stmts: Rc::new(stmts) }
}

fn run(stmts: Vec<Stmt>) -> (Heap, Result<(), Error>) {
    let mut heap = Heap::new();
    let scopes = ScopeStack::new();
    let mut context = EvaluationContext {
        builtins: NoBuiltins,
        cur_script_dir: Vec::new(),
        global_bindings: Vec::new(),
    };
    let prog = Prog::Body { stmts: Rc::new(stmts) };
    let r = eval_prog(&mut context, &mut heap, &scopes, Vec::new(), &prog, 10_000);
    (heap, r)
}

fn lookup(heap: &Heap, name: &str) -> Option<SourcedValue> {
    let top = ScopeStack { frames: vec![0] };
    top.get(heap, &bs(name))
}

fn lookup_lit_int(heap: &Heap, name: &str) -> i64 {
    match lookup(heap, name).expect("name should be bound").v {
        Value::Int(n) => n,
        other => panic!("expected an integer, got {:?}", other),
    }
}

#[test]
fn end_to_end_closure_accumulation() {
    // x := 1; f := fn(n) { x = x + n; }; f(2); f(3);  leaves x bound to 6.
    let (heap, r) = run(vec![
        declare(var("x", (1, 1)), lit_int(1, (1, 6))),
        func(
            "f",
            (2, 1),
            vec![var("n", (2, 6))],
            vec![assign(
                var("x", (2, 12)),
                binop(BinaryOp::Sum, (2, 18), var("x", (2, 16)), var("n", (2, 20)), (2, 16)),
            )],
        ),
        Stmt::Expr { expr: call(var("f", (3, 1)), vec![lit_int(2, (3, 3))], (3, 1)) },
        Stmt::Expr { expr: call(var("f", (4, 1)), vec![lit_int(3, (4, 3))], (4, 1)) },
    ]);
    assert!(r.is_ok());
    assert_eq!(lookup_lit_int(&heap, "x"), 6);
}

#[test]
fn list_binding_aliases() {
    // a := [1]; b := a;  then mutating through b is visible through a.
    let (mut heap, r) = run(vec![
        declare(var("a", (1, 1)), e(RawExpr::List { items: vec![lit_int(1, (1, 7))] }, (1, 6))),
        declare(var("b", (2, 1)), var("a", (2, 6))),
    ]);
    assert!(r.is_ok());
    let a = lookup(&heap, "a").unwrap();
    let b = lookup(&heap, "b").unwrap();
    assert!(ref_eq(&a.v, &b.v));
    let bl = match b.v {
        Value::List(l) => l,
        other => panic!("expected a list, got {:?}", other),
    };
    heap.list_set(bl, 0, new_int(42));
    let al = match a.v {
        Value::List(l) => l,
        other => panic!("expected a list, got {:?}", other),
    };
    assert!(matches!(heap.list_get(al, 0).v, Value::Int(42)));
}

#[test]
fn scalar_binding_does_not_alias() {
    // a := 1; b := a; b = b + 1;  leaves a untouched.
    let (heap, r) = run(vec![
        declare(var("a", (1, 1)), lit_int(1, (1, 6))),
        declare(var("b", (2, 1)), var("a", (2, 6))),
        assign(
            var("b", (3, 1)),
            binop(BinaryOp::Sum, (3, 7), var("b", (3, 5)), lit_int(1, (3, 9)), (3, 5)),
        ),
    ]);
    assert!(r.is_ok());
    assert_eq!(lookup_lit_int(&heap, "a"), 1);
    assert_eq!(lookup_lit_int(&heap, "b"), 2);
}

#[test]
fn block_scoped_name_not_visible_after() {
    let (heap, r) = run(vec![
        declare(var("x", (1, 1)), lit_int(1, (1, 6))),
        block(vec![declare(var("y", (2, 3)), lit_int(2, (2, 8)))]),
    ]);
    assert!(r.is_ok());
    assert!(lookup(&heap, "y").is_none());
    assert_eq!(lookup_lit_int(&heap, "x"), 1);
}

#[test]
fn redeclaration_in_same_scope_fails() {
    let (_, r) = run(vec![
        declare(var("x", (1, 1)), lit_int(1, (1, 6))),
        declare(var("x", (2, 1)), lit_int(2, (2, 6))),
    ]);
    match r {
        Err(Error::AtLoc { source, line, col }) => {
            assert_eq!((line, col), (2, 1));
            assert!(matches!(*source, Error::AlreadyInScope { .. }));
        },
        other => panic!("expected a located redeclaration error, got {:?}", other),
    }
}

#[test]
fn shadowing_in_nested_block_resolves_innermost() {
    // x := 1; { x := 5; y := x; } — the inner x shadows; the outer survives.
    let (heap, r) = run(vec![
        declare(var("x", (1, 1)), lit_int(1, (1, 6))),
        block(vec![
            declare(var("x", (2, 3)), lit_int(5, (2, 8))),
            assign(
                var("x", (3, 3)),
                binop(BinaryOp::Sum, (3, 9), var("x", (3, 7)), lit_int(10, (3, 11)), (3, 7)),
            ),
        ]),
    ]);
    assert!(r.is_ok());
    assert_eq!(lookup_lit_int(&heap, "x"), 1);
}

#[test]
fn closure_sees_mutation_after_definition() {
    // x := 1; fn f() { x = x + 10; }; x = 5; f();  leaves x bound to 15.
    let (heap, r) = run(vec![
        declare(var("x", (1, 1)), lit_int(1, (1, 6))),
        func(
            "f",
            (2, 1),
            vec![],
            vec![assign(
                var("x", (2, 10)),
                binop(BinaryOp::Sum, (2, 16), var("x", (2, 14)), lit_int(10, (2, 18)), (2, 14)),
            )],
        ),
        assign(var("x", (3, 1)), lit_int(5, (3, 5))),
        Stmt::Expr { expr: call(var("f", (4, 1)), vec![], (4, 1)) },
    ]);
    assert!(r.is_ok());
    assert_eq!(lookup_lit_int(&heap, "x"), 15);
}

#[test]
fn sum_of_ints() {
    let (heap, r) = run(vec![declare(
        var("d", (1, 1)),
        binop(BinaryOp::Sum, (1, 8), lit_int(1, (1, 6)), lit_int(2, (1, 10)), (1, 6)),
    )]);
    assert!(r.is_ok());
    assert_eq!(lookup_lit_int(&heap, "d"), 3);
}

#[test]
fn sum_of_strings_concatenates() {
    let (heap, r) = run(vec![declare(
        var("s", (1, 1)),
        binop(BinaryOp::Sum, (1, 11), strl("ab", (1, 6)), strl("cd", (1, 13)), (1, 6)),
    )]);
    assert!(r.is_ok());
    let s = lookup(&heap, "s").unwrap();
    let cell = match s.v {
        Value::Str(c) => c,
        other => panic!("expected a string, got {:?}", other),
    };
    assert_eq!(heap.str_bytes(cell), b"abcd".to_vec());
}

#[test]
fn mixed_sum_fails_at_operator_location() {
    // 1 + "x" — the error carries the `+` token's own position, not the
    // whole expression's.
    let (_, r) = run(vec![Stmt::Expr {
        expr: binop(BinaryOp::Sum, (1, 3), lit_int(1, (1, 1)), strl("x", (1, 5)), (1, 1)),
    }]);
    match r {
        Err(Error::AtLoc { source, line, col }) => {
            assert_eq!((line, col), (1, 3));
            assert!(matches!(
                *source,
                Error::InvalidOpTypes { op: BinaryOp::Sum, lhs: Value::Int(1), rhs: Value::Str(_) }
            ));
        },
        other => panic!("expected a located operand-type error, got {:?}", other),
    }
}

#[test]
fn division_by_zero_is_reported() {
    let (_, r) = run(vec![Stmt::Expr {
        expr: binop(BinaryOp::Div, (1, 3), lit_int(5, (1, 1)), lit_int(0, (1, 5)), (1, 1)),
    }]);
    match r {
        Err(Error::AtLoc { source, line, col }) => {
            assert_eq!((line, col), (1, 3));
            assert!(matches!(*source, Error::DivideByZero { op: BinaryOp::Div }));
        },
        other => panic!("expected a located division-by-zero error, got {:?}", other),
    }
}

#[test]
fn integer_operators_reject_non_integers() {
    for op in [BinaryOp::Sub, BinaryOp::Mul, BinaryOp::Div, BinaryOp::Mod] {
        let (_, r) = run(vec![Stmt::Expr {
            expr: binop(op, (1, 3), strl("a", (1, 1)), strl("b", (1, 5)), (1, 1)),
        }]);
        match r {
            Err(Error::AtLoc { source, .. }) => {
                assert!(matches!(*source, Error::InvalidOpTypes { .. }));
            },
            other => panic!("expected an operand-type error, got {:?}", other),
        }
    }
}

#[test]
fn wrapping_arithmetic_is_twos_complement() {
    let (heap, r) = run(vec![
        declare(
            var("a", (1, 1)),
            binop(
                BinaryOp::Sum,
                (1, 8),
                lit_int(i64::MAX, (1, 6)),
                lit_int(1, (1, 10)),
                (1, 6),
            ),
        ),
        declare(
            var("b", (2, 1)),
            binop(
                BinaryOp::Div,
                (2, 8),
                lit_int(i64::MIN, (2, 6)),
                lit_int(-1, (2, 10)),
                (2, 6),
            ),
        ),
        declare(
            var("c", (3, 1)),
            binop(BinaryOp::Div, (3, 8), lit_int(-7, (3, 6)), lit_int(2, (3, 10)), (3, 6)),
        ),
        declare(
            var("d", (4, 1)),
            binop(BinaryOp::Mod, (4, 8), lit_int(-7, (4, 6)), lit_int(2, (4, 10)), (4, 6)),
        ),
    ]);
    assert!(r.is_ok());
    assert_eq!(lookup_lit_int(&heap, "a"), i64::MIN);
    assert_eq!(lookup_lit_int(&heap, "b"), i64::MIN);
    assert_eq!(lookup_lit_int(&heap, "c"), -3);
    assert_eq!(lookup_lit_int(&heap, "d"), -1);
}

#[test]
fn sub_and_mul_and_bool_operands() {
    let (heap, r) = run(vec![
        declare(
            var("s", (1, 1)),
            binop(BinaryOp::Sub, (1, 8), lit_int(5, (1, 6)), lit_int(3, (1, 10)), (1, 6)),
        ),
        declare(
            var("m", (2, 1)),
            binop(BinaryOp::Mul, (2, 8), lit_int(6, (2, 6)), lit_int(7, (2, 10)), (2, 6)),
        ),
        declare(
            var("r", (3, 1)),
            binop(BinaryOp::Mod, (3, 8), lit_int(7, (3, 6)), lit_int(3, (3, 10)), (3, 6)),
        ),
    ]);
    assert!(r.is_ok());
    assert_eq!(lookup_lit_int(&heap, "s"), 2);
    assert_eq!(lookup_lit_int(&heap, "m"), 42);
    assert_eq!(lookup_lit_int(&heap, "r"), 1);

    let (_, r) = run(vec![Stmt::Expr {
        expr: binop(
            BinaryOp::Sum,
            (1, 3),
            e(RawExpr::Bool { b: true }, (1, 1)),
            lit_int(1, (1, 5)),
            (1, 1),
        ),
    }]);
    match r {
        Err(Error::AtLoc { source, .. }) => {
            assert!(matches!(*source, Error::InvalidOpTypes { .. }));
        },
        other => panic!("expected an operand-type error, got {:?}", other),
    }
}

#[test]
fn call_arity_mismatch_names_both_counts() {
    // A two-parameter function called with one and with three arguments.
    let two_param = func(
        "g",
        (1, 1),
        vec![var("a", (1, 6)), var("b", (1, 9))],
        vec![],
    );
    let (_, r1) = run(vec![
        two_param,
        Stmt::Expr { expr: call(var("g", (2, 1)), vec![lit_int(1, (2, 3))], (2, 1)) },
    ]);
    match r1 {
        Err(Error::AtLoc { source, line, col }) => {
            assert_eq!((line, col), (2, 1));
            assert!(matches!(*source, Error::ArgNumMismatch { need: 2, got: 1 }));
        },
        other => panic!("expected an arity error, got {:?}", other),
    }
    let two_param = func(
        "g",
        (1, 1),
        vec![var("a", (1, 6)), var("b", (1, 9))],
        vec![],
    );
    let (_, r3) = run(vec![
        two_param,
        Stmt::Expr {
            expr: call(
                var("g", (2, 1)),
                vec![lit_int(1, (2, 3)), lit_int(2, (2, 6)), lit_int(3, (2, 9))],
                (2, 1),
            ),
        },
    ]);
    match r3 {
        Err(Error::AtLoc { source, .. }) => {
            assert!(matches!(*source, Error::ArgNumMismatch { need: 2, got: 3 }));
        },
        other => panic!("expected an arity error, got {:?}", other),
    }
}

#[test]
fn object_iterates_in_key_order() {
    // {"b": 1, "a": 2} always yields a before b.
    let (heap, r) = run(vec![declare(
        var("o", (1, 1)),
        e(
            RawExpr::Object {
                props: vec![
                    PropItem::Pair { name: strl("b", (1, 7)), value: lit_int(1, (1, 12)) },
                    PropItem::Pair { name: strl("a", (1, 15)), value: lit_int(2, (1, 20)) },
                ],
            },
            (1, 6),
        ),
    )]);
    assert!(r.is_ok());
    let o = match lookup(&heap, "o").unwrap().v {
        Value::Object(o) => o,
        other => panic!("expected an object, got {:?}", other),
    };
    assert_eq!(heap.object_len(o), 2);
    let (k0, v0) = heap.object_entry_at(o, 0);
    let (k1, v1) = heap.object_entry_at(o, 1);
    assert_eq!(k0, b"a".to_vec());
    assert_eq!(k1, b"b".to_vec());
    assert!(matches!(v0.v, Value::Int(2)));
    assert!(matches!(v1.v, Value::Int(1)));
}

#[test]
fn later_duplicate_key_overwrites() {
    let (heap, r) = run(vec![declare(
        var("o", (1, 1)),
        e(
            RawExpr::Object {
                props: vec![
                    PropItem::Pair { name: strl("k", (1, 7)), value: lit_int(1, (1, 12)) },
                    PropItem::Pair { name: strl("k", (1, 15)), value: lit_int(2, (1, 20)) },
                ],
            },
            (1, 6),
        ),
    )]);
    assert!(r.is_ok());
    let o = match lookup(&heap, "o").unwrap().v {
        Value::Object(o) => o,
        other => panic!("expected an object, got {:?}", other),
    };
    assert_eq!(heap.object_len(o), 1);
    let (k, v) = heap.object_entry_at(o, 0);
    assert_eq!(k, b"k".to_vec());
    assert!(matches!(v.v, Value::Int(2)));
}

#[test]
fn non_utf8_object_key_is_reported() {
    let (_, r) = run(vec![declare(
        var("o", (1, 1)),
        e(
            RawExpr::Object {
                props: vec![PropItem::Pair {
                    name: e(RawExpr::Str { s: vec![0xff, 0xfe] }, (1, 7)),
                    value: lit_int(1, (1, 12)),
                }],
            },
            (1, 6),
        ),
    )]);
    match r {
        Err(Error::AtLoc { source, line, col }) => {
            assert_eq!((line, col), (1, 7));
            assert!(matches!(*source, Error::StringConstructionFailed { .. }));
        },
        other => panic!("expected a string-construction error, got {:?}", other),
    }
}

#[test]
fn non_string_object_key_is_a_type_error() {
    let (_, r) = run(vec![declare(
        var("o", (1, 1)),
        e(
            RawExpr::Object {
                props: vec![PropItem::Pair { name: lit_int(1, (1, 7)), value: lit_int(2, (1, 10)) }],
            },
            (1, 6),
        ),
    )]);
    match r {
        Err(Error::AtLoc { source, .. }) => {
            assert!(matches!(*source, Error::IncorrectType { .. }));
        },
        other => panic!("expected a type error, got {:?}", other),
    }
}

#[test]
fn undefined_variable_is_located() {
    let (_, r) = run(vec![Stmt::Expr { expr: var("nope", (7, 3)) }]);
    match r {
        Err(Error::AtLoc { source, line, col }) => {
            assert_eq!((line, col), (7, 3));
            match *source {
                Error::Undefined { ref name } => assert_eq!(name, &b"nope".to_vec()),
                ref other => panic!("expected an undefined-name error, got {:?}", other),
            }
        },
        other => panic!("expected a located error, got {:?}", other),
    }
}

#[test]
fn assigning_an_undefined_name_fails() {
    let (_, r) = run(vec![assign(var("y", (1, 1)), lit_int(1, (1, 5)))]);
    match r {
        Err(Error::AtLoc { source, .. }) => {
            assert!(matches!(*source, Error::Undefined { .. }));
        },
        other => panic!("expected an undefined-name error, got {:?}", other),
    }
}

#[test]
fn calling_a_non_function_fails() {
    let (_, r) = run(vec![Stmt::Expr { expr: call(lit_int(1, (1, 1)), vec![], (1, 1)) }]);
    match r {
        Err(Error::AtLoc { source, .. }) => {
            assert!(matches!(*source, Error::CannotCallNonFunc { v: Value::Int(1) }));
        },
        other => panic!("expected a non-callable error, got {:?}", other),
    }
}

#[test]
fn list_destructuring_binds_elementwise() {
    let (heap, r) = run(vec![declare(
        e(
            RawExpr::List { items: vec![var("p", (1, 2)), var("q", (1, 5))] },
            (1, 1),
        ),
        e(
            RawExpr::List { items: vec![lit_int(10, (1, 11)), lit_int(20, (1, 15))] },
            (1, 10),
        ),
    )]);
    assert!(r.is_ok());
    assert_eq!(lookup_lit_int(&heap, "p"), 10);
    assert_eq!(lookup_lit_int(&heap, "q"), 20);
}

#[test]
fn duplicate_name_in_one_destructuring_fails() {
    let (_, r) = run(vec![declare(
        e(
            RawExpr::List { items: vec![var("p", (1, 2)), var("p", (1, 5))] },
            (1, 1),
        ),
        e(
            RawExpr::List { items: vec![lit_int(10, (1, 11)), lit_int(20, (1, 15))] },
            (1, 10),
        ),
    )]);
    match r {
        Err(Error::AtLoc { source, line, col }) => {
            assert_eq!((line, col), (1, 5));
            assert!(matches!(*source, Error::AlreadyInBinding { .. }));
        },
        other => panic!("expected a duplicate-binding error, got {:?}", other),
    }
}

#[test]
fn object_destructuring_binds_by_property() {
    let (heap, r) = run(vec![
        declare(
            var("o", (1, 1)),
            e(
                RawExpr::Object {
                    props: vec![PropItem::Pair { name: strl("k", (1, 7)), value: lit_int(9, (1, 12)) }],
                },
                (1, 6),
            ),
        ),
        declare(
            e(
                RawExpr::Object {
                    props: vec![PropItem::Pair { name: strl("k", (2, 2)), value: var("w", (2, 7)) }],
                },
                (2, 1),
            ),
            var("o", (2, 12)),
        ),
    ]);
    assert!(r.is_ok());
    assert_eq!(lookup_lit_int(&heap, "w"), 9);
}

#[test]
fn literal_is_an_invalid_bind_target() {
    let (_, r) = run(vec![declare(lit_int(1, (1, 1)), lit_int(2, (1, 6)))]);
    match r {
        Err(Error::AtLoc { source, .. }) => {
            assert!(matches!(*source, Error::InvalidBindTarget { .. }));
        },
        other => panic!("expected an invalid-target error, got {:?}", other),
    }
}

#[test]
fn mismatched_list_pattern_shape_fails() {
    let (_, r) = run(vec![declare(
        e(RawExpr::List { items: vec![var("p", (1, 2))] }, (1, 1)),
        e(
            RawExpr::List { items: vec![lit_int(1, (1, 9)), lit_int(2, (1, 12))] },
            (1, 8),
        ),
    )]);
    match r {
        Err(Error::AtLoc { source, .. }) => {
            assert!(matches!(*source, Error::InvalidBindTarget { .. }));
        },
        other => panic!("expected an invalid-target error, got {:?}", other),
    }
}

#[test]
fn unbounded_recursion_runs_out_of_fuel() {
    fn innermost(e: Error) -> Error {
        match e {
            Error::AtLoc { source, .. } => innermost(*source),
            Error::EvalFuncCallFailed { source, .. } => innermost(*source),
            Error::EvalBuiltinFuncCallFailed { source, .. } => innermost(*source),
            other => other,
        }
    }
    let stmts = vec![
        func(
            "r",
            (1, 1),
            vec![],
            vec![Stmt::Expr { expr: call(var("r", (1, 10)), vec![], (1, 10)) }],
        ),
        Stmt::Expr { expr: call(var("r", (2, 1)), vec![], (2, 1)) },
    ];
    let mut heap = Heap::new();
    let scopes = ScopeStack::new();
    let mut context = EvaluationContext {
        builtins: NoBuiltins,
        cur_script_dir: Vec::new(),
        global_bindings: Vec::new(),
    };
    let prog = Prog::Body { stmts: Rc::new(stmts) };
    let r = eval_prog(&mut context, &mut heap, &scopes, Vec::new(), &prog, 200);
    match r {
        Err(e2) => assert!(matches!(innermost(e2), Error::OutOfFuel)),
        other => panic!("expected an out-of-fuel error, got {:?}", other),
    }
}

#[test]
fn builtin_call_reports_through_host() {
    let mut heap = Heap::new();
    let scopes = ScopeStack::new();
    let print = new_built_in_func(&mut heap, bs("print"));
    let mut context = EvaluationContext {
        builtins: NoBuiltins,
        cur_script_dir: Vec::new(),
        global_bindings: Vec::new(),
    };
    let prog = Prog::Body {
        stmts: Rc::new(vec![Stmt::Expr {
            expr: call(var("print", (1, 1)), vec![lit_int(1, (1, 7))], (1, 1)),
        }]),
    };
    let r = eval_prog(
        &mut context,
        &mut heap,
        &scopes,
        vec![(RawExpr::Var { name: bs("print") }, print)],
        &prog,
        100,
    );
    match r {
        Err(Error::EvalBuiltinFuncCallFailed { source, func_name, call_loc }) => {
            assert_eq!(func_name, Some(bs("print")));
            assert_eq!(call_loc, (1, 1));
            match *source {
                Error::BuiltinFuncErr { ref msg } => assert_eq!(msg, &bs("print")),
                ref other => panic!("expected the host's report, got {:?}", other),
            }
        },
        other => panic!("expected a builtin-call failure, got {:?}", other),
    }
}

#[test]
fn callsite_locals_are_not_visible_in_body() {
    // g captures the top-level chain only; a block-local binding at the
    // call site must not be visible inside g's body.
    fn innermost(e: Error) -> Error {
        match e {
            Error::AtLoc { source, .. } => innermost(*source),
            Error::EvalFuncCallFailed { source, .. } => innermost(*source),
            Error::EvalBuiltinFuncCallFailed { source, .. } => innermost(*source),
            other => other,
        }
    }
    let (_, r) = run(vec![
        func("g", (1, 1), vec![], vec![Stmt::Expr { expr: var("y", (1, 10)) }]),
        block(vec![
            declare(var("y", (2, 3)), lit_int(1, (2, 8))),
            Stmt::Expr { expr: call(var("g", (3, 3)), vec![], (3, 3)) },
        ]),
    ]);
    match r {
        Err(e) => match innermost(e) {
            Error::Undefined { name } => assert_eq!(name, bs("y")),
            other => panic!("expected an undefined-name error, got {:?}", other),
        },
        other => panic!("expected the body lookup to fail, got {:?}", other),
    }
}

#[test]
fn sourced_callee_binds_this() {
    // A callee carrying a source gets the synthetic `this` binding: the
    // body copies it into an outer binding we can observe.
    let mut heap = Heap::new();
    let outer = ScopeStack::new().new_from_push(&mut heap);
    outer
        .declare(&mut heap, bs("seen"), new_null())
        .expect("fresh declaration should succeed");
    let mut context = EvaluationContext {
        builtins: NoBuiltins,
        cur_script_dir: Vec::new(),
        global_bindings: Vec::new(),
    };
    let recv = new_int(7);
    let body = vec![assign(var("seen", (1, 1)), var("this", (1, 8)))];
    let targets: Vec<Expr> = Vec::new();
    let r = eval_stmts(
        &mut context,
        &mut heap,
        &outer,
        &targets,
        Vec::new(),
        Some(recv),
        &body,
        100,
    );
    assert!(r.is_ok());
    let seen = outer.get(&heap, &bs("seen")).unwrap();
    assert!(matches!(seen.v, Value::Int(7)));
    // Keep the unused import warning away while documenting the other
    // constructor of sourced values.
    let sv = new_val_ref_with_source(Value::Int(1), Value::Int(2));
    assert_eq!(sv.source, Some(Value::Int(2)));
}

#[test]
fn bind_type_distinguishes_declaration_and_assignment() {
    assert_ne!(BindType::Declaration, BindType::Assignment);
}

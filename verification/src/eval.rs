//! The evaluator: statement and expression semantics over a scope stack, a
//! heap of shared containers, and an evaluation context.
//!
//! Every failure unwinds to the caller, enriched on the way: expression
//! failures carry the failing expression's own source location, and call
//! failures carry the callee's name and the call site, from which a stack
//! trace is reconstructed afterwards (see [`crate::diag`]).
//!
//! Evaluation carries a `fuel` budget: one unit pays for each statement
//! that evaluates an expression and for each user function call.  A
//! program that runs past the budget fails with [`Error::OutOfFuel`]
//! rather than overrunning the host stack; the language has no loops, so
//! any program runs to completion under a large enough budget.

pub mod bind;
pub mod error;
pub mod scope;
pub mod utf8;
pub mod value;

use vstd::prelude::*;
use crate::ast::BinaryOp;
use crate::ast::Expr;
use crate::ast::Location;
use crate::ast::Prog;
use crate::ast::PropItem;
use crate::ast::RawExpr;
use crate::ast::Stmt;
use crate::ast::Str;
use self::bind::BindType;
use self::error::Error;
use self::scope::keys_preserved;
use self::scope::keys_preserved_except;
use self::scope::lemma_keys_except_trans;
use self::scope::lemma_keys_preserved_refl;
use self::scope::lemma_keys_preserved_then_except;
use self::scope::lemma_keys_preserved_to_except;
use self::scope::lemma_keys_preserved_trans;
use self::scope::stack_lookup;
use self::scope::stack_target;
use self::scope::ScopeStack;
use self::value::clone_bytes;
use self::value::concat_bytes;
use self::value::lemma_extends_refl;
use self::value::lemma_extends_sv_wf;
use self::value::lemma_extends_trans;
use self::value::new_func;
use self::value::new_list;
use self::value::new_null;
use self::value::new_object;
use self::value::new_str;
use self::value::new_val_ref_with_no_source;
use self::value::object_insert_entry;
use self::value::rc_clone;
use self::value::FuncRef;
use self::value::ListRef;
use self::value::ObjectRef;
use self::value::Heap;
use self::value::Object;
use self::value::SourcedValue;
use self::value::StrRef;
use self::value::Value;

verus! {

/// The driver's builtin-function collaborator: invoked for a call whose
/// callee is a [`Value::BuiltinFunc`].  The calling convention hands it an
/// optional receiver (the callee's source, the implicit `this`) and the
/// evaluated arguments.  A builtin may read containers, mutate their
/// contents and allocate new ones, but never touches scope frames or
/// function values — it has no access to the scope chain.
pub trait BuiltinHost {
    fn call_builtin(
        &mut self,
        heap: &mut Heap,
        name: &Str,
        this: Option<SourcedValue>,
        args: Vec<SourcedValue>,
    ) -> (r: Result<SourcedValue, Error>)
        requires
            old(heap).wf(),
        ensures
            final(heap).wf(),
            final(heap).extends(*old(heap)),
            final(heap).scopes == old(heap).scopes,
            final(heap).funcs == old(heap).funcs,
            r matches Ok(sv) ==> final(heap).sv_wf(sv),
    ;
}

/// A builtin table with no entries: every builtin call reports an unknown
/// builtin.  Drivers that register no builtins use this host.
pub struct NoBuiltins;

impl BuiltinHost for NoBuiltins {
    fn call_builtin(
        &mut self,
        heap: &mut Heap,
        name: &Str,
        _this: Option<SourcedValue>,
        _args: Vec<SourcedValue>,
    ) -> (r: Result<SourcedValue, Error>) {
        proof {
            lemma_extends_refl(*heap);
        }
        Err(Error::BuiltinFuncErr { msg: clone_bytes(name) })
    }
}

/// What the driver hands the evaluator: the builtin collaborator, the
/// directory of the running script (available to builtins that need
/// filesystem context), and the initial global bindings.
pub struct EvaluationContext<B: BuiltinHost> {
    pub builtins: B,
    pub cur_script_dir: Str,
    pub global_bindings: Vec<(RawExpr, SourcedValue)>,
}

/// Truncating division wrapped to two's complement: the one overflowing
/// case, `i64::MIN / -1`, wraps back to `i64::MIN`.
pub open spec fn wrap_div_i64(a: i64, b: i64) -> i64 {
    if a == i64::MIN && b == -1 {
        i64::MIN
    } else {
        match a.checked_div(b) {
            Some(q) => q,
            None => 0,
        }
    }
}

/// Truncating remainder wrapped to two's complement: `i64::MIN % -1` is 0.
pub open spec fn wrap_rem_i64(a: i64, b: i64) -> i64 {
    if a == i64::MIN && b == -1 {
        0
    } else {
        match a.checked_rem(b) {
            Some(q) => q,
            None => 0,
        }
    }
}

/// The value of an expression whose evaluation needs no heap effect: a
/// null, boolean or integer literal, a variable, or integer arithmetic
/// over such expressions.  `None` for every other expression — or when a
/// variable is unbound, an operand is not an integer, or a divisor is
/// zero; those cases, and everything that allocates or calls, are decided
/// by the evaluator's other clauses, not here.
pub open spec fn simple_eval(chain: Seq<usize>, scopes: Seq<value::Frame>, e: RawExpr) -> Option<
    SourcedValue,
>
    decreases e,
{
    match e {
        RawExpr::Null => Some(SourcedValue { v: Value::Null, source: None }),
        RawExpr::Bool { b } => Some(SourcedValue { v: Value::Bool(b), source: None }),
        RawExpr::Int { n } => Some(SourcedValue { v: Value::Int(n), source: None }),
        RawExpr::Var { name } => stack_lookup(chain, scopes, name@),
        RawExpr::BinaryOp { op, op_loc, lhs, rhs } => {
            match (simple_eval(chain, scopes, lhs.0), simple_eval(chain, scopes, rhs.0)) {
                (Some(a), Some(b)) => match (a.v, b.v) {
                    (Value::Int(x), Value::Int(y)) => match op {
                        BinaryOp::Sum => Some(
                            SourcedValue { v: Value::Int(x.wrapping_add(y)), source: None },
                        ),
                        BinaryOp::Sub => Some(
                            SourcedValue { v: Value::Int(x.wrapping_sub(y)), source: None },
                        ),
                        BinaryOp::Mul => Some(
                            SourcedValue { v: Value::Int(x.wrapping_mul(y)), source: None },
                        ),
                        BinaryOp::Div => if y == 0 {
                            None
                        } else {
                            Some(SourcedValue { v: Value::Int(wrap_div_i64(x, y)), source: None })
                        },
                        BinaryOp::Mod => if y == 0 {
                            None
                        } else {
                            Some(SourcedValue { v: Value::Int(wrap_rem_i64(x, y)), source: None })
                        },
                    },
                    _ => None,
                },
                _ => None,
            }
        },
        _ => None,
    }
}

/// Every expression of `es` has a heap-neutral value under `simple_eval`.
pub open spec fn all_simple(chain: Seq<usize>, scopes: Seq<value::Frame>, es: Seq<Expr>) -> bool {
    forall|j: int|
        0 <= j < es.len() ==> (#[trigger] simple_eval(chain, scopes, es[j].0)) is Some
}

/// The variable name a bare-variable bind target carries.
pub open spec fn target_name(t: Expr) -> Seq<u8> {
    match t.0 {
        RawExpr::Var { name } => name@,
        _ => Seq::empty(),
    }
}

/// The variable name a global binding is registered under.
pub open spec fn binding_name(b: (RawExpr, SourcedValue)) -> Seq<u8> {
    match b.0 {
        RawExpr::Var { name } => name@,
        _ => Seq::empty(),
    }
}

/// Whether a global binding names a bare variable.
pub open spec fn is_var_binding(b: (RawExpr, SourcedValue)) -> bool {
    b.0 matches RawExpr::Var { .. }
}

/// The global bindings are bare variables with pairwise distinct names.
pub open spec fn distinct_var_bindings(bs: Seq<(RawExpr, SourcedValue)>) -> bool {
    &&& forall|j: int| 0 <= j < bs.len() ==> is_var_binding(#[trigger] bs[j])
    &&& forall|i: int, j: int|
        0 <= i < j < bs.len() ==> binding_name(#[trigger] bs[i]) != binding_name(#[trigger] bs[j])
}

/// Whether a bind target is a bare variable.
pub open spec fn is_var_target(t: Expr) -> bool {
    t.0 matches RawExpr::Var { .. }
}

/// The targets are all bare variables with pairwise distinct names — the
/// shape of an ordinary parameter list.
pub open spec fn distinct_var_targets(ts: Seq<Expr>) -> bool {
    &&& forall|j: int| 0 <= j < ts.len() ==> is_var_target(#[trigger] ts[j])
    &&& forall|i: int, j: int|
        0 <= i < j < ts.len() ==> target_name(#[trigger] ts[i]) != target_name(#[trigger] ts[j])
}

/// Whether a statement declares the bare variable `nm`.
pub open spec fn declares_var(st: Stmt, nm: Seq<u8>) -> bool {
    st matches Stmt::Declare { lhs, .. } && lhs.0 matches RawExpr::Var { name } && name@ == nm
}

/// The error produced by a binary operation on operand kinds it does not
/// accept: an operand-type error located at the operator's own position.
pub open spec fn is_invalid_op_err(
    r: Result<Value, Error>,
    op: BinaryOp,
    lhs: Value,
    rhs: Value,
    line: usize,
    col: usize,
) -> bool {
    r matches Err(e) && e matches Error::AtLoc { source, line: l, col: c } && l == line && c == col
        && *source == (Error::InvalidOpTypes { op, lhs, rhs })
}

/// The error produced when an object-key expression yields something
/// other than a string, located at the expression's own position.
pub open spec fn is_non_string_key_err(r: Result<Str, Error>, loc: Location) -> bool {
    r matches Err(e) && e matches Error::AtLoc { source, line, col }
        && *source matches Error::IncorrectType { .. } && line == loc.0 && col == loc.1
}

/// The error produced by integer division or remainder by zero, located at
/// the operator's own position.
pub open spec fn is_div_zero_err(
    r: Result<Value, Error>,
    op: BinaryOp,
    line: usize,
    col: usize,
) -> bool {
    r matches Err(e) && e matches Error::AtLoc { source, line: l, col: c } && l == line && c == col
        && *source == (Error::DivideByZero { op })
}

/// Applies a binary operator to two already-extracted operand values.
///
/// The left operand is received as an owned, lock-free copy taken before
/// the right operand's container could be touched: the two operands may be
/// handles to the identical shared container, and extracting one side
/// before reading the other is what makes that aliasing harmless.  With
/// the arena representation both operands arrive as plain copied values,
/// so the discipline is enforced by construction.
pub fn apply_binary_operation(
    heap: &mut Heap,
    op: &BinaryOp,
    op_loc: &Location,
    lhs: &Value,
    rhs: &Value,
) -> (r: Result<Value, Error>)
    requires
        old(heap).wf(),
        old(heap).val_wf(*lhs),
        old(heap).val_wf(*rhs),
    ensures
        final(heap).wf(),
        final(heap).extends(*old(heap)),
        final(heap).lists == old(heap).lists,
        final(heap).objects == old(heap).objects,
        final(heap).funcs == old(heap).funcs,
        final(heap).scopes == old(heap).scopes,
        ({
            let line = op_loc.0;
            let col = op_loc.1;
            match *op {
                BinaryOp::Sum => match (*lhs, *rhs) {
                    (Value::Int(a), Value::Int(b)) => r == Result::<Value, Error>::Ok(
                        Value::Int(a.wrapping_add(b)),
                    ) && *final(heap) == *old(heap),
                    (Value::Str(x), Value::Str(y)) => {
                        &&& final(heap).strs@.len() == old(heap).strs@.len() + 1
                        &&& final(heap).strs@.last()@ == old(heap).strs@[x as int]@
                            + old(heap).strs@[y as int]@
                        &&& r == Result::<Value, Error>::Ok(
                            Value::Str(old(heap).strs@.len() as StrRef),
                        )
                    },
                    _ => is_invalid_op_err(r, *op, *lhs, *rhs, line, col) && *final(heap) == *old(
                        heap,
                    ),
                },
                BinaryOp::Sub => match (*lhs, *rhs) {
                    (Value::Int(a), Value::Int(b)) => r == Result::<Value, Error>::Ok(
                        Value::Int(a.wrapping_sub(b)),
                    ) && *final(heap) == *old(heap),
                    _ => is_invalid_op_err(r, *op, *lhs, *rhs, line, col) && *final(heap) == *old(
                        heap,
                    ),
                },
                BinaryOp::Mul => match (*lhs, *rhs) {
                    (Value::Int(a), Value::Int(b)) => r == Result::<Value, Error>::Ok(
                        Value::Int(a.wrapping_mul(b)),
                    ) && *final(heap) == *old(heap),
                    _ => is_invalid_op_err(r, *op, *lhs, *rhs, line, col) && *final(heap) == *old(
                        heap,
                    ),
                },
                BinaryOp::Div => match (*lhs, *rhs) {
                    (Value::Int(a), Value::Int(b)) => (if b == 0 {
                        is_div_zero_err(r, *op, line, col)
                    } else {
                        r == Result::<Value, Error>::Ok(Value::Int(wrap_div_i64(a, b)))
                    }) && *final(heap) == *old(heap),
                    _ => is_invalid_op_err(r, *op, *lhs, *rhs, line, col) && *final(heap) == *old(
                        heap,
                    ),
                },
                BinaryOp::Mod => match (*lhs, *rhs) {
                    (Value::Int(a), Value::Int(b)) => (if b == 0 {
                        is_div_zero_err(r, *op, line, col)
                    } else {
                        r == Result::<Value, Error>::Ok(Value::Int(wrap_rem_i64(a, b)))
                    }) && *final(heap) == *old(heap),
                    _ => is_invalid_op_err(r, *op, *lhs, *rhs, line, col) && *final(heap) == *old(
                        heap,
                    ),
                },
            }
        }),
{
    let (line, col) = *op_loc;
    proof {
        lemma_extends_refl(*heap);
    }
    match op {
        BinaryOp::Sum => {
            match (lhs, rhs) {
                (Value::Int(a), Value::Int(b)) => Ok(Value::Int(a.wrapping_add(*b))),
                (Value::Str(x), Value::Str(y)) => {
                    let xb = clone_bytes(&heap.strs[*x]);
                    let cat = concat_bytes(&xb, &heap.strs[*y]);
                    let sv = new_str(heap, cat);
                    match sv.v {
                        Value::Str(i) => Ok(Value::Str(i)),
                        _ => Ok(Value::Null),
                    }
                },
                _ => Err(new_invalid_op_types(op, lhs, rhs, line, col)),
            }
        },
        BinaryOp::Sub => {
            match (lhs, rhs) {
                (Value::Int(a), Value::Int(b)) => Ok(Value::Int(a.wrapping_sub(*b))),
                _ => Err(new_invalid_op_types(op, lhs, rhs, line, col)),
            }
        },
        BinaryOp::Mul => {
            match (lhs, rhs) {
                (Value::Int(a), Value::Int(b)) => Ok(Value::Int(a.wrapping_mul(*b))),
                _ => Err(new_invalid_op_types(op, lhs, rhs, line, col)),
            }
        },
        BinaryOp::Div => {
            match (lhs, rhs) {
                (Value::Int(a), Value::Int(b)) => {
                    if *b == 0 {
                        Err(Error::AtLoc {
                            source: Box::new(Error::DivideByZero { op: *op }),
                            line,
                            col,
                        })
                    } else if *a == i64::MIN && *b == -1 {
                        Ok(Value::Int(i64::MIN))
                    } else {
                        match a.checked_div(*b) {
                            Some(q) => Ok(Value::Int(q)),
                            None => Ok(Value::Int(0)),
                        }
                    }
                },
                _ => Err(new_invalid_op_types(op, lhs, rhs, line, col)),
            }
        },
        BinaryOp::Mod => {
            match (lhs, rhs) {
                (Value::Int(a), Value::Int(b)) => {
                    if *b == 0 {
                        Err(Error::AtLoc {
                            source: Box::new(Error::DivideByZero { op: *op }),
                            line,
                            col,
                        })
                    } else if *a == i64::MIN && *b == -1 {
                        Ok(Value::Int(0))
                    } else {
                        match a.checked_rem(*b) {
                            Some(q) => Ok(Value::Int(q)),
                            None => Ok(Value::Int(0)),
                        }
                    }
                },
                _ => Err(new_invalid_op_types(op, lhs, rhs, line, col)),
            }
        },
    }
}

/// An operand-type error for `op` at its own location.
fn new_invalid_op_types(op: &BinaryOp, lhs: &Value, rhs: &Value, line: usize, col: usize) -> (r:
    Error)
    ensures
        r matches Error::AtLoc { source, line: l, col: c } && l == line && c == col && *source
            == (Error::InvalidOpTypes { op: *op, lhs: *lhs, rhs: *rhs }),
{
    Error::AtLoc {
        source: Box::new(Error::InvalidOpTypes { op: *op, lhs: *lhs, rhs: *rhs }),
        line,
        col,
    }
}

/// The name of the implicit receiver binding.
pub open spec fn this_name_spec() -> Seq<u8> {
    seq!['t' as u8, 'h' as u8, 'i' as u8, 's' as u8]
}

/// The name of the implicit receiver binding.
fn this_name() -> (r: Str)
    ensures
        r@ == this_name_spec(),
{
    let r: Str = vec!['t' as u8, 'h' as u8, 'i' as u8, 's' as u8];
    proof {
        assert(r@ =~= this_name_spec());
    }
    r
}

/// Evaluates a whole program: seeds the outermost scope with the global
/// bindings and runs the top-level statements in a fresh scope pushed onto
/// `scopes`.
#[verifier::loop_isolation(false)]
pub fn eval_prog<B: BuiltinHost>(
    context: &mut EvaluationContext<B>,
    heap: &mut Heap,
    scopes: &ScopeStack,
    global_bindings: Vec<(RawExpr, SourcedValue)>,
    prog: &Prog,
    fuel: u64,
) -> (r: Result<(), Error>)
    requires
        old(heap).wf(),
        old(heap).stack_ids_wf(*scopes),
        forall|i: int|
            0 <= i < global_bindings@.len() ==> old(heap).sv_wf(
                (#[trigger] global_bindings@[i]).1,
            ),
    ensures
        final(heap).wf(),
        final(heap).extends(*old(heap)),
        keys_preserved(*old(heap), *final(heap)),
        ({
            let gb = global_bindings@;
            (prog matches Prog::Body { stmts: ss } && ss@.len() == 0 && distinct_var_bindings(gb))
                ==> {
                &&& r is Ok
                &&& final(heap).scopes@.len() == old(heap).scopes@.len() + 1
                &&& ({
                    let f = final(heap).scopes@[old(heap).scopes@.len() as int]@;
                    &&& f.len() == gb.len()
                    &&& forall|j: int|
                        0 <= j < f.len() ==> (#[trigger] f[j]).0@ == binding_name(gb[j]) && f[j].1
                            == gb[j].1
                })
            }
        }),
{
    let ghost gb = global_bindings@;
    let Prog::Body { stmts } = prog;
    let mut rev: Vec<(RawExpr, SourcedValue)> = Vec::new();
    let mut bs = global_bindings;
    loop
        invariant
            heap == old(heap),
            old(heap).wf(),
            old(heap).stack_ids_wf(*scopes),
            bs@.len() + rev@.len() == gb.len(),
            bs@ == gb.take(bs@.len() as int),
            forall|j: int| 0 <= j < rev@.len() ==> #[trigger] rev@[j] == gb[gb.len() - 1 - j],
            forall|i: int| 0 <= i < gb.len() ==> old(heap).sv_wf((#[trigger] gb[i]).1),
        decreases bs@.len(),
    {
        match bs.pop() {
            Some(b) => {
                rev.push(b);
            },
            None => {
                break ;
            },
        }
    }
    let mut targets: Vec<Expr> = Vec::new();
    let mut vals: Vec<SourcedValue> = Vec::new();
    loop
        invariant
            heap == old(heap),
            old(heap).wf(),
            old(heap).stack_ids_wf(*scopes),
            targets@.len() == vals@.len(),
            targets@.len() + rev@.len() == gb.len(),
            forall|j: int| 0 <= j < rev@.len() ==> #[trigger] rev@[j] == gb[gb.len() - 1 - j],
            forall|j: int|
                0 <= j < targets@.len() ==> (#[trigger] targets@[j]).0 == gb[j].0
                    && targets@[j].1 == (0usize, 0usize) && vals@[j] == gb[j].1,
            forall|i: int| 0 <= i < gb.len() ==> old(heap).sv_wf((#[trigger] gb[i]).1),
        decreases rev@.len(),
    {
        match rev.pop() {
            Some((raw, v)) => {
                targets.push(Expr(raw, (0, 0)));
                vals.push(v);
            },
            None => {
                break ;
            },
        }
    }
    let ghost seeding = stmts@.len() == 0 && distinct_var_bindings(gb);
    proof {
        assert forall|i: int| 0 <= i < vals@.len() implies heap.sv_wf(#[trigger] vals@[i]) by {
            assert(targets@[i].0 == gb[i].0);
            assert(vals@[i] == gb[i].1);
            assert(heap.sv_wf(gb[i].1));
        }
        if seeding {
            assert(distinct_var_targets(targets@)) by {
                assert forall|j: int| 0 <= j < targets@.len() implies is_var_target(
                    #[trigger] targets@[j],
                ) by {
                    assert(is_var_binding(gb[j]));
                }
                assert forall|i: int, j: int|
                    0 <= i < j < targets@.len() implies target_name(#[trigger] targets@[i])
                    != target_name(#[trigger] targets@[j]) by {
                    assert(binding_name(gb[i]) != binding_name(gb[j]));
                }
            }
        }
    }
    let res = eval_stmts(context, heap, scopes, &targets, vals, None, stmts, fuel);
    proof {
        if seeding {
            let f = heap.scopes@[old(heap).scopes@.len() as int]@;
            assert forall|j: int| 0 <= j < f.len() implies (#[trigger] f[j]).0@ == binding_name(
                gb[j],
            ) && f[j].1 == gb[j].1 by {
                assert(f[j].0@ == target_name(targets@[j]));
            }
        }
    }
    res
}

/// Evaluates `stmts` in a new scope pushed onto `scopes`, seeded by
/// binding each of `param_targets` to the matching value of `param_vals`,
/// plus the implicit receiver under the name `this` when `this_val` is
/// present.
///
/// For an ordinary parameter list — bare variables with distinct names —
/// the contract pins the seeded frame exactly: it is the fresh frame at
/// index `old(heap).scopes.len()`, holding the parameters in order and
/// the receiver last.
#[verifier::loop_isolation(false)]
pub fn eval_stmts<B: BuiltinHost>(
    context: &mut EvaluationContext<B>,
    heap: &mut Heap,
    scopes: &ScopeStack,
    param_targets: &Vec<Expr>,
    param_vals: Vec<SourcedValue>,
    this_val: Option<SourcedValue>,
    stmts: &Vec<Stmt>,
    fuel: u64,
) -> (r: Result<(), Error>)
    requires
        old(heap).wf(),
        old(heap).stack_ids_wf(*scopes),
        param_targets@.len() == param_vals@.len(),
        forall|i: int| 0 <= i < param_vals@.len() ==> old(heap).sv_wf(#[trigger] param_vals@[i]),
        this_val matches Some(sv) ==> old(heap).sv_wf(sv),
    ensures
        final(heap).wf(),
        final(heap).extends(*old(heap)),
        keys_preserved(*old(heap), *final(heap)),
        (stmts@.len() == 0 && distinct_var_targets(param_targets@) && (this_val is Some
            ==> forall|j: int|
                0 <= j < param_targets@.len() ==> target_name(#[trigger] param_targets@[j])
                    != this_name_spec())) ==> {
            &&& r is Ok
            &&& final(heap).scopes@.len() == old(heap).scopes@.len() + 1
            &&& ({
                let f = final(heap).scopes@[old(heap).scopes@.len() as int]@;
                let n = param_targets@.len() as int;
                &&& forall|j: int|
                    0 <= j < n ==> (#[trigger] f[j]).0@ == target_name(param_targets@[j]) && f[j].1
                        == param_vals@[j]
                &&& match this_val {
                    None => f.len() == n,
                    Some(tv) => f.len() == n + 1 && f[n].0@ == this_name_spec() && f[n].1 == tv,
                }
            })
        },
    decreases fuel, *stmts, 1int,
{
    let ghost h0 = *heap;
    let ghost seeding = stmts@.len() == 0 && distinct_var_targets(param_targets@) && (this_val
        is Some ==> forall|j: int|
        0 <= j < param_targets@.len() ==> target_name(#[trigger] param_targets@[j])
            != this_name_spec());
    let inner_scopes = scopes.new_from_push(heap);
    let ghost h1 = *heap;
    let ghost fresh_fid = inner_scopes.frames@.last() as int;
    proof {
        assert(fresh_fid == h0.scopes@.len());
        lemma_keys_preserved_refl(h1);
        assert(keys_preserved(h0, h1));
    }
    let mut i: usize = 0;
    let n = param_targets.len();
    let vals = param_vals;
    while i < n
        invariant
            i <= n,
            n == param_targets@.len(),
            vals@.len() == n,
            heap.wf(),
            heap.extends(h0),
            heap.extends(h1),
            keys_preserved(h0, *heap),
            heap.stack_ids_wf(inner_scopes),
            inner_scopes.frames@.len() > 0,
            inner_scopes.frames@.last() as int == fresh_fid,
            fresh_fid == h0.scopes@.len(),
            forall|j: int| 0 <= j < vals@.len() ==> h0.sv_wf(#[trigger] vals@[j]),
            seeding ==> {
                let f = heap.scopes@[fresh_fid]@;
                &&& heap.scopes@.len() == h0.scopes@.len() + 1
                &&& f.len() == i
                &&& forall|j: int|
                    0 <= j < i ==> (#[trigger] f[j]).0@ == target_name(param_targets@[j])
                        && f[j].1 == vals@[j]
            },
        decreases n - i,
    {
        let ghost pre = *heap;
        proof {
            lemma_extends_sv_wf(*heap, h0, vals@[i as int]);
        }
        let res = bind::bind(&inner_scopes, heap, &param_targets[i], vals[i], BindType::Declaration);
        proof {
            lemma_extends_trans(*heap, pre, h0);
            lemma_extends_trans(*heap, pre, h1);
            if seeding {
                let f = pre.scopes@[fresh_fid]@;
                match param_targets@[i as int].0 {
                    RawExpr::Var { name: nm } => {
                        assert(!scope::frame_has(f, nm@)) by {
                            scope::lemma_frame_key_at(f, nm@);
                            if scope::frame_has(f, nm@) {
                                let k = scope::frame_key_at(f, nm@);
                                assert(f[k].0@ == target_name(param_targets@[k]));
                                assert(target_name(param_targets@[k]) != target_name(
                                    param_targets@[i as int],
                                ));
                            }
                        }
                        assert(res is Ok);
                        assert(heap.scopes@[fresh_fid]@ == f.push(
                            heap.scopes@[fresh_fid]@.last(),
                        )) by {
                            assert(heap.scopes@[fresh_fid]@ =~= f.push(
                                heap.scopes@[fresh_fid]@.last(),
                            ));
                        }
                    },
                    _ => {
                        assert(false);
                    },
                }
            }
            assert(keys_preserved(h0, *heap)) by {
                assert(keys_preserved_except(pre, *heap, fresh_fid));
                assert forall|fid: int|
                    0 <= fid < h0.scopes@.len() implies scope::frame_keys(
                    (#[trigger] heap.scopes@[fid])@,
                ) == scope::frame_keys(h0.scopes@[fid]@) by {
                    assert(scope::frame_keys(heap.scopes@[fid]@) == scope::frame_keys(
                        pre.scopes@[fid]@,
                    ));
                    assert(scope::frame_keys(pre.scopes@[fid]@) == scope::frame_keys(
                        h0.scopes@[fid]@,
                    ));
                }
            }
        }
        match res {
            Ok(()) => {},
            Err(e) => {
                return Err(e);
            },
        }
        i = i + 1;
    }
    match this_val {
        Some(tv) => {
            let ghost pre = *heap;
            proof {
                lemma_extends_sv_wf(*heap, h0, tv);
                if seeding {
                    let f = pre.scopes@[fresh_fid]@;
                    assert(!scope::frame_has(f, this_name_spec())) by {
                        scope::lemma_frame_key_at(f, this_name_spec());
                        if scope::frame_has(f, this_name_spec()) {
                            let k = scope::frame_key_at(f, this_name_spec());
                            assert(f[k].0@ == target_name(param_targets@[k]));
                        }
                    }
                }
            }
            let res = bind::bind_name(
                &inner_scopes,
                heap,
                this_name(),
                (0, 0),
                tv,
                BindType::Declaration,
            );
            proof {
                lemma_extends_trans(*heap, pre, h0);
                lemma_extends_trans(*heap, pre, h1);
                if seeding {
                    assert(res is Ok);
                    assert(heap.scopes@[fresh_fid]@ =~= pre.scopes@[fresh_fid]@.push(
                        heap.scopes@[fresh_fid]@.last(),
                    ));
                }
                assert(keys_preserved(h0, *heap)) by {
                    assert(keys_preserved_except(pre, *heap, fresh_fid));
                    assert forall|fid: int|
                        0 <= fid < h0.scopes@.len() implies scope::frame_keys(
                        (#[trigger] heap.scopes@[fid])@,
                    ) == scope::frame_keys(h0.scopes@[fid]@) by {
                        assert(scope::frame_keys(heap.scopes@[fid]@) == scope::frame_keys(
                            pre.scopes@[fid]@,
                        ));
                        assert(scope::frame_keys(pre.scopes@[fid]@) == scope::frame_keys(
                            h0.scopes@[fid]@,
                        ));
                    }
                }
            }
            match res {
                Ok(()) => {},
                Err(e) => {
                    return Err(e);
                },
            }
        },
        None => {},
    }
    let ghost pre2 = *heap;
    let res = eval_stmts_with_scope_stack(context, heap, &inner_scopes, stmts, fuel);
    proof {
        if seeding {
            assert(*heap == pre2);
            assert(res is Ok);
        }
        lemma_extends_trans(*heap, pre2, h0);
        assert(keys_preserved(h0, *heap)) by {
            assert(keys_preserved_except(pre2, *heap, fresh_fid));
            assert forall|fid: int|
                0 <= fid < h0.scopes@.len() implies scope::frame_keys(
                (#[trigger] heap.scopes@[fid])@,
            ) == scope::frame_keys(h0.scopes@[fid]@) by {
                assert(scope::frame_keys(heap.scopes@[fid]@) == scope::frame_keys(
                    pre2.scopes@[fid]@,
                ));
                assert(scope::frame_keys(pre2.scopes@[fid]@) == scope::frame_keys(
                    h0.scopes@[fid]@,
                ));
            }
        }
    }
    res
}

/// Evaluates `stmts` one after the other against an existing scope stack.
#[verifier::loop_isolation(false)]
#[verifier::loop_isolation(false)]
pub fn eval_stmts_with_scope_stack<B: BuiltinHost>(
    context: &mut EvaluationContext<B>,
    heap: &mut Heap,
    scopes: &ScopeStack,
    stmts: &Vec<Stmt>,
    fuel: u64,
) -> (r: Result<(), Error>)
    requires
        old(heap).wf(),
        old(heap).stack_ids_wf(*scopes),
        scopes.frames@.len() > 0,
    ensures
        final(heap).wf(),
        final(heap).extends(*old(heap)),
        keys_preserved_except(*old(heap), *final(heap), scopes.frames@.last() as int),
        stmts@.len() == 0 ==> r is Ok && *final(heap) == *old(heap),
        r is Ok ==> forall|j: int, nm: Seq<u8>|
            0 <= j < stmts@.len() && #[trigger] declares_var(stmts@[j], nm) ==> scope::frame_has(
                final(heap).scopes@[scopes.frames@.last() as int]@,
                nm,
            ),
    decreases fuel, *stmts, 0int,
{
    let ghost h0 = *heap;
    let ghost fid_ex = scopes.frames@.last() as int;
    proof {
        lemma_keys_preserved_refl(h0);
        lemma_keys_preserved_to_except(h0, h0, fid_ex);
        lemma_extends_refl(h0);
    }
    let mut i: usize = 0;
    while i < stmts.len()
        invariant
            i <= stmts@.len(),
            heap.wf(),
            heap.extends(h0),
            keys_preserved_except(h0, *heap, fid_ex),
            heap.stack_ids_wf(*scopes),
            scopes.frames@.len() > 0,
            fid_ex == scopes.frames@.last() as int,
            i == 0 ==> *heap == h0,
            forall|j: int, nm: Seq<u8>|
                0 <= j < i && #[trigger] declares_var(stmts@[j], nm) ==> scope::frame_has(
                    heap.scopes@[fid_ex]@,
                    nm,
                ),
        decreases stmts@.len() - i,
    {
        let ghost pre = *heap;
        let res = eval_stmt(context, heap, scopes, &stmts[i], fuel);
        proof {
            lemma_extends_trans(*heap, pre, h0);
            lemma_keys_except_trans(h0, pre, *heap, fid_ex);
            scope::lemma_frame_has_prefix(pre.scopes@[fid_ex]@, heap.scopes@[fid_ex]@);
        }
        match res {
            Ok(()) => {},
            Err(e) => {
                return Err(e);
            },
        }
        i = i + 1;
    }
    Ok(())
}

/// Evaluates `stmts` in a freshly pushed scope with no bindings pre-seeded.
pub fn eval_stmts_in_new_scope<B: BuiltinHost>(
    context: &mut EvaluationContext<B>,
    heap: &mut Heap,
    outer_scopes: &ScopeStack,
    stmts: &Vec<Stmt>,
    fuel: u64,
) -> (r: Result<(), Error>)
    requires
        old(heap).wf(),
        old(heap).stack_ids_wf(*outer_scopes),
    ensures
        final(heap).wf(),
        final(heap).extends(*old(heap)),
        keys_preserved(*old(heap), *final(heap)),
        stmts@.len() == 0 ==> r is Ok && final(heap).scopes@.len() == old(heap).scopes@.len() + 1,
    decreases fuel, *stmts, 2int,
{
    let targets: Vec<Expr> = Vec::new();
    let vals: Vec<SourcedValue> = Vec::new();
    eval_stmts(context, heap, outer_scopes, &targets, vals, None, stmts, fuel)
}

/// Evaluates one statement.
///
/// A `Block` runs its statements in a fresh scope; `Declare` and `Assign`
/// evaluate their right-hand side and bind the target pattern; a `Func`
/// definition captures the current scope chain as its closure and declares
/// the function under its name in the current scope, so the name is
/// visible inside its own body.
///
/// For a bare-variable target the contract is exact wherever the
/// right-hand side is heap-neutral (see [`simple_eval`]): a declaration
/// binds the name to exactly that value and disturbs no other name, a
/// redeclaration in the innermost scope fails with the located
/// redeclaration error, and an assignment updates exactly the nearest
/// binding or fails with the located undefined-name error.
pub fn eval_stmt<B: BuiltinHost>(
    context: &mut EvaluationContext<B>,
    heap: &mut Heap,
    scopes: &ScopeStack,
    stmt: &Stmt,
    fuel: u64,
) -> (r: Result<(), Error>)
    requires
        old(heap).wf(),
        old(heap).stack_ids_wf(*scopes),
        scopes.frames@.len() > 0,
    ensures
        final(heap).wf(),
        final(heap).extends(*old(heap)),
        keys_preserved_except(*old(heap), *final(heap), scopes.frames@.last() as int),
        stmt matches Stmt::Block { .. } ==> keys_preserved(*old(heap), *final(heap)),
        ({
            match *stmt {
                Stmt::Declare { lhs: ref lhs2, .. } => match lhs2.0 {
                    RawExpr::Var { name: ref nm } => {
                        &&& r is Ok ==> stack_lookup(
                            scopes.frames@,
                            final(heap).scopes@,
                            nm@,
                        ) is Some && scope::frame_has(
                            final(heap).scopes@[scopes.frames@.last() as int]@,
                            nm@,
                        )
                        &&& scope::frame_has(
                            old(heap).scopes@[scopes.frames@.last() as int]@,
                            nm@,
                        ) ==> r is Err
                    },
                    _ => true,
                },
                Stmt::Assign { lhs: ref lhs2, .. } => match lhs2.0 {
                    RawExpr::Var { name: ref nm } => {
                        &&& r is Ok ==> stack_lookup(
                            scopes.frames@,
                            final(heap).scopes@,
                            nm@,
                        ) is Some
                        &&& stack_target(scopes.frames@, old(heap).scopes@, nm@) < 0 ==> r is Err
                    },
                    _ => true,
                },
                _ => true,
            }
        }),
        ({
            let chain = scopes.frames@;
            let fid = chain.last() as int;
            match *stmt {
                Stmt::Declare { lhs: ref lhs2, rhs: ref rhs2 } => match lhs2.0 {
                    RawExpr::Var { name: ref nm } => match simple_eval(
                        chain,
                        old(heap).scopes@,
                        rhs2.0,
                    ) {
                        Some(v) => fuel > 0 ==> {
                            if scope::frame_has(old(heap).scopes@[fid]@, nm@) {
                                &&& r matches Err(e) && e matches Error::AtLoc {
                                    source,
                                    line,
                                    col,
                                } && *source matches Error::AlreadyInScope { name: n } && n@ == nm@
                                    && line == lhs2.1.0 && col == lhs2.1.1
                                &&& *final(heap) == *old(heap)
                            } else {
                                &&& r is Ok
                                &&& stack_lookup(chain, final(heap).scopes@, nm@) == Some(v)
                                &&& forall|other: Seq<u8>|
                                    other != nm@ ==> #[trigger] stack_lookup(
                                        chain,
                                        final(heap).scopes@,
                                        other,
                                    ) == stack_lookup(chain, old(heap).scopes@, other)
                            }
                        },
                        None => true,
                    },
                    _ => true,
                },
                Stmt::Assign { lhs: ref lhs2, rhs: ref rhs2 } => match lhs2.0 {
                    RawExpr::Var { name: ref nm } => match simple_eval(
                        chain,
                        old(heap).scopes@,
                        rhs2.0,
                    ) {
                        Some(v) => fuel > 0 ==> {
                            if stack_target(chain, old(heap).scopes@, nm@) >= 0 {
                                &&& r is Ok
                                &&& stack_lookup(chain, final(heap).scopes@, nm@) == Some(v)
                                &&& forall|other: Seq<u8>|
                                    other != nm@ ==> #[trigger] stack_lookup(
                                        chain,
                                        final(heap).scopes@,
                                        other,
                                    ) == stack_lookup(chain, old(heap).scopes@, other)
                            } else {
                                &&& r matches Err(e) && e matches Error::AtLoc {
                                    source,
                                    line,
                                    col,
                                } && *source matches Error::Undefined { name: n } && n@ == nm@
                                    && line == lhs2.1.0 && col == lhs2.1.1
                                &&& *final(heap) == *old(heap)
                            }
                        },
                        None => true,
                    },
                    _ => true,
                },
                _ => true,
            }
        }),
        ({
            match *stmt {
                Stmt::Func { name: ref nm_loc, args: ref fargs, stmts: ref fstmts } => {
                    if scope::frame_has(
                        old(heap).scopes@[scopes.frames@.last() as int]@,
                        nm_loc.0@,
                    ) {
                        r matches Err(e) && e matches Error::AtLoc { source, .. }
                            && *source matches Error::AlreadyInScope { name: n } && n@ == nm_loc.0@
                    } else {
                        &&& r is Ok
                        &&& final(heap).funcs@.len() == old(heap).funcs@.len() + 1
                        &&& final(heap).funcs@.last().closure.frames@ == scopes.frames@
                        &&& final(heap).funcs@.last().args == *fargs
                        &&& final(heap).funcs@.last().stmts == *fstmts
                        &&& final(heap).funcs@.last().collect_args == false
                        &&& final(heap).funcs@.last().name matches Some(n) && n@ == nm_loc.0@
                        &&& stack_lookup(scopes.frames@, final(heap).scopes@, nm_loc.0@)
                            == Some(
                            SourcedValue {
                                v: Value::Func(old(heap).funcs@.len() as FuncRef),
                                source: None,
                            },
                        )
                    }
                },
                _ => true,
            }
        }),
    decreases fuel, *stmt, 0int,
{
    let ghost h0 = *heap;
    let ghost fid_ex = scopes.frames@.last() as int;
    match stmt {
        Stmt::Block { block } => {
            let res = eval_stmts_in_new_scope(context, heap, scopes, block, fuel);
            proof {
                lemma_keys_preserved_to_except(h0, *heap, fid_ex);
            }
            res
        },
        Stmt::Expr { expr } => {
            if fuel == 0 {
                proof {
                    lemma_extends_refl(h0);
                    lemma_keys_preserved_refl(h0);
                    lemma_keys_preserved_to_except(h0, h0, fid_ex);
                }
                return Err(Error::OutOfFuel);
            }
            let res = eval_expr(context, heap, scopes, expr, fuel - 1);
            proof {
                lemma_keys_preserved_to_except(h0, *heap, fid_ex);
            }
            match res {
                Ok(_) => Ok(()),
                Err(e) => Err(e),
            }
        },
        Stmt::Declare { lhs, rhs } => {
            if fuel == 0 {
                proof {
                    lemma_extends_refl(h0);
                    lemma_keys_preserved_refl(h0);
                    lemma_keys_preserved_to_except(h0, h0, fid_ex);
                }
                return Err(Error::OutOfFuel);
            }
            let ghost chain = scopes.frames@;
            let v = match eval_expr(context, heap, scopes, rhs, fuel - 1) {
                Ok(v) => v,
                Err(e) => {
                    proof {
                        lemma_keys_preserved_to_except(h0, *heap, fid_ex);
                        match lhs.0 {
                            RawExpr::Var { name: ref nm } => {
                                if simple_eval(chain, h0.scopes@, rhs.0) is Some {
                                    assert(false);
                                }
                            },
                            _ => {},
                        }
                    }
                    return Err(e);
                },
            };
            let ghost pre = *heap;
            let res = bind::bind(scopes, heap, lhs, v, BindType::Declaration);
            proof {
                lemma_extends_trans(*heap, pre, h0);
                lemma_keys_preserved_then_except(h0, pre, *heap, fid_ex);
                match lhs.0 {
                    RawExpr::Var { name: ref nm } => {
                        crate::laws::lemma_frame_key_at_from_keys(
                            pre.scopes@[fid_ex]@,
                            h0.scopes@[fid_ex]@,
                        );
                        if res is Ok {
                            let oldf = pre.scopes@[fid_ex]@;
                            let newf = heap.scopes@[fid_ex]@;
                            let entry = newf.last();
                            assert(newf =~= oldf.push(entry));
                            scope::lemma_frame_key_at_push(oldf, nm@, entry);
                            assert(scope::frame_has(newf, nm@));
                            if simple_eval(chain, h0.scopes@, rhs.0) is Some {
                                assert(pre == h0);
                                assert(v == simple_eval(chain, h0.scopes@, rhs.0)->Some_0);
                                crate::laws::lemma_push_entry_other_names(
                                    chain,
                                    pre.scopes@,
                                    heap.scopes@,
                                    entry,
                                );
                            }
                        } else {
                            if simple_eval(chain, h0.scopes@, rhs.0) is Some {
                                assert(pre == h0);
                            }
                        }
                    },
                    _ => {},
                }
            }
            res
        },
        Stmt::Assign { lhs, rhs } => {
            if fuel == 0 {
                proof {
                    lemma_extends_refl(h0);
                    lemma_keys_preserved_refl(h0);
                    lemma_keys_preserved_to_except(h0, h0, fid_ex);
                }
                return Err(Error::OutOfFuel);
            }
            let ghost chain = scopes.frames@;
            let v = match eval_expr(context, heap, scopes, rhs, fuel - 1) {
                Ok(v) => v,
                Err(e) => {
                    proof {
                        lemma_keys_preserved_to_except(h0, *heap, fid_ex);
                        match lhs.0 {
                            RawExpr::Var { name: ref nm } => {
                                if simple_eval(chain, h0.scopes@, rhs.0) is Some {
                                    assert(false);
                                }
                            },
                            _ => {},
                        }
                    }
                    return Err(e);
                },
            };
            let ghost pre = *heap;
            let res = bind::bind(scopes, heap, lhs, v, BindType::Assignment);
            proof {
                lemma_extends_trans(*heap, pre, h0);
                lemma_keys_preserved_then_except(h0, pre, *heap, fid_ex);
                match lhs.0 {
                    RawExpr::Var { name: ref nm } => {
                        assert forall|fid: int|
                            0 <= fid < h0.scopes@.len() implies scope::frame_key_at(
                            (#[trigger] pre.scopes@[fid])@,
                            nm@,
                        ) == scope::frame_key_at(h0.scopes@[fid]@, nm@) by {
                            crate::laws::lemma_frame_key_at_from_keys(
                                pre.scopes@[fid]@,
                                h0.scopes@[fid]@,
                            );
                        }
                        scope::lemma_stack_target_frame_update(chain, h0.scopes@, pre.scopes@, nm@);
                        if simple_eval(chain, h0.scopes@, rhs.0) is Some {
                            assert(pre == h0);
                            assert(v == simple_eval(chain, h0.scopes@, rhs.0)->Some_0);
                            if stack_target(chain, pre.scopes@, nm@) >= 0 {
                                crate::laws::lemma_update_entry_other_names(
                                    chain,
                                    pre.scopes@,
                                    heap.scopes@,
                                    nm@,
                                    v,
                                );
                            }
                        }
                    },
                    _ => {},
                }
            }
            res
        },
        Stmt::Func { name: name_loc, args, stmts } => {
            let (name, loc) = name_loc;
            let closure = scopes.snapshot();
            let func = new_func(
                heap,
                Some(clone_bytes(name)),
                rc_clone(args),
                false,
                rc_clone(stmts),
                closure,
            );
            let ghost pre = *heap;
            let res = bind::bind_name(
                scopes,
                heap,
                clone_bytes(name),
                *loc,
                func,
                BindType::Declaration,
            );
            proof {
                lemma_extends_trans(*heap, pre, h0);
                lemma_keys_preserved_then_except(h0, pre, *heap, fid_ex);
                assert(pre.scopes@[fid_ex]@ == h0.scopes@[fid_ex]@);
            }
            match res {
                Ok(()) => Ok(()),
                Err(e) => Err(e),
            }
        },
    }
}

/// Evaluates one expression to a sourced value.
///
/// Literals build fresh values; a variable resolves through the scope
/// chain, innermost scope first; a binary operation evaluates its left
/// then right operand and applies the operator; list and object
/// constructions evaluate their parts in order into a fresh shared
/// container; a call evaluates its arguments, then its callee, and
/// dispatches on the callee's kind.
///
/// Wherever the expression is heap-neutral the result is pinned to
/// [`simple_eval`]; for a call whose callee and arguments are
/// heap-neutral, the contract states the arity error, the non-callable
/// error, the null result of a successful user-function call, and the
/// wrapping of a failed builtin call.
#[verifier::rlimit(80)]
#[verifier::loop_isolation(false)]
pub fn eval_expr<B: BuiltinHost>(
    context: &mut EvaluationContext<B>,
    heap: &mut Heap,
    scopes: &ScopeStack,
    expr: &Expr,
    fuel: u64,
) -> (r: Result<SourcedValue, Error>)
    requires
        old(heap).wf(),
        old(heap).stack_ids_wf(*scopes),
    ensures
        final(heap).wf(),
        final(heap).extends(*old(heap)),
        final(heap).stack_ids_wf(*scopes),
        keys_preserved(*old(heap), *final(heap)),
        r matches Ok(sv) ==> final(heap).sv_wf(sv),
        ({
            match expr.0 {
                RawExpr::Null => r == Result::<SourcedValue, Error>::Ok(
                    SourcedValue { v: Value::Null, source: None },
                ) && *final(heap) == *old(heap),
                RawExpr::Bool { b } => r == Result::<SourcedValue, Error>::Ok(
                    SourcedValue { v: Value::Bool(b), source: None },
                ) && *final(heap) == *old(heap),
                RawExpr::Int { n } => r == Result::<SourcedValue, Error>::Ok(
                    SourcedValue { v: Value::Int(n), source: None },
                ) && *final(heap) == *old(heap),
                RawExpr::Str { s: ref sl } => {
                    &&& final(heap).strs@.len() == old(heap).strs@.len() + 1
                    &&& final(heap).strs@.last()@ == sl@
                    &&& final(heap).lists == old(heap).lists
                    &&& final(heap).objects == old(heap).objects
                    &&& final(heap).funcs == old(heap).funcs
                    &&& final(heap).scopes == old(heap).scopes
                    &&& r == Result::<SourcedValue, Error>::Ok(
                        SourcedValue { v: Value::Str(old(heap).strs@.len() as StrRef), source: None },
                    )
                },
                RawExpr::List { items: ref its } => r matches Ok(sv) ==> {
                    &&& sv.source is None
                    &&& final(heap).lists@.len() > old(heap).lists@.len()
                    &&& sv.v == Value::List((final(heap).lists@.len() - 1) as ListRef)
                    &&& final(heap).lists@.last()@.len() == its@.len()
                },
                RawExpr::Object { .. } => r matches Ok(sv) ==> {
                    &&& sv.source is None
                    &&& final(heap).objects@.len() > old(heap).objects@.len()
                    &&& sv.v == Value::Object((final(heap).objects@.len() - 1) as ObjectRef)
                },
                RawExpr::Var { name: ref nm } => match stack_lookup(
                    scopes.frames@,
                    old(heap).scopes@,
                    nm@,
                ) {
                    Some(v) => r == Result::<SourcedValue, Error>::Ok(v) && *final(heap) == *old(
                        heap,
                    ),
                    None => {
                        &&& r matches Err(e) && e matches Error::AtLoc { source, line, col }
                            && *source matches Error::Undefined { name: n2 } && n2@ == nm@ && line
                            == expr.1.0 && col == expr.1.1
                        &&& *final(heap) == *old(heap)
                    },
                },
                _ => true,
            }
        }),
        simple_eval(scopes.frames@, old(heap).scopes@, expr.0) matches Some(v) ==> r
            == Result::<SourcedValue, Error>::Ok(v) && *final(heap) == *old(heap),
        ({
            match expr.0 {
                RawExpr::Call { func: fe, args: ars } => match simple_eval(
                    scopes.frames@,
                    old(heap).scopes@,
                    fe.0,
                ) {
                    Some(fv) => all_simple(scopes.frames@, old(heap).scopes@, ars@)
                        ==> match fv.v {
                        Value::Func(fr) => {
                            let need = old(heap).funcs@[fr as int].args@.len();
                            if ars@.len() != need {
                                &&& r matches Err(e) && e matches Error::AtLoc {
                                    source,
                                    line,
                                    col,
                                } && *source matches Error::ArgNumMismatch { need: nd, got: gt }
                                    && nd as int == need && gt == ars@.len() && line == expr.1.0
                                    && col == expr.1.1
                                &&& *final(heap) == *old(heap)
                            } else {
                                r matches Ok(sv) ==> sv == (SourcedValue {
                                    v: Value::Null,
                                    source: None,
                                })
                            }
                        },
                        Value::BuiltinFunc { name } => r matches Err(e) ==> {
                            &&& e matches Error::EvalBuiltinFuncCallFailed {
                                source,
                                func_name,
                                call_loc,
                            } && call_loc == expr.1 && (func_name matches Some(n) && n@ == old(
                                heap,
                            ).strs@[name as int]@)
                        },
                        _ => {
                            &&& r matches Err(e) && e matches Error::AtLoc { source, line, col }
                                && *source == (Error::CannotCallNonFunc { v: fv.v }) && line
                                == expr.1.0 && col == expr.1.1
                            &&& *final(heap) == *old(heap)
                        },
                    },
                    None => true,
                },
                _ => true,
            }
        }),
    decreases fuel, *expr, 0int,
{
    let ghost h0 = *heap;
    let Expr(raw_expr, loc) = expr;
    let (line, col) = *loc;
    proof {
        lemma_extends_refl(h0);
        lemma_keys_preserved_refl(h0);
    }
    match raw_expr {
        RawExpr::Null => Ok(new_null()),
        RawExpr::Bool { b } => Ok(value::new_bool(*b)),
        RawExpr::Int { n } => Ok(value::new_int(*n)),
        RawExpr::Str { s } => Ok(new_str(heap, clone_bytes(s))),
        RawExpr::Var { name } => {
            match scopes.get(heap, name) {
                Some(v) => Ok(v),
                None => Err(Error::AtLoc {
                    source: Box::new(Error::Undefined { name: clone_bytes(name) }),
                    line,
                    col,
                }),
            }
        },
        RawExpr::BinaryOp { op, op_loc, lhs, rhs } => {
            let ghost chain = scopes.frames@;
            let ghost se = simple_eval(chain, h0.scopes@, expr.0);
            // The left operand's value is extracted into an owned copy
            // before the right operand is evaluated and read: the two may
            // be handles to the identical shared container, and one access
            // must be complete before the other begins.
            let lhs_val = match eval_expr(context, heap, scopes, lhs, fuel) {
                Ok(v) => v,
                Err(e) => {
                    proof {
                        if se is Some {
                            assert(simple_eval(chain, h0.scopes@, lhs.0) is Some);
                            assert(false);
                        }
                    }
                    return Err(e);
                },
            };
            let ghost h1 = *heap;
            let rhs_val = match eval_expr(context, heap, scopes, rhs, fuel) {
                Ok(v) => v,
                Err(e) => {
                    proof {
                        lemma_extends_trans(*heap, h1, h0);
                        lemma_keys_preserved_trans(h0, h1, *heap);
                        if se is Some {
                            assert(simple_eval(chain, h0.scopes@, lhs.0) is Some);
                            assert(h1 == h0);
                            assert(simple_eval(chain, h1.scopes@, rhs.0) is Some);
                            assert(false);
                        }
                    }
                    return Err(e);
                },
            };
            let ghost h2 = *heap;
            proof {
                lemma_extends_trans(h2, h1, h0);
                lemma_keys_preserved_trans(h0, h1, h2);
                lemma_extends_sv_wf(h2, h1, lhs_val);
                if se is Some {
                    assert(simple_eval(chain, h0.scopes@, lhs.0) is Some);
                    assert(h1 == h0);
                    assert(simple_eval(chain, h1.scopes@, rhs.0) is Some);
                    assert(h2 == h0);
                }
            }
            let v = match apply_binary_operation(heap, op, op_loc, &lhs_val.v, &rhs_val.v) {
                Ok(v) => v,
                Err(e) => {
                    proof {
                        lemma_extends_trans(*heap, h2, h0);
                        assert(keys_preserved(h2, *heap));
                        lemma_keys_preserved_trans(h0, h2, *heap);
                        if se is Some {
                            assert(false);
                        }
                    }
                    return Err(e);
                },
            };
            proof {
                lemma_extends_trans(*heap, h2, h0);
                assert(keys_preserved(h2, *heap));
                lemma_keys_preserved_trans(h0, h2, *heap);
            }
            let result = Ok(new_val_ref_with_no_source(v));
            proof {
                if se is Some {
                    assert(*heap == h0);
                    assert(result == Result::<SourcedValue, Error>::Ok(se->Some_0));
                }
            }
            result
        },
        RawExpr::List { items } => {
            let mut vals: Vec<SourcedValue> = Vec::new();
            let mut i: usize = 0;
            while i < items.len()
                invariant
                    i <= items@.len(),
                    vals@.len() == i,
                    heap.wf(),
                    heap.extends(h0),
                    keys_preserved(h0, *heap),
                    heap.stack_ids_wf(*scopes),
                    forall|j: int| 0 <= j < vals@.len() ==> heap.sv_wf(#[trigger] vals@[j]),
                decreases items@.len() - i,
            {
                let ghost pre = *heap;
                let v = match eval_expr(context, heap, scopes, &items[i], fuel) {
                    Ok(v) => v,
                    Err(e) => {
                        proof {
                            lemma_extends_trans(*heap, pre, h0);
                            lemma_keys_preserved_trans(h0, pre, *heap);
                        }
                        return Err(e);
                    },
                };
                proof {
                    lemma_extends_trans(*heap, pre, h0);
                    lemma_keys_preserved_trans(h0, pre, *heap);
                    assert forall|j: int| 0 <= j < vals@.len() implies heap.sv_wf(
                        #[trigger] vals@[j],
                    ) by {
                        lemma_extends_sv_wf(*heap, pre, vals@[j]);
                    }
                }
                vals.push(v);
                i = i + 1;
            }
            Ok(new_list(heap, vals))
        },
        RawExpr::Object { props } => {
            let mut object: Object = Vec::new();
            let mut i: usize = 0;
            while i < props.len()
                invariant
                    i <= props@.len(),
                    heap.wf(),
                    heap.extends(h0),
                    keys_preserved(h0, *heap),
                    heap.stack_ids_wf(*scopes),
                    value::sorted_keys(object@),
                    forall|j: int|
                        0 <= j < object@.len() ==> heap.sv_wf((#[trigger] object@[j]).1),
                decreases props@.len() - i,
            {
                let PropItem::Pair { name: name_expr, value: value_expr } = &props[i];
                let ghost pre = *heap;
                let descr = prop_name_descr();
                let name = match eval_expr_to_str(
                    context,
                    heap,
                    scopes,
                    &descr,
                    name_expr,
                    fuel,
                ) {
                    Ok(s) => s,
                    Err(e) => {
                        proof {
                            lemma_extends_trans(*heap, pre, h0);
                            lemma_keys_preserved_trans(h0, pre, *heap);
                        }
                        return Err(e);
                    },
                };
                let ghost pre2 = *heap;
                let v = match eval_expr(context, heap, scopes, value_expr, fuel) {
                    Ok(v) => v,
                    Err(e) => {
                        proof {
                            lemma_extends_trans(*heap, pre2, pre);
                            lemma_extends_trans(*heap, pre, h0);
                            lemma_keys_preserved_trans(pre, pre2, *heap);
                            lemma_keys_preserved_trans(h0, pre, *heap);
                        }
                        return Err(e);
                    },
                };
                proof {
                    lemma_extends_trans(*heap, pre2, pre);
                    lemma_extends_trans(*heap, pre, h0);
                    lemma_keys_preserved_trans(pre, pre2, *heap);
                    lemma_keys_preserved_trans(h0, pre, *heap);
                    assert forall|j: int| 0 <= j < object@.len() implies heap.sv_wf(
                        (#[trigger] object@[j]).1,
                    ) by {
                        lemma_extends_sv_wf(*heap, pre, object@[j].1);
                    }
                }
                let ghost before = object@;
                let ghost keyv = name@;
                object_insert_entry(&mut object, name, v);
                proof {
                    scope::lemma_frame_key_at(before, keyv);
                    let k = scope::frame_key_at(before, keyv);
                    if k >= 0 {
                        assert forall|j: int| 0 <= j < object@.len() implies heap.sv_wf(
                            (#[trigger] object@[j]).1,
                        ) by {
                            if j != k {
                                assert(object@[j] == before[j]);
                            }
                        }
                    } else {
                        let p = value::obj_insert_pos(before, keyv);
                        value::lemma_obj_insert_pos(before, keyv);
                        assert forall|j: int| 0 <= j < object@.len() implies heap.sv_wf(
                            (#[trigger] object@[j]).1,
                        ) by {
                            if j < p {
                                assert(object@[j] == before[j]);
                            } else if j > p {
                                assert(object@[j] == before[j - 1]);
                            }
                        }
                    }
                }
                i = i + 1;
            }
            Ok(new_object(heap, object))
        },
        RawExpr::Call { func, args } => {
            let ghost chain = scopes.frames@;
            let ghost fse = simple_eval(chain, h0.scopes@, func.0);
            let ghost argss = all_simple(chain, h0.scopes@, args@);
            let arg_vals = match eval_exprs(context, heap, scopes, args, fuel) {
                Ok(v) => v,
                Err(e) => {
                    proof {
                        if argss {
                            assert(false);
                        }
                    }
                    return Err(e);
                },
            };
            let ghost h1 = *heap;
            let func_val = match eval_expr(context, heap, scopes, func, fuel) {
                Ok(v) => v,
                Err(e) => {
                    proof {
                        lemma_extends_trans(*heap, h1, h0);
                        lemma_keys_preserved_trans(h0, h1, *heap);
                        if fse is Some && argss {
                            assert(h1 == h0);
                            assert(simple_eval(chain, h1.scopes@, func.0) is Some);
                            assert(false);
                        }
                    }
                    return Err(e);
                },
            };
            let ghost h2 = *heap;
            proof {
                lemma_extends_trans(h2, h1, h0);
                lemma_keys_preserved_trans(h0, h1, h2);
                if fse is Some && argss {
                    assert(h1 == h0);
                    assert(simple_eval(chain, h1.scopes@, func.0) is Some);
                    assert(h2 == h0);
                    assert(func_val == fse->Some_0);
                }
            }
            let arg_vals = {
                let ghost avs = arg_vals@;
                proof {
                    assert forall|j: int| 0 <= j < avs.len() implies h2.sv_wf(
                        #[trigger] avs[j],
                    ) by {
                        lemma_extends_sv_wf(h2, h1, avs[j]);
                    }
                }
                arg_vals
            };
            match func_val.v {
                Value::BuiltinFunc { name } => {
                    let name_bytes = clone_bytes(&heap.strs[name]);
                    proof {
                        if fse is Some && argss {
                            assert(name_bytes@ == h0.strs@[name as int]@);
                        }
                    }
                    let this = match func_val.source {
                        Some(s) => Some(new_val_ref_with_no_source(s)),
                        None => None,
                    };
                    let ghost pre = *heap;
                    let res = context.builtins.call_builtin(heap, &name_bytes, this, arg_vals);
                    proof {
                        lemma_extends_trans(*heap, pre, h0);
                        assert(keys_preserved(pre, *heap));
                        lemma_keys_preserved_trans(h0, pre, *heap);
                    }
                    match res {
                        Ok(v) => Ok(v),
                        Err(e) => Err(Error::EvalBuiltinFuncCallFailed {
                            source: Box::new(e),
                            func_name: Some(name_bytes),
                            call_loc: (line, col),
                        }),
                    }
                },
                Value::Func(fr) => {
                    let f_args = rc_clone(&heap.funcs[fr].args);
                    let f_stmts = rc_clone(&heap.funcs[fr].stmts);
                    let f_closure = heap.funcs[fr].closure.snapshot();
                    let f_name = match &heap.funcs[fr].name {
                        Some(n) => Some(clone_bytes(n)),
                        None => None,
                    };
                    let need = f_args.len();
                    let got = arg_vals.len();
                    if got != need {
                        proof {
                            if fse is Some && argss {
                                assert(*heap == h0);
                                assert(f_args == h0.funcs@[fr as int].args);
                            }
                        }
                        return Err(Error::AtLoc {
                            source: Box::new(Error::ArgNumMismatch { need, got }),
                            line,
                            col,
                        });
                    }
                    if fuel == 0 {
                        return Err(Error::OutOfFuel);
                    }
                    let this = match func_val.source {
                        Some(s) => Some(new_val_ref_with_no_source(s)),
                        None => None,
                    };
                    proof {
                        assert(h2.func_wf(h2.funcs@[fr as int]));
                        assert(h2.stack_ids_wf(f_closure));
                    }
                    let ghost pre = *heap;
                    let res = eval_stmts(
                        context,
                        heap,
                        &f_closure,
                        &f_args,
                        arg_vals,
                        this,
                        &f_stmts,
                        fuel - 1,
                    );
                    proof {
                        lemma_extends_trans(*heap, pre, h0);
                        lemma_keys_preserved_trans(h0, pre, *heap);
                    }
                    match res {
                        Ok(()) => Ok(new_null()),
                        Err(e) => Err(Error::EvalFuncCallFailed {
                            source: Box::new(e),
                            func_name: f_name,
                            call_loc: (line, col),
                        }),
                    }
                },
                other => {
                    proof {
                        if fse is Some && argss {
                            assert(*heap == h0);
                        }
                    }
                    Err(Error::AtLoc {
                        source: Box::new(Error::CannotCallNonFunc { v: other }),
                        line,
                        col,
                    })
                },
            }
        },
    }
}

/// Evaluates a sequence of expressions in order, collecting their values.
#[verifier::loop_isolation(false)]
pub fn eval_exprs<B: BuiltinHost>(
    context: &mut EvaluationContext<B>,
    heap: &mut Heap,
    scopes: &ScopeStack,
    exprs: &Vec<Expr>,
    fuel: u64,
) -> (r: Result<Vec<SourcedValue>, Error>)
    requires
        old(heap).wf(),
        old(heap).stack_ids_wf(*scopes),
    ensures
        final(heap).wf(),
        final(heap).extends(*old(heap)),
        final(heap).stack_ids_wf(*scopes),
        keys_preserved(*old(heap), *final(heap)),
        r matches Ok(vs) ==> vs@.len() == exprs@.len() && forall|j: int|
            0 <= j < vs@.len() ==> final(heap).sv_wf(#[trigger] vs@[j]),
        all_simple(scopes.frames@, old(heap).scopes@, exprs@) ==> {
            &&& *final(heap) == *old(heap)
            &&& r matches Ok(vs) && forall|j: int|
                0 <= j < exprs@.len() ==> Some(#[trigger] vs@[j]) == simple_eval(
                    scopes.frames@,
                    old(heap).scopes@,
                    exprs@[j].0,
                )
        },
    decreases fuel, *exprs, 1int,
{
    let ghost h0 = *heap;
    let ghost chain = scopes.frames@;
    proof {
        lemma_extends_refl(h0);
        lemma_keys_preserved_refl(h0);
    }
    let mut vals: Vec<SourcedValue> = Vec::new();
    let mut i: usize = 0;
    while i < exprs.len()
        invariant
            i <= exprs@.len(),
            vals@.len() == i,
            heap.wf(),
            heap.extends(h0),
            keys_preserved(h0, *heap),
            heap.stack_ids_wf(*scopes),
            forall|j: int| 0 <= j < vals@.len() ==> heap.sv_wf(#[trigger] vals@[j]),
            all_simple(chain, h0.scopes@, exprs@) ==> (*heap == h0 && forall|j: int|
                0 <= j < i ==> Some(#[trigger] vals@[j]) == simple_eval(
                    chain,
                    h0.scopes@,
                    exprs@[j].0,
                )),
        decreases exprs@.len() - i,
    {
        let ghost pre = *heap;
        let v = match eval_expr(context, heap, scopes, &exprs[i], fuel) {
            Ok(v) => v,
            Err(e) => {
                proof {
                    lemma_extends_trans(*heap, pre, h0);
                    lemma_keys_preserved_trans(h0, pre, *heap);
                    if all_simple(chain, h0.scopes@, exprs@) {
                        assert(simple_eval(chain, h0.scopes@, exprs@[i as int].0) is Some);
                        assert(false);
                    }
                }
                return Err(e);
            },
        };
        proof {
            lemma_extends_trans(*heap, pre, h0);
            lemma_keys_preserved_trans(h0, pre, *heap);
            assert forall|j: int| 0 <= j < vals@.len() implies heap.sv_wf(
                #[trigger] vals@[j],
            ) by {
                lemma_extends_sv_wf(*heap, pre, vals@[j]);
            }
            if all_simple(chain, h0.scopes@, exprs@) {
                assert(simple_eval(chain, h0.scopes@, exprs@[i as int].0) is Some);
                assert(Some(v) == simple_eval(chain, h0.scopes@, exprs@[i as int].0));
            }
        }
        vals.push(v);
        i = i + 1;
    }
    Ok(vals)
}

/// Evaluates an expression that must produce a valid UTF-8 string — an
/// object property name.  A non-string value is a type error; a string
/// whose bytes are not valid UTF-8 is a string-construction error.  Both
/// are located at the expression's own position.
pub fn eval_expr_to_str<B: BuiltinHost>(
    context: &mut EvaluationContext<B>,
    heap: &mut Heap,
    scopes: &ScopeStack,
    descr: &Str,
    expr: &Expr,
    fuel: u64,
) -> (r: Result<Str, Error>)
    requires
        old(heap).wf(),
        old(heap).stack_ids_wf(*scopes),
    ensures
        final(heap).wf(),
        final(heap).extends(*old(heap)),
        final(heap).stack_ids_wf(*scopes),
        keys_preserved(*old(heap), *final(heap)),
        r matches Ok(s) ==> utf8::is_utf8(s@),
        ({
            match expr.0 {
                RawExpr::Str { s: ref sl } => {
                    if utf8::is_utf8(sl@) {
                        r matches Ok(t) && t@ == sl@
                    } else {
                        r matches Err(e) && e matches Error::AtLoc { source, line, col }
                            && *source matches Error::StringConstructionFailed { .. } && line
                            == expr.1.0 && col == expr.1.1
                    }
                },
                RawExpr::Null => is_non_string_key_err(r, expr.1),
                RawExpr::Bool { .. } => is_non_string_key_err(r, expr.1),
                RawExpr::Int { .. } => is_non_string_key_err(r, expr.1),
                _ => true,
            }
        }),
    decreases fuel, *expr, 1int,
{
    let ghost h0 = *heap;
    let Expr(_, loc) = expr;
    let (line, col) = *loc;
    let v = match eval_expr(context, heap, scopes, expr, fuel) {
        Ok(v) => v,
        Err(e) => {
            return Err(e);
        },
    };
    match v.v {
        Value::Str(sr) => {
            let raw = clone_bytes(&heap.strs[sr]);
            if utf8::check_utf8(&raw) {
                Ok(raw)
            } else {
                Err(Error::AtLoc {
                    source: Box::new(Error::StringConstructionFailed {
                        descr: clone_bytes(descr),
                    }),
                    line,
                    col,
                })
            }
        },
        other => Err(Error::AtLoc {
            source: Box::new(Error::IncorrectType {
                descr: clone_bytes(descr),
                exp_type: vec!['s' as u8, 't' as u8, 'r' as u8, 'i' as u8, 'n' as u8, 'g' as u8],
                value: other,
            }),
            line,
            col,
        }),
    }
}

/// What an object property name is called in diagnostics.
fn prop_name_descr() -> (r: Str) {
    vec![
        'p' as u8, 'r' as u8, 'o' as u8, 'p' as u8, 'e' as u8, 'r' as u8, 't' as u8, 'y' as u8,
        ' ' as u8, 'n' as u8, 'a' as u8, 'm' as u8, 'e' as u8,
    ]
}

} // verus!

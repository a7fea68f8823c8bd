//! The error model: a recursive, source-located error value.
//!
//! Leaf kinds describe the failing operation itself; three wrapper kinds
//! exist purely for propagation bookkeeping: a location wrapper attaching
//! `(line, column)` to its cause, and two call wrappers recording the name
//! and call site of the builtin or user function inside which the cause
//! arose.  Nothing is recovered locally: every error unwinds the evaluator
//! entirely, enriched at each boundary, and a display-ready call-stack
//! trace is reconstructed afterwards by a pure fold over this structure
//! (see [`crate::diag`]).

use vstd::prelude::*;
use crate::ast::BinaryOp;
use crate::ast::Location;
use crate::ast::Str;
use crate::eval::value::Value;

verus! {

/// An evaluation error.
#[derive(Debug)]
pub enum Error {
    /// A call's callee was not a builtin or user function.
    CannotCallNonFunc { v: Value },
    /// A name was looked up or assigned but is bound in no scope.
    Undefined { name: Str },
    /// An assignment target expression is not bindable.
    InvalidBindTarget { descr: Str },
    /// One destructuring operation bound the same name twice.
    AlreadyInBinding { name: Str },
    /// A declaration re-used a name already bound in the innermost scope.
    AlreadyInScope { name: Str },
    /// A binary operator was applied to operand kinds it does not accept.
    InvalidOpTypes { op: BinaryOp, lhs: Value, rhs: Value },
    /// Integer division or remainder by zero.
    DivideByZero { op: BinaryOp },
    /// A user function was called with the wrong number of arguments.
    ArgNumMismatch { need: usize, got: usize },
    /// A value of the wrong kind appeared where a string was required.
    IncorrectType { descr: Str, exp_type: Str, value: Value },
    /// Bytes that had to form an object key were not valid UTF-8.
    StringConstructionFailed { descr: Str },
    /// A builtin function reported a failure with an opaque message.
    BuiltinFuncErr { msg: Str },
    /// The evaluator's step budget ran out before the program finished.
    OutOfFuel,
    /// Wrapper: the cause arose at source position `(line, col)`.
    AtLoc { source: Box<Error>, line: usize, col: usize },
    /// Wrapper: the cause arose inside a builtin function called at
    /// `call_loc`.
    EvalBuiltinFuncCallFailed { source: Box<Error>, func_name: Option<Str>, call_loc: Location },
    /// Wrapper: the cause arose inside a user function called at
    /// `call_loc`.
    EvalFuncCallFailed { source: Box<Error>, func_name: Option<Str>, call_loc: Location },
}

} // verus!

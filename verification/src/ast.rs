//! The abstract syntax tree the evaluator consumes.  A program is a flat
//! ordered sequence of statements; every expression carries a source
//! location, and a binary operation additionally carries the operator's own
//! location, distinct from the surrounding expression's.

use vstd::prelude::*;
use std::rc::Rc;

verus! {

/// A byte string.  Strings of the language are raw byte sequences, not
/// text-encoding-validated strings; UTF-8 validity is enforced only where a
/// string is used as an object key.  Identifiers are carried the same way.
pub type Str = Vec<u8>;

/// A source position: `(line, column)`.
pub type Location = (usize, usize);

/// A block of statements.  Blocks are reference-counted because a function
/// value captures its body when it is created and shares it with the syntax
/// tree it came from.
pub type Block = Rc<Vec<Stmt>>;

/// A parsed program; the unit handed to the evaluator.
#[derive(Debug)]
pub enum Prog {
    Body { stmts: Block },
}

/// A statement, evaluated in program order.
#[derive(Debug)]
pub enum Stmt {
    /// A nested block with its own scope.
    Block { block: Block },
    /// A bare expression, evaluated for effect; the result is discarded.
    Expr { expr: Expr },
    /// `lhs := rhs` — `lhs` must name fresh bindings.
    Declare { lhs: Expr, rhs: Expr },
    /// `lhs = rhs` — `lhs` must name existing bindings.
    Assign { lhs: Expr, rhs: Expr },
    /// A named function definition: sugar for declaring `name` bound to a
    /// function value that captures the current scope chain.
    Func { name: (Str, Location), args: Rc<Vec<Expr>>, stmts: Block },
}

/// An expression paired with its source location.
#[derive(Debug)]
pub struct Expr(pub RawExpr, pub Location);

/// An expression without its location.
#[derive(Debug)]
pub enum RawExpr {
    Null,
    Bool { b: bool },
    Int { n: i64 },
    Str { s: Str },
    Var { name: Str },
    BinaryOp { op: BinaryOp, op_loc: Location, lhs: Box<Expr>, rhs: Box<Expr> },
    List { items: Vec<Expr> },
    Object { props: Vec<PropItem> },
    Call { func: Box<Expr>, args: Vec<Expr> },
}

/// A binary operator.
#[derive(Clone, Copy, PartialEq, Eq, Structural, Debug)]
pub enum BinaryOp {
    Sum,
    Sub,
    Mul,
    Div,
    Mod,
}

/// One property of an object construction expression: a name expression
/// paired with a value expression.
#[derive(Debug)]
pub enum PropItem {
    Pair { name: Expr, value: Expr },
}

} // verus!

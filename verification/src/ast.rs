//! A flat syntax tree for the smallest programs: functions known by their
//! name, and a return statement of an integer constant.
use vstd::prelude::*;

verus! {

/// A program: its functions.
pub struct Program {
    pub functions: Vec<Function>,
}

/// A function: its name.
pub struct Function {
    pub name: String,
}

/// An integer constant.
pub struct Expression {
    pub val: i32,
}

/// A return statement with an optional value.
pub struct Return {
    pub expr: Option<Expression>,
}

} // verus!

//! Code generation: x86-64 assembly text for a parsed program.
//!
//! Every generating function appends to `text` and keeps in `stack_info` the
//! label counter, the next stack slot and the stack slots of the declared
//! variables. A program that cannot be compiled (a variable that is not
//! declared or declared twice, an operator that a node cannot hold, a counter
//! or stack index out of range) gives back an error.
use vstd::prelude::*;
use vstd::hash_map::StringHashMap;
use vstd::string::StringExecFns;
use crate::lexer::TokenType;
use crate::numbers::{append_decimal, append_decimal_u32, decimal, nat_decimal};
use crate::parser::{
    AdditiveExpr, BitAndExpr, BitOrExpr, BitXOrExpr, BlockItem, ConditionalExpr, Declaration,
    EqualityExpr, Expression, Factor, LogicalAndExpr, LogicalOrExpr, Program, RelationalExpr,
    ShiftExpr, SpecBlock, SpecDeclaration, SpecExpr, SpecFunction, SpecProgram, SpecStatement,
    Statement, Term, add_expr_ops_view, bit_and_expr_ops_view, bit_or_expr_ops_view,
    bit_xor_expr_ops_view, eq_expr_ops_view, log_and_expr_ops_view, log_or_expr_ops_view,
    rel_expr_ops_view, shift_expr_ops_view, term_ops_view,
};

verus! {

/// The state of code generation: the next label number, the offset of the
/// next stack slot, and the stack offset of each declared variable.
pub struct StackInfo {
    counter: u32,
    stack_index: i32,
    var_map: StringHashMap<i32>,
}

/// The state of code generation as a mathematical value.
pub struct SpecStackInfo {
    pub counter: int,
    pub stack_index: int,
    pub vars: Map<Seq<char>, i32>,
}

impl View for StackInfo {
    type V = SpecStackInfo;

    closed spec fn view(&self) -> SpecStackInfo {
        SpecStackInfo {
            counter: self.counter as int,
            stack_index: self.stack_index as int,
            vars: self.var_map@,
        }
    }
}

impl StackInfo {
    /// The state at the start of a program: no label used, no variable.
    pub fn new() -> (s: StackInfo)
        ensures
            s@ == initial_stack_info(),
    {
        StackInfo { counter: 0, stack_index: -8, var_map: StringHashMap::new() }
    }

    /// The number of the next label.
    pub fn counter(&self) -> (c: u32)
        ensures
            c == self@.counter,
    {
        self.counter
    }

    /// The offset of the next stack slot.
    pub fn stack_index(&self) -> (i: i32)
        ensures
            i == self@.stack_index,
    {
        self.stack_index
    }

    /// The stack offset of a declared variable.
    pub fn offset_of(&self, name: &str) -> (r: Option<i32>)
        ensures
            r == (if self@.vars.contains_key(name@) { Some(self@.vars[name@]) } else { None }),
    {
        match self.var_map.get(name) {
            Some(v) => Some(*v),
            None => None,
        }
    }
}

/// The state at the start of a program.
pub open spec fn initial_stack_info() -> SpecStackInfo {
    SpecStackInfo { counter: 0, stack_index: -8, vars: Map::empty() }
}

/// Why code generation stopped.
#[derive(Debug)]
pub enum GenError {
    /// A variable is used or assigned without a declaration.
    UndeclaredVariable(String),
    /// A variable is declared a second time.
    Redeclared(String),
    /// A node holds an operator that its level does not have.
    UnexpectedOperator(TokenType),
    /// The label counter would pass `u32::MAX`.
    CounterOverflow,
    /// The stack index would pass `i32::MIN`.
    StackOverflow,
}

/// An error of code generation as a mathematical value.
pub enum SpecGenError {
    UndeclaredVariable(Seq<char>),
    Redeclared(Seq<char>),
    UnexpectedOperator(TokenType),
    CounterOverflow,
    StackOverflow,
}

impl View for GenError {
    type V = SpecGenError;

    open spec fn view(&self) -> SpecGenError {
        match self {
            GenError::UndeclaredVariable(s) => SpecGenError::UndeclaredVariable(s@),
            GenError::Redeclared(s) => SpecGenError::Redeclared(s@),
            GenError::UnexpectedOperator(t) => SpecGenError::UnexpectedOperator(*t),
            GenError::CounterOverflow => SpecGenError::CounterOverflow,
            GenError::StackOverflow => SpecGenError::StackOverflow,
        }
    }
}

/// What a generating function for an expression or a statement promises:
/// where the specification gives back the text `t` and the counter `c`, the
/// call succeeds, `text` is `t` and the counter is `c`, the rest of the state
/// unchanged; where it gives back an error, the call gives back that error.
pub open spec fn gen_post(
    r: Result<(), GenError>,
    s: Result<(Seq<char>, int), SpecGenError>,
    new_text: Seq<char>,
    old_st: SpecStackInfo,
    new_st: SpecStackInfo,
) -> bool {
    match s {
        Ok((t, c)) => {
            &&& r is Ok
            &&& new_text == t
            &&& new_st == SpecStackInfo {
                counter: c,
                stack_index: old_st.stack_index,
                vars: old_st.vars,
            }
        },
        Err(e) => r matches Err(x) && x@ == e,
    }
}

/// The text after the code of a factor is appended to `out`, and the
/// counter after it.
pub open spec fn gen_factor_spec(
    e: SpecExpr,
    vars: Map<Seq<char>, i32>,
    counter: int,
    out: Seq<char>,
) -> Result<(Seq<char>, int), SpecGenError>
    decreases e, 0nat, 0int,
{
    match e {
        SpecExpr::Paren(x) => gen_expr_spec(*x, vars, counter, out),
        SpecExpr::Unary(op, x) => match gen_factor_spec(*x, vars, counter, out) {
            Ok((o, c)) => if op == TokenType::Minus {
                Ok((o + "neg %eax\n"@, c))
            } else if op == TokenType::BitComplement {
                Ok((o + "not %eax\n"@, c))
            } else if op == TokenType::LogicalNeg {
                Ok((o + "cmpl $0, %eax\nmovl $0, %eax\nsete %al\n"@, c))
            } else {
                Err(SpecGenError::UnexpectedOperator(op))
            },
            Err(err) => Err(err),
        },
        SpecExpr::Number(v) => Ok((out + "movl $"@ + decimal(v as int) + ", %eax\n"@, counter)),
        SpecExpr::Ident(name) => if vars.contains_key(name) {
            Ok((out + "movl "@ + decimal(vars[name] as int) + "(%ebp), %eax\n"@, counter))
        } else {
            Err(SpecGenError::UndeclaredVariable(name))
        },
        _ => Ok((out, counter)),
    }
}

/// The text after the code of an expression of binary level 1 is
/// appended to `out`, and the counter after it.
pub open spec fn gen_term_spec(
    e: SpecExpr,
    vars: Map<Seq<char>, i32>,
    counter: int,
    out: Seq<char>,
) -> Result<(Seq<char>, int), SpecGenError>
    decreases e, 1nat, 0int,
{
    match e {
        SpecExpr::Chain(first, rest) => match gen_factor_spec(*first, vars, counter, out) {
            Ok((o, c)) => gen_term_rest(rest, 0, vars, c, o),
            Err(err) => Err(err),
        },
        _ => Ok((out, counter)),
    }
}

/// The code of the (operator, operand) pairs of a binary level 1 from
/// the `i`-th on.
pub open spec fn gen_term_rest(
    rest: Seq<(TokenType, SpecExpr)>,
    i: int,
    vars: Map<Seq<char>, i32>,
    counter: int,
    out: Seq<char>,
) -> Result<(Seq<char>, int), SpecGenError>
    decreases rest, 1nat, rest.len() - i,
{
    if i < 0 || i >= rest.len() {
        Ok((out, counter))
    } else {
        match gen_factor_spec(rest[i].1, vars, counter, out + "push %rax\n"@) {
            Ok((o, c)) => {
                let o2 = o;
                if rest[i].0 == TokenType::Multiplication {
                    gen_term_rest(rest, i + 1, vars, c, o2 + "pop %rcx\nimul %ecx, %eax\n"@)
                } else if rest[i].0 == TokenType::Division {
                    gen_term_rest(rest, i + 1, vars, c, o2 + "movl %eax, %ecx\npop %rax\ncdq\nidivl %ecx\n"@)
                } else {
                    Err(SpecGenError::UnexpectedOperator(rest[i].0))
                }
            },
            Err(err) => Err(err),
        }
    }
}

/// The text after the code of an expression of binary level 2 is
/// appended to `out`, and the counter after it.
pub open spec fn gen_add_expr_spec(
    e: SpecExpr,
    vars: Map<Seq<char>, i32>,
    counter: int,
    out: Seq<char>,
) -> Result<(Seq<char>, int), SpecGenError>
    decreases e, 2nat, 0int,
{
    match e {
        SpecExpr::Chain(first, rest) => match gen_term_spec(*first, vars, counter, out) {
            Ok((o, c)) => gen_add_expr_rest(rest, 0, vars, c, o),
            Err(err) => Err(err),
        },
        _ => Ok((out, counter)),
    }
}

/// The code of the (operator, operand) pairs of a binary level 2 from
/// the `i`-th on.
pub open spec fn gen_add_expr_rest(
    rest: Seq<(TokenType, SpecExpr)>,
    i: int,
    vars: Map<Seq<char>, i32>,
    counter: int,
    out: Seq<char>,
) -> Result<(Seq<char>, int), SpecGenError>
    decreases rest, 2nat, rest.len() - i,
{
    if i < 0 || i >= rest.len() {
        Ok((out, counter))
    } else {
        match gen_term_spec(rest[i].1, vars, counter, out + "push %rax\n"@) {
            Ok((o, c)) => {
                let o2 = o;
                if rest[i].0 == TokenType::Addition {
                    gen_add_expr_rest(rest, i + 1, vars, c, o2 + "pop %rcx\naddl %ecx, %eax\n"@)
                } else if rest[i].0 == TokenType::Minus {
                    gen_add_expr_rest(rest, i + 1, vars, c, o2 + "movl %eax, %ecx\npop %rax\nsubl %ecx, %eax\n"@)
                } else {
                    Err(SpecGenError::UnexpectedOperator(rest[i].0))
                }
            },
            Err(err) => Err(err),
        }
    }
}

/// The text after the code of an expression of binary level 3 is
/// appended to `out`, and the counter after it.
pub open spec fn gen_shift_expr_spec(
    e: SpecExpr,
    vars: Map<Seq<char>, i32>,
    counter: int,
    out: Seq<char>,
) -> Result<(Seq<char>, int), SpecGenError>
    decreases e, 3nat, 0int,
{
    match e {
        SpecExpr::Chain(first, rest) => match gen_add_expr_spec(*first, vars, counter, out) {
            Ok((o, c)) => gen_shift_expr_rest(rest, 0, vars, c, o),
            Err(err) => Err(err),
        },
        _ => Ok((out, counter)),
    }
}

/// The code of the (operator, operand) pairs of a binary level 3 from
/// the `i`-th on.
pub open spec fn gen_shift_expr_rest(
    rest: Seq<(TokenType, SpecExpr)>,
    i: int,
    vars: Map<Seq<char>, i32>,
    counter: int,
    out: Seq<char>,
) -> Result<(Seq<char>, int), SpecGenError>
    decreases rest, 3nat, rest.len() - i,
{
    if i < 0 || i >= rest.len() {
        Ok((out, counter))
    } else {
        match gen_add_expr_spec(rest[i].1, vars, counter, out + "push %rax\n"@) {
            Ok((o, c)) => {
                let o2 = o + "movl %eax, %ecx\npop %rax\n"@;
                if rest[i].0 == TokenType::LBitShift {
                    gen_shift_expr_rest(rest, i + 1, vars, c, o2 + "sal %cl, %eax\n"@)
                } else if rest[i].0 == TokenType::RBitShift {
                    gen_shift_expr_rest(rest, i + 1, vars, c, o2 + "sar %cl, %eax\n"@)
                } else {
                    Err(SpecGenError::UnexpectedOperator(rest[i].0))
                }
            },
            Err(err) => Err(err),
        }
    }
}

/// The text after the code of an expression of binary level 4 is
/// appended to `out`, and the counter after it.
pub open spec fn gen_rel_expr_spec(
    e: SpecExpr,
    vars: Map<Seq<char>, i32>,
    counter: int,
    out: Seq<char>,
) -> Result<(Seq<char>, int), SpecGenError>
    decreases e, 4nat, 0int,
{
    match e {
        SpecExpr::Chain(first, rest) => match gen_shift_expr_spec(*first, vars, counter, out) {
            Ok((o, c)) => gen_rel_expr_rest(rest, 0, vars, c, o),
            Err(err) => Err(err),
        },
        _ => Ok((out, counter)),
    }
}

/// The code of the (operator, operand) pairs of a binary level 4 from
/// the `i`-th on.
pub open spec fn gen_rel_expr_rest(
    rest: Seq<(TokenType, SpecExpr)>,
    i: int,
    vars: Map<Seq<char>, i32>,
    counter: int,
    out: Seq<char>,
) -> Result<(Seq<char>, int), SpecGenError>
    decreases rest, 4nat, rest.len() - i,
{
    if i < 0 || i >= rest.len() {
        Ok((out, counter))
    } else {
        match gen_shift_expr_spec(rest[i].1, vars, counter, out + "push %rax\n"@) {
            Ok((o, c)) => {
                let o2 = o + "pop %rcx\ncmpl %eax, %ecx\nmovl $0, %eax\n"@;
                if rest[i].0 == TokenType::LessThan {
                    gen_rel_expr_rest(rest, i + 1, vars, c, o2 + "setl %al\n"@)
                } else if rest[i].0 == TokenType::LessThanEqual {
                    gen_rel_expr_rest(rest, i + 1, vars, c, o2 + "setle %al\n"@)
                } else if rest[i].0 == TokenType::GreaterThan {
                    gen_rel_expr_rest(rest, i + 1, vars, c, o2 + "setg %al\n"@)
                } else if rest[i].0 == TokenType::GreaterThanEqual {
                    gen_rel_expr_rest(rest, i + 1, vars, c, o2 + "setge %al\n"@)
                } else {
                    Err(SpecGenError::UnexpectedOperator(rest[i].0))
                }
            },
            Err(err) => Err(err),
        }
    }
}

/// The text after the code of an expression of binary level 5 is
/// appended to `out`, and the counter after it.
pub open spec fn gen_eq_expr_spec(
    e: SpecExpr,
    vars: Map<Seq<char>, i32>,
    counter: int,
    out: Seq<char>,
) -> Result<(Seq<char>, int), SpecGenError>
    decreases e, 5nat, 0int,
{
    match e {
        SpecExpr::Chain(first, rest) => match gen_rel_expr_spec(*first, vars, counter, out) {
            Ok((o, c)) => gen_eq_expr_rest(rest, 0, vars, c, o),
            Err(err) => Err(err),
        },
        _ => Ok((out, counter)),
    }
}

/// The code of the (operator, operand) pairs of a binary level 5 from
/// the `i`-th on.
pub open spec fn gen_eq_expr_rest(
    rest: Seq<(TokenType, SpecExpr)>,
    i: int,
    vars: Map<Seq<char>, i32>,
    counter: int,
    out: Seq<char>,
) -> Result<(Seq<char>, int), SpecGenError>
    decreases rest, 5nat, rest.len() - i,
{
    if i < 0 || i >= rest.len() {
        Ok((out, counter))
    } else {
        match gen_rel_expr_spec(rest[i].1, vars, counter, out + "push %rax\n"@) {
            Ok((o, c)) => {
                let o2 = o + "pop %rcx\ncmpl %eax, %ecx\nmovl $0, %eax\n"@;
                if rest[i].0 == TokenType::Equal {
                    gen_eq_expr_rest(rest, i + 1, vars, c, o2 + "sete %al\n"@)
                } else if rest[i].0 == TokenType::NotEqual {
                    gen_eq_expr_rest(rest, i + 1, vars, c, o2 + "setne %al\n"@)
                } else {
                    Err(SpecGenError::UnexpectedOperator(rest[i].0))
                }
            },
            Err(err) => Err(err),
        }
    }
}

/// The text after the code of an expression of binary level 6 is
/// appended to `out`, and the counter after it.
pub open spec fn gen_bit_and_expr_spec(
    e: SpecExpr,
    vars: Map<Seq<char>, i32>,
    counter: int,
    out: Seq<char>,
) -> Result<(Seq<char>, int), SpecGenError>
    decreases e, 6nat, 0int,
{
    match e {
        SpecExpr::Chain(first, rest) => match gen_eq_expr_spec(*first, vars, counter, out) {
            Ok((o, c)) => gen_bit_and_expr_rest(rest, 0, vars, c, o),
            Err(err) => Err(err),
        },
        _ => Ok((out, counter)),
    }
}

/// The code of the (operator, operand) pairs of a binary level 6 from
/// the `i`-th on.
pub open spec fn gen_bit_and_expr_rest(
    rest: Seq<(TokenType, SpecExpr)>,
    i: int,
    vars: Map<Seq<char>, i32>,
    counter: int,
    out: Seq<char>,
) -> Result<(Seq<char>, int), SpecGenError>
    decreases rest, 6nat, rest.len() - i,
{
    if i < 0 || i >= rest.len() {
        Ok((out, counter))
    } else {
        match gen_eq_expr_spec(rest[i].1, vars, counter, out + "push %rax\n"@) {
            Ok((o, c)) => gen_bit_and_expr_rest(rest, i + 1, vars, c, o + "pop %rcx\nand %ecx, %eax\n"@),
            Err(err) => Err(err),
        }
    }
}

/// The text after the code of an expression of binary level 7 is
/// appended to `out`, and the counter after it.
pub open spec fn gen_bit_xor_expr_spec(
    e: SpecExpr,
    vars: Map<Seq<char>, i32>,
    counter: int,
    out: Seq<char>,
) -> Result<(Seq<char>, int), SpecGenError>
    decreases e, 7nat, 0int,
{
    match e {
        SpecExpr::Chain(first, rest) => match gen_bit_and_expr_spec(*first, vars, counter, out) {
            Ok((o, c)) => gen_bit_xor_expr_rest(rest, 0, vars, c, o),
            Err(err) => Err(err),
        },
        _ => Ok((out, counter)),
    }
}

/// The code of the (operator, operand) pairs of a binary level 7 from
/// the `i`-th on.
pub open spec fn gen_bit_xor_expr_rest(
    rest: Seq<(TokenType, SpecExpr)>,
    i: int,
    vars: Map<Seq<char>, i32>,
    counter: int,
    out: Seq<char>,
) -> Result<(Seq<char>, int), SpecGenError>
    decreases rest, 7nat, rest.len() - i,
{
    if i < 0 || i >= rest.len() {
        Ok((out, counter))
    } else {
        match gen_bit_and_expr_spec(rest[i].1, vars, counter, out + "push %rax\n"@) {
            Ok((o, c)) => gen_bit_xor_expr_rest(rest, i + 1, vars, c, o + "pop %rcx\nxor %ecx, %eax\n"@),
            Err(err) => Err(err),
        }
    }
}

/// The text after the code of an expression of binary level 8 is
/// appended to `out`, and the counter after it.
pub open spec fn gen_bit_or_expr_spec(
    e: SpecExpr,
    vars: Map<Seq<char>, i32>,
    counter: int,
    out: Seq<char>,
) -> Result<(Seq<char>, int), SpecGenError>
    decreases e, 8nat, 0int,
{
    match e {
        SpecExpr::Chain(first, rest) => match gen_bit_xor_expr_spec(*first, vars, counter, out) {
            Ok((o, c)) => gen_bit_or_expr_rest(rest, 0, vars, c, o),
            Err(err) => Err(err),
        },
        _ => Ok((out, counter)),
    }
}

/// The code of the (operator, operand) pairs of a binary level 8 from
/// the `i`-th on.
pub open spec fn gen_bit_or_expr_rest(
    rest: Seq<(TokenType, SpecExpr)>,
    i: int,
    vars: Map<Seq<char>, i32>,
    counter: int,
    out: Seq<char>,
) -> Result<(Seq<char>, int), SpecGenError>
    decreases rest, 8nat, rest.len() - i,
{
    if i < 0 || i >= rest.len() {
        Ok((out, counter))
    } else {
        match gen_bit_xor_expr_spec(rest[i].1, vars, counter, out + "push %rax\n"@) {
            Ok((o, c)) => gen_bit_or_expr_rest(rest, i + 1, vars, c, o + "pop %rcx\nor %ecx, %eax\n"@),
            Err(err) => Err(err),
        }
    }
}

/// The text after the code of an expression of binary level 9 is
/// appended to `out`, and the counter after it.
pub open spec fn gen_log_and_expr_spec(
    e: SpecExpr,
    vars: Map<Seq<char>, i32>,
    counter: int,
    out: Seq<char>,
) -> Result<(Seq<char>, int), SpecGenError>
    decreases e, 9nat, 0int,
{
    match e {
        SpecExpr::Chain(first, rest) => match gen_bit_or_expr_spec(*first, vars, counter, out) {
            Ok((o, c)) => gen_log_and_expr_rest(rest, 0, vars, c, o),
            Err(err) => Err(err),
        },
        _ => Ok((out, counter)),
    }
}

/// The code of the (operator, operand) pairs of a binary level 9 from
/// the `i`-th on.
pub open spec fn gen_log_and_expr_rest(
    rest: Seq<(TokenType, SpecExpr)>,
    i: int,
    vars: Map<Seq<char>, i32>,
    counter: int,
    out: Seq<char>,
) -> Result<(Seq<char>, int), SpecGenError>
    decreases rest, 9nat, rest.len() - i,
{
    if i < 0 || i >= rest.len() {
        Ok((out, counter))
    } else {
        let n = nat_decimal(counter as nat);
        if counter >= u32::MAX {
            Err(SpecGenError::CounterOverflow)
        } else {
            match gen_bit_or_expr_spec(
                rest[i].1,
                vars,
                counter + 1,
                out + "cmpl $0, %eax\njne _clause"@ + n + "\njmp _end"@ + n + "\n_clause"@ + n + ":\n"@,
            ) {
                Ok((o, c)) => gen_log_and_expr_rest(rest, i + 1, vars, c, o + "cmpl $0, %eax\nmovl $0, %eax\nsetne %al\n_end"@ + n + ":\n"@),
                Err(err) => Err(err),
            }
        }
    }
}

/// The text after the code of an expression of binary level 10 is
/// appended to `out`, and the counter after it.
pub open spec fn gen_log_or_expr_spec(
    e: SpecExpr,
    vars: Map<Seq<char>, i32>,
    counter: int,
    out: Seq<char>,
) -> Result<(Seq<char>, int), SpecGenError>
    decreases e, 10nat, 0int,
{
    match e {
        SpecExpr::Chain(first, rest) => match gen_log_and_expr_spec(*first, vars, counter, out) {
            Ok((o, c)) => gen_log_or_expr_rest(rest, 0, vars, c, o),
            Err(err) => Err(err),
        },
        _ => Ok((out, counter)),
    }
}

/// The code of the (operator, operand) pairs of a binary level 10 from
/// the `i`-th on.
pub open spec fn gen_log_or_expr_rest(
    rest: Seq<(TokenType, SpecExpr)>,
    i: int,
    vars: Map<Seq<char>, i32>,
    counter: int,
    out: Seq<char>,
) -> Result<(Seq<char>, int), SpecGenError>
    decreases rest, 10nat, rest.len() - i,
{
    if i < 0 || i >= rest.len() {
        Ok((out, counter))
    } else {
        let n = nat_decimal(counter as nat);
        if counter >= u32::MAX {
            Err(SpecGenError::CounterOverflow)
        } else {
            match gen_log_and_expr_spec(
                rest[i].1,
                vars,
                counter + 1,
                out + "cmpl $0, %eax\nje _clause"@ + n + "\nmovl $1, %eax\njmp _end"@ + n + "\n_clause"@ + n + ":\n"@,
            ) {
                Ok((o, c)) => gen_log_or_expr_rest(rest, i + 1, vars, c, o + "cmpl $0, %eax\nmovl $0, %eax\nsetne %al\n_end"@ + n + ":\n"@),
                Err(err) => Err(err),
            }
        }
    }
}

/// The text after the code of a conditional expression is appended to
/// `out`, and the counter after it.
pub open spec fn gen_conditional_spec(
    e: SpecExpr,
    vars: Map<Seq<char>, i32>,
    counter: int,
    out: Seq<char>,
) -> Result<(Seq<char>, int), SpecGenError>
    decreases e, 11nat, 0int,
{
    match e {
        SpecExpr::Cond(x) => gen_log_or_expr_spec(*x, vars, counter, out),
        SpecExpr::Ternary(x, a, b) => match gen_log_or_expr_spec(*x, vars, counter, out) {
            Ok((o1, c1)) => if c1 >= u32::MAX {
                Err(SpecGenError::CounterOverflow)
            } else {
                let n = nat_decimal(c1 as nat);
                match gen_expr_spec(*a, vars, c1 + 1, o1 + "cmpl $0, %eax\nje _e"@ + n + "\n"@) {
                    Ok((o2, c2)) => match gen_conditional_spec(
                        *b,
                        vars,
                        c2,
                        o2 + "jmp _post_cond"@ + n + "\n_e"@ + n + ":\n"@,
                    ) {
                        Ok((o3, c3)) => Ok((o3 + "_post_cond"@ + n + ":\n"@, c3)),
                        Err(err) => Err(err),
                    },
                    Err(err) => Err(err),
                }
            },
            Err(err) => Err(err),
        },
        _ => Ok((out, counter)),
    }
}

/// The text after the code of an expression is appended to `out`, and the
/// counter after it.
pub open spec fn gen_expr_spec(
    e: SpecExpr,
    vars: Map<Seq<char>, i32>,
    counter: int,
    out: Seq<char>,
) -> Result<(Seq<char>, int), SpecGenError>
    decreases e, 12nat, 0int,
{
    match e {
        SpecExpr::Assign(name, x) => match gen_expr_spec(*x, vars, counter, out) {
            Ok((o, c)) => if vars.contains_key(name) {
                Ok((o + "movl %eax, "@ + decimal(vars[name] as int) + "(%ebp)\n"@, c))
            } else {
                Err(SpecGenError::UndeclaredVariable(name))
            },
            Err(err) => Err(err),
        },
        _ => gen_conditional_spec(e, vars, counter, out),
    }
}

/// Appends the code of a factor.
pub fn generate_factor(text: &mut String, factor: &Factor, stack_info: &mut StackInfo) -> (r: Result<
    (),
    GenError,
>)
    ensures
        gen_post(
            r,
            gen_factor_spec(factor@, old(stack_info)@.vars, old(stack_info)@.counter, old(text)@),
            final(text)@,
            old(stack_info)@,
            final(stack_info)@,
        ),
    decreases factor@, 0nat,
{
    match factor {
        Factor::Expr(boxed_expr) => generate_expr(text, boxed_expr, stack_info),
        Factor::UnaryOp(op, boxed_factor) => {
            match generate_factor(text, boxed_factor, stack_info) {
                Ok(()) => {},
                Err(e) => return Err(e),
            }
            match op {
                TokenType::Minus => text.append("neg %eax\n"),
                TokenType::BitComplement => text.append("not %eax\n"),
                TokenType::LogicalNeg => text.append("cmpl $0, %eax\nmovl $0, %eax\nsete %al\n"),
                _ => return Err(GenError::UnexpectedOperator(*op)),
            }
            Ok(())
        },
        Factor::Number(val) => {
            text.append("movl $");
            append_decimal(text, *val);
            text.append(", %eax\n");
            Ok(())
        },
        Factor::Identifier(name) => match stack_info.var_map.get(name.as_str()) {
            Some(offset) => {
                text.append("movl ");
                append_decimal(text, *offset);
                text.append("(%ebp), %eax\n");
                Ok(())
            },
            None => Err(GenError::UndeclaredVariable(name.clone())),
        },
    }
}

/// Appends the code of an expression of binary level 1: its first
/// operand, then for each further operand the code that combines it with
/// the value so far.
pub fn generate_term(text: &mut String, x: &Term, stack_info: &mut StackInfo) -> (r: Result<
    (),
    GenError,
>)
    ensures
        gen_post(
            r,
            gen_term_spec(x@, old(stack_info)@.vars, old(stack_info)@.counter, old(text)@),
            final(text)@,
            old(stack_info)@,
            final(stack_info)@,
        ),
    decreases x@, 1nat,
{
    let ghost st0 = stack_info@;
    let ghost t0 = text@;
    let ghost ops = term_ops_view(x.additional@);
    proof {
        assert(x@ is Chain && x@->Chain_0 == x.factor@);
        assert(decreases_to!(x@ => x@->Chain_0));
    }
    match generate_factor(text, &x.factor, stack_info) {
        Ok(()) => {},
        Err(e) => return Err(e),
    }
    let mut i: usize = 0;
    while i < x.additional.len()
        invariant
            0 <= i <= x.additional.len(),
            st0 == old(stack_info)@,
            t0 == old(text)@,
            ops == term_ops_view(x.additional@),
            stack_info@.vars == st0.vars,
            stack_info@.stack_index == st0.stack_index,
            gen_term_spec(x@, st0.vars, st0.counter, t0) == gen_term_rest(
                ops,
                i as int,
                st0.vars,
                stack_info@.counter,
                text@,
            ),
        decreases x.additional.len() - i,
    {
        proof {
            assert(ops[i as int].1 == x.additional@[i as int].1@);
            assert(x@ is Chain && x@->Chain_1 == ops);
            assert(decreases_to!(x@ => x@->Chain_1));
            assert(decreases_to!(ops => ops[i as int]));
            assert(decreases_to!(ops[i as int] => ops[i as int].1));
        }
            let op = x.additional[i].0;
            text.append("push %rax\n");
            match generate_factor(text, &x.additional[i].1, stack_info) {
                Ok(()) => {},
                Err(e) => return Err(e),
            }
            match op {
                TokenType::Multiplication => text.append("pop %rcx\nimul %ecx, %eax\n"),
                TokenType::Division => text.append("movl %eax, %ecx\npop %rax\ncdq\nidivl %ecx\n"),
                _ => return Err(GenError::UnexpectedOperator(op)),
            }
            i += 1;
        }
    Ok(())
}

/// Appends the code of an expression of binary level 2: its first
/// operand, then for each further operand the code that combines it with
/// the value so far.
pub fn generate_add_expr(text: &mut String, x: &AdditiveExpr, stack_info: &mut StackInfo) -> (r: Result<
    (),
    GenError,
>)
    ensures
        gen_post(
            r,
            gen_add_expr_spec(x@, old(stack_info)@.vars, old(stack_info)@.counter, old(text)@),
            final(text)@,
            old(stack_info)@,
            final(stack_info)@,
        ),
    decreases x@, 2nat,
{
    let ghost st0 = stack_info@;
    let ghost t0 = text@;
    let ghost ops = add_expr_ops_view(x.additional@);
    proof {
        assert(x@ is Chain && x@->Chain_0 == x.term@);
        assert(decreases_to!(x@ => x@->Chain_0));
    }
    match generate_term(text, &x.term, stack_info) {
        Ok(()) => {},
        Err(e) => return Err(e),
    }
    let mut i: usize = 0;
    while i < x.additional.len()
        invariant
            0 <= i <= x.additional.len(),
            st0 == old(stack_info)@,
            t0 == old(text)@,
            ops == add_expr_ops_view(x.additional@),
            stack_info@.vars == st0.vars,
            stack_info@.stack_index == st0.stack_index,
            gen_add_expr_spec(x@, st0.vars, st0.counter, t0) == gen_add_expr_rest(
                ops,
                i as int,
                st0.vars,
                stack_info@.counter,
                text@,
            ),
        decreases x.additional.len() - i,
    {
        proof {
            assert(ops[i as int].1 == x.additional@[i as int].1@);
            assert(x@ is Chain && x@->Chain_1 == ops);
            assert(decreases_to!(x@ => x@->Chain_1));
            assert(decreases_to!(ops => ops[i as int]));
            assert(decreases_to!(ops[i as int] => ops[i as int].1));
        }
            let op = x.additional[i].0;
            text.append("push %rax\n");
            match generate_term(text, &x.additional[i].1, stack_info) {
                Ok(()) => {},
                Err(e) => return Err(e),
            }
            match op {
                TokenType::Addition => text.append("pop %rcx\naddl %ecx, %eax\n"),
                TokenType::Minus => text.append("movl %eax, %ecx\npop %rax\nsubl %ecx, %eax\n"),
                _ => return Err(GenError::UnexpectedOperator(op)),
            }
            i += 1;
        }
    Ok(())
}

/// Appends the code of an expression of binary level 3: its first
/// operand, then for each further operand the code that combines it with
/// the value so far.
pub fn generate_shift_expr(text: &mut String, x: &ShiftExpr, stack_info: &mut StackInfo) -> (r: Result<
    (),
    GenError,
>)
    ensures
        gen_post(
            r,
            gen_shift_expr_spec(x@, old(stack_info)@.vars, old(stack_info)@.counter, old(text)@),
            final(text)@,
            old(stack_info)@,
            final(stack_info)@,
        ),
    decreases x@, 3nat,
{
    let ghost st0 = stack_info@;
    let ghost t0 = text@;
    let ghost ops = shift_expr_ops_view(x.additional@);
    proof {
        assert(x@ is Chain && x@->Chain_0 == x.add_expr@);
        assert(decreases_to!(x@ => x@->Chain_0));
    }
    match generate_add_expr(text, &x.add_expr, stack_info) {
        Ok(()) => {},
        Err(e) => return Err(e),
    }
    let mut i: usize = 0;
    while i < x.additional.len()
        invariant
            0 <= i <= x.additional.len(),
            st0 == old(stack_info)@,
            t0 == old(text)@,
            ops == shift_expr_ops_view(x.additional@),
            stack_info@.vars == st0.vars,
            stack_info@.stack_index == st0.stack_index,
            gen_shift_expr_spec(x@, st0.vars, st0.counter, t0) == gen_shift_expr_rest(
                ops,
                i as int,
                st0.vars,
                stack_info@.counter,
                text@,
            ),
        decreases x.additional.len() - i,
    {
        proof {
            assert(ops[i as int].1 == x.additional@[i as int].1@);
            assert(x@ is Chain && x@->Chain_1 == ops);
            assert(decreases_to!(x@ => x@->Chain_1));
            assert(decreases_to!(ops => ops[i as int]));
            assert(decreases_to!(ops[i as int] => ops[i as int].1));
        }
            let op = x.additional[i].0;
            text.append("push %rax\n");
            match generate_add_expr(text, &x.additional[i].1, stack_info) {
                Ok(()) => {},
                Err(e) => return Err(e),
            }
            text.append("movl %eax, %ecx\npop %rax\n");
            match op {
                TokenType::LBitShift => text.append("sal %cl, %eax\n"),
                TokenType::RBitShift => text.append("sar %cl, %eax\n"),
                _ => return Err(GenError::UnexpectedOperator(op)),
            }
            i += 1;
        }
    Ok(())
}

/// Appends the code of an expression of binary level 4: its first
/// operand, then for each further operand the code that combines it with
/// the value so far.
pub fn generate_rel_expr(text: &mut String, x: &RelationalExpr, stack_info: &mut StackInfo) -> (r: Result<
    (),
    GenError,
>)
    ensures
        gen_post(
            r,
            gen_rel_expr_spec(x@, old(stack_info)@.vars, old(stack_info)@.counter, old(text)@),
            final(text)@,
            old(stack_info)@,
            final(stack_info)@,
        ),
    decreases x@, 4nat,
{
    let ghost st0 = stack_info@;
    let ghost t0 = text@;
    let ghost ops = rel_expr_ops_view(x.additional@);
    proof {
        assert(x@ is Chain && x@->Chain_0 == x.shift_expr@);
        assert(decreases_to!(x@ => x@->Chain_0));
    }
    match generate_shift_expr(text, &x.shift_expr, stack_info) {
        Ok(()) => {},
        Err(e) => return Err(e),
    }
    let mut i: usize = 0;
    while i < x.additional.len()
        invariant
            0 <= i <= x.additional.len(),
            st0 == old(stack_info)@,
            t0 == old(text)@,
            ops == rel_expr_ops_view(x.additional@),
            stack_info@.vars == st0.vars,
            stack_info@.stack_index == st0.stack_index,
            gen_rel_expr_spec(x@, st0.vars, st0.counter, t0) == gen_rel_expr_rest(
                ops,
                i as int,
                st0.vars,
                stack_info@.counter,
                text@,
            ),
        decreases x.additional.len() - i,
    {
        proof {
            assert(ops[i as int].1 == x.additional@[i as int].1@);
            assert(x@ is Chain && x@->Chain_1 == ops);
            assert(decreases_to!(x@ => x@->Chain_1));
            assert(decreases_to!(ops => ops[i as int]));
            assert(decreases_to!(ops[i as int] => ops[i as int].1));
        }
            let op = x.additional[i].0;
            text.append("push %rax\n");
            match generate_shift_expr(text, &x.additional[i].1, stack_info) {
                Ok(()) => {},
                Err(e) => return Err(e),
            }
            text.append("pop %rcx\ncmpl %eax, %ecx\nmovl $0, %eax\n");
            match op {
                TokenType::LessThan => text.append("setl %al\n"),
                TokenType::LessThanEqual => text.append("setle %al\n"),
                TokenType::GreaterThan => text.append("setg %al\n"),
                TokenType::GreaterThanEqual => text.append("setge %al\n"),
                _ => return Err(GenError::UnexpectedOperator(op)),
            }
            i += 1;
        }
    Ok(())
}

/// Appends the code of an expression of binary level 5: its first
/// operand, then for each further operand the code that combines it with
/// the value so far.
pub fn generate_eq_expr(text: &mut String, x: &EqualityExpr, stack_info: &mut StackInfo) -> (r: Result<
    (),
    GenError,
>)
    ensures
        gen_post(
            r,
            gen_eq_expr_spec(x@, old(stack_info)@.vars, old(stack_info)@.counter, old(text)@),
            final(text)@,
            old(stack_info)@,
            final(stack_info)@,
        ),
    decreases x@, 5nat,
{
    let ghost st0 = stack_info@;
    let ghost t0 = text@;
    let ghost ops = eq_expr_ops_view(x.additional@);
    proof {
        assert(x@ is Chain && x@->Chain_0 == x.rel_expr@);
        assert(decreases_to!(x@ => x@->Chain_0));
    }
    match generate_rel_expr(text, &x.rel_expr, stack_info) {
        Ok(()) => {},
        Err(e) => return Err(e),
    }
    let mut i: usize = 0;
    while i < x.additional.len()
        invariant
            0 <= i <= x.additional.len(),
            st0 == old(stack_info)@,
            t0 == old(text)@,
            ops == eq_expr_ops_view(x.additional@),
            stack_info@.vars == st0.vars,
            stack_info@.stack_index == st0.stack_index,
            gen_eq_expr_spec(x@, st0.vars, st0.counter, t0) == gen_eq_expr_rest(
                ops,
                i as int,
                st0.vars,
                stack_info@.counter,
                text@,
            ),
        decreases x.additional.len() - i,
    {
        proof {
            assert(ops[i as int].1 == x.additional@[i as int].1@);
            assert(x@ is Chain && x@->Chain_1 == ops);
            assert(decreases_to!(x@ => x@->Chain_1));
            assert(decreases_to!(ops => ops[i as int]));
            assert(decreases_to!(ops[i as int] => ops[i as int].1));
        }
            let op = x.additional[i].0;
            text.append("push %rax\n");
            match generate_rel_expr(text, &x.additional[i].1, stack_info) {
                Ok(()) => {},
                Err(e) => return Err(e),
            }
            text.append("pop %rcx\ncmpl %eax, %ecx\nmovl $0, %eax\n");
            match op {
                TokenType::Equal => text.append("sete %al\n"),
                TokenType::NotEqual => text.append("setne %al\n"),
                _ => return Err(GenError::UnexpectedOperator(op)),
            }
            i += 1;
        }
    Ok(())
}

/// Appends the code of an expression of binary level 6: its first
/// operand, then for each further operand the code that combines it with
/// the value so far.
pub fn generate_bit_and_expr(text: &mut String, x: &BitAndExpr, stack_info: &mut StackInfo) -> (r: Result<
    (),
    GenError,
>)
    ensures
        gen_post(
            r,
            gen_bit_and_expr_spec(x@, old(stack_info)@.vars, old(stack_info)@.counter, old(text)@),
            final(text)@,
            old(stack_info)@,
            final(stack_info)@,
        ),
    decreases x@, 6nat,
{
    let ghost st0 = stack_info@;
    let ghost t0 = text@;
    let ghost ops = bit_and_expr_ops_view(x.additional@);
    proof {
        assert(x@ is Chain && x@->Chain_0 == x.eq_expr@);
        assert(decreases_to!(x@ => x@->Chain_0));
    }
    match generate_eq_expr(text, &x.eq_expr, stack_info) {
        Ok(()) => {},
        Err(e) => return Err(e),
    }
    let mut i: usize = 0;
    while i < x.additional.len()
        invariant
            0 <= i <= x.additional.len(),
            st0 == old(stack_info)@,
            t0 == old(text)@,
            ops == bit_and_expr_ops_view(x.additional@),
            stack_info@.vars == st0.vars,
            stack_info@.stack_index == st0.stack_index,
            gen_bit_and_expr_spec(x@, st0.vars, st0.counter, t0) == gen_bit_and_expr_rest(
                ops,
                i as int,
                st0.vars,
                stack_info@.counter,
                text@,
            ),
        decreases x.additional.len() - i,
    {
        proof {
            assert(ops[i as int].1 == x.additional@[i as int]@);
            assert(x@ is Chain && x@->Chain_1 == ops);
            assert(decreases_to!(x@ => x@->Chain_1));
            assert(decreases_to!(ops => ops[i as int]));
            assert(decreases_to!(ops[i as int] => ops[i as int].1));
        }
            text.append("push %rax\n");
            match generate_eq_expr(text, &x.additional[i], stack_info) {
                Ok(()) => {},
                Err(e) => return Err(e),
            }
            text.append("pop %rcx\nand %ecx, %eax\n");
            i += 1;
        }
    Ok(())
}

/// Appends the code of an expression of binary level 7: its first
/// operand, then for each further operand the code that combines it with
/// the value so far.
pub fn generate_bit_xor_expr(text: &mut String, x: &BitXOrExpr, stack_info: &mut StackInfo) -> (r: Result<
    (),
    GenError,
>)
    ensures
        gen_post(
            r,
            gen_bit_xor_expr_spec(x@, old(stack_info)@.vars, old(stack_info)@.counter, old(text)@),
            final(text)@,
            old(stack_info)@,
            final(stack_info)@,
        ),
    decreases x@, 7nat,
{
    let ghost st0 = stack_info@;
    let ghost t0 = text@;
    let ghost ops = bit_xor_expr_ops_view(x.additional@);
    proof {
        assert(x@ is Chain && x@->Chain_0 == x.bit_and_expr@);
        assert(decreases_to!(x@ => x@->Chain_0));
    }
    match generate_bit_and_expr(text, &x.bit_and_expr, stack_info) {
        Ok(()) => {},
        Err(e) => return Err(e),
    }
    let mut i: usize = 0;
    while i < x.additional.len()
        invariant
            0 <= i <= x.additional.len(),
            st0 == old(stack_info)@,
            t0 == old(text)@,
            ops == bit_xor_expr_ops_view(x.additional@),
            stack_info@.vars == st0.vars,
            stack_info@.stack_index == st0.stack_index,
            gen_bit_xor_expr_spec(x@, st0.vars, st0.counter, t0) == gen_bit_xor_expr_rest(
                ops,
                i as int,
                st0.vars,
                stack_info@.counter,
                text@,
            ),
        decreases x.additional.len() - i,
    {
        proof {
            assert(ops[i as int].1 == x.additional@[i as int]@);
            assert(x@ is Chain && x@->Chain_1 == ops);
            assert(decreases_to!(x@ => x@->Chain_1));
            assert(decreases_to!(ops => ops[i as int]));
            assert(decreases_to!(ops[i as int] => ops[i as int].1));
        }
            text.append("push %rax\n");
            match generate_bit_and_expr(text, &x.additional[i], stack_info) {
                Ok(()) => {},
                Err(e) => return Err(e),
            }
            text.append("pop %rcx\nxor %ecx, %eax\n");
            i += 1;
        }
    Ok(())
}

/// Appends the code of an expression of binary level 8: its first
/// operand, then for each further operand the code that combines it with
/// the value so far.
pub fn generate_bit_or_expr(text: &mut String, x: &BitOrExpr, stack_info: &mut StackInfo) -> (r: Result<
    (),
    GenError,
>)
    ensures
        gen_post(
            r,
            gen_bit_or_expr_spec(x@, old(stack_info)@.vars, old(stack_info)@.counter, old(text)@),
            final(text)@,
            old(stack_info)@,
            final(stack_info)@,
        ),
    decreases x@, 8nat,
{
    let ghost st0 = stack_info@;
    let ghost t0 = text@;
    let ghost ops = bit_or_expr_ops_view(x.additional@);
    proof {
        assert(x@ is Chain && x@->Chain_0 == x.bit_xor_expr@);
        assert(decreases_to!(x@ => x@->Chain_0));
    }
    match generate_bit_xor_expr(text, &x.bit_xor_expr, stack_info) {
        Ok(()) => {},
        Err(e) => return Err(e),
    }
    let mut i: usize = 0;
    while i < x.additional.len()
        invariant
            0 <= i <= x.additional.len(),
            st0 == old(stack_info)@,
            t0 == old(text)@,
            ops == bit_or_expr_ops_view(x.additional@),
            stack_info@.vars == st0.vars,
            stack_info@.stack_index == st0.stack_index,
            gen_bit_or_expr_spec(x@, st0.vars, st0.counter, t0) == gen_bit_or_expr_rest(
                ops,
                i as int,
                st0.vars,
                stack_info@.counter,
                text@,
            ),
        decreases x.additional.len() - i,
    {
        proof {
            assert(ops[i as int].1 == x.additional@[i as int]@);
            assert(x@ is Chain && x@->Chain_1 == ops);
            assert(decreases_to!(x@ => x@->Chain_1));
            assert(decreases_to!(ops => ops[i as int]));
            assert(decreases_to!(ops[i as int] => ops[i as int].1));
        }
            text.append("push %rax\n");
            match generate_bit_xor_expr(text, &x.additional[i], stack_info) {
                Ok(()) => {},
                Err(e) => return Err(e),
            }
            text.append("pop %rcx\nor %ecx, %eax\n");
            i += 1;
        }
    Ok(())
}

/// Appends the code of an expression of binary level 9: its first
/// operand, then for each further operand the code that combines it with
/// the value so far.
pub fn generate_log_and_expr(text: &mut String, x: &LogicalAndExpr, stack_info: &mut StackInfo) -> (r: Result<
    (),
    GenError,
>)
    ensures
        gen_post(
            r,
            gen_log_and_expr_spec(x@, old(stack_info)@.vars, old(stack_info)@.counter, old(text)@),
            final(text)@,
            old(stack_info)@,
            final(stack_info)@,
        ),
    decreases x@, 9nat,
{
    let ghost st0 = stack_info@;
    let ghost t0 = text@;
    let ghost ops = log_and_expr_ops_view(x.additional@);
    proof {
        assert(x@ is Chain && x@->Chain_0 == x.bit_or_expr@);
        assert(decreases_to!(x@ => x@->Chain_0));
    }
    match generate_bit_or_expr(text, &x.bit_or_expr, stack_info) {
        Ok(()) => {},
        Err(e) => return Err(e),
    }
    let mut i: usize = 0;
    while i < x.additional.len()
        invariant
            0 <= i <= x.additional.len(),
            st0 == old(stack_info)@,
            t0 == old(text)@,
            ops == log_and_expr_ops_view(x.additional@),
            stack_info@.vars == st0.vars,
            stack_info@.stack_index == st0.stack_index,
            gen_log_and_expr_spec(x@, st0.vars, st0.counter, t0) == gen_log_and_expr_rest(
                ops,
                i as int,
                st0.vars,
                stack_info@.counter,
                text@,
            ),
        decreases x.additional.len() - i,
    {
        proof {
            assert(ops[i as int].1 == x.additional@[i as int]@);
            assert(x@ is Chain && x@->Chain_1 == ops);
            assert(decreases_to!(x@ => x@->Chain_1));
            assert(decreases_to!(ops => ops[i as int]));
            assert(decreases_to!(ops[i as int] => ops[i as int].1));
        }
            let c = stack_info.counter;
            if c == u32::MAX {
                return Err(GenError::CounterOverflow);
            }
            stack_info.counter = c + 1;
            text.append("cmpl $0, %eax\njne _clause");
            append_decimal_u32(text, c);
            text.append("\njmp _end");
            append_decimal_u32(text, c);
            text.append("\n_clause");
            append_decimal_u32(text, c);
            text.append(":\n");
            match generate_bit_or_expr(text, &x.additional[i], stack_info) {
                Ok(()) => {},
                Err(e) => return Err(e),
            }
            text.append("cmpl $0, %eax\nmovl $0, %eax\nsetne %al\n_end");
            append_decimal_u32(text, c);
            text.append(":\n");
            i += 1;
        }
    Ok(())
}

/// Appends the code of an expression of binary level 10: its first
/// operand, then for each further operand the code that combines it with
/// the value so far.
pub fn generate_log_or_expr(text: &mut String, x: &LogicalOrExpr, stack_info: &mut StackInfo) -> (r: Result<
    (),
    GenError,
>)
    ensures
        gen_post(
            r,
            gen_log_or_expr_spec(x@, old(stack_info)@.vars, old(stack_info)@.counter, old(text)@),
            final(text)@,
            old(stack_info)@,
            final(stack_info)@,
        ),
    decreases x@, 10nat,
{
    let ghost st0 = stack_info@;
    let ghost t0 = text@;
    let ghost ops = log_or_expr_ops_view(x.additional@);
    proof {
        assert(x@ is Chain && x@->Chain_0 == x.log_and_expr@);
        assert(decreases_to!(x@ => x@->Chain_0));
    }
    match generate_log_and_expr(text, &x.log_and_expr, stack_info) {
        Ok(()) => {},
        Err(e) => return Err(e),
    }
    let mut i: usize = 0;
    while i < x.additional.len()
        invariant
            0 <= i <= x.additional.len(),
            st0 == old(stack_info)@,
            t0 == old(text)@,
            ops == log_or_expr_ops_view(x.additional@),
            stack_info@.vars == st0.vars,
            stack_info@.stack_index == st0.stack_index,
            gen_log_or_expr_spec(x@, st0.vars, st0.counter, t0) == gen_log_or_expr_rest(
                ops,
                i as int,
                st0.vars,
                stack_info@.counter,
                text@,
            ),
        decreases x.additional.len() - i,
    {
        proof {
            assert(ops[i as int].1 == x.additional@[i as int]@);
            assert(x@ is Chain && x@->Chain_1 == ops);
            assert(decreases_to!(x@ => x@->Chain_1));
            assert(decreases_to!(ops => ops[i as int]));
            assert(decreases_to!(ops[i as int] => ops[i as int].1));
        }
            let c = stack_info.counter;
            if c == u32::MAX {
                return Err(GenError::CounterOverflow);
            }
            stack_info.counter = c + 1;
            text.append("cmpl $0, %eax\nje _clause");
            append_decimal_u32(text, c);
            text.append("\nmovl $1, %eax\njmp _end");
            append_decimal_u32(text, c);
            text.append("\n_clause");
            append_decimal_u32(text, c);
            text.append(":\n");
            match generate_log_and_expr(text, &x.additional[i], stack_info) {
                Ok(()) => {},
                Err(e) => return Err(e),
            }
            text.append("cmpl $0, %eax\nmovl $0, %eax\nsetne %al\n_end");
            append_decimal_u32(text, c);
            text.append(":\n");
            i += 1;
        }
    Ok(())
}

/// Appends the code of a conditional expression: its condition, then where
/// it has the two branches, a jump over the first when the condition is zero
/// and over the second after the first.
pub fn generate_conditional_expr(
    text: &mut String,
    conditional_expr: &ConditionalExpr,
    stack_info: &mut StackInfo,
) -> (r: Result<(), GenError>)
    ensures
        gen_post(
            r,
            gen_conditional_spec(
                conditional_expr@,
                old(stack_info)@.vars,
                old(stack_info)@.counter,
                old(text)@,
            ),
            final(text)@,
            old(stack_info)@,
            final(stack_info)@,
        ),
    decreases conditional_expr@, 11nat,
{
    let ghost cv = conditional_expr@;
    proof {
        match &conditional_expr.additional {
            Some((a, b)) => {
                assert(cv is Ternary && cv->Ternary_0 == conditional_expr.log_or_expr@);
                assert(decreases_to!(cv => cv->Ternary_0));
                assert(cv->Ternary_1 == a@ && cv->Ternary_2 == b@);
                assert(decreases_to!(cv => cv->Ternary_1));
                assert(decreases_to!(cv => cv->Ternary_2));
            },
            None => {
                assert(cv is Cond && cv->Cond_0 == conditional_expr.log_or_expr@);
                assert(decreases_to!(cv => cv->Cond_0));
            },
        }
    }
    match generate_log_or_expr(text, &conditional_expr.log_or_expr, stack_info) {
        Ok(()) => {},
        Err(e) => return Err(e),
    }
    if let Some((a, b)) = &conditional_expr.additional {
        let c = stack_info.counter;
        if c == u32::MAX {
            return Err(GenError::CounterOverflow);
        }
        stack_info.counter = c + 1;
        text.append("cmpl $0, %eax\nje _e");
        append_decimal_u32(text, c);
        text.append("\n");
        match generate_expr(text, a, stack_info) {
            Ok(()) => {},
            Err(e) => return Err(e),
        }
        text.append("jmp _post_cond");
        append_decimal_u32(text, c);
        text.append("\n_e");
        append_decimal_u32(text, c);
        text.append(":\n");
        match generate_conditional_expr(text, b, stack_info) {
            Ok(()) => {},
            Err(e) => return Err(e),
        }
        text.append("_post_cond");
        append_decimal_u32(text, c);
        text.append(":\n");
    }
    Ok(())
}

/// Appends the code of an expression: for an assignment, the code of the
/// value and a store into the variable's stack slot.
pub fn generate_expr(text: &mut String, expr: &Expression, stack_info: &mut StackInfo) -> (r: Result<
    (),
    GenError,
>)
    ensures
        gen_post(
            r,
            gen_expr_spec(expr@, old(stack_info)@.vars, old(stack_info)@.counter, old(text)@),
            final(text)@,
            old(stack_info)@,
            final(stack_info)@,
        ),
    decreases expr@, 12nat,
{
    match expr {
        Expression::Assign(name, inner_expr) => {
            match generate_expr(text, inner_expr, stack_info) {
                Ok(()) => {},
                Err(e) => return Err(e),
            }
            match stack_info.var_map.get(name.as_str()) {
                Some(offset) => {
                    text.append("movl %eax, ");
                    append_decimal(text, *offset);
                    text.append("(%ebp)\n");
                    Ok(())
                },
                None => Err(GenError::UndeclaredVariable(name.clone())),
            }
        },
        Expression::Conditional(conditional_expr) => generate_conditional_expr(
            text,
            conditional_expr,
            stack_info,
        ),
    }
}

/// The text after the code of a statement is appended to `out`, and the
/// counter after it. Only a `return` leaves the function: after its value is
/// in `%eax`, the stack frame is torn down and control goes back to the
/// caller. Each `if` takes the next label number before its branches.
pub open spec fn gen_statement_spec(
    s: SpecStatement,
    vars: Map<Seq<char>, i32>,
    counter: int,
    out: Seq<char>,
) -> Result<(Seq<char>, int), SpecGenError>
    decreases s,
{
    match s {
        SpecStatement::Expr(e) => gen_expr_spec(e, vars, counter, out),
        SpecStatement::Return(e) => match gen_expr_spec(e, vars, counter, out) {
            Ok((o, c)) => Ok((o + "movl %ebp, %esp\npop %rbp\nret\n"@, c)),
            Err(err) => Err(err),
        },
        SpecStatement::If(e, t) => match gen_expr_spec(e, vars, counter, out) {
            Ok((o1, c1)) => if c1 >= u32::MAX {
                Err(SpecGenError::CounterOverflow)
            } else {
                let n = nat_decimal(c1 as nat);
                match gen_statement_spec(*t, vars, c1 + 1, o1 + "cmpl $0, %eax\nje _e"@ + n + "\n"@) {
                    Ok((o2, c2)) => Ok((o2 + "_e"@ + n + ":\n"@, c2)),
                    Err(err) => Err(err),
                }
            },
            Err(err) => Err(err),
        },
        SpecStatement::IfElse(e, t, f) => match gen_expr_spec(e, vars, counter, out) {
            Ok((o1, c1)) => if c1 >= u32::MAX {
                Err(SpecGenError::CounterOverflow)
            } else {
                let n = nat_decimal(c1 as nat);
                match gen_statement_spec(*t, vars, c1 + 1, o1 + "cmpl $0, %eax\nje _e"@ + n + "\n"@) {
                    Ok((o2, c2)) => match gen_statement_spec(
                        *f,
                        vars,
                        c2,
                        o2 + "jmp _post_cond"@ + n + "\n_e"@ + n + ":\n"@,
                    ) {
                        Ok((o3, c3)) => Ok((o3 + "_post_cond"@ + n + ":\n"@, c3)),
                        Err(err) => Err(err),
                    },
                    Err(err) => Err(err),
                }
            },
            Err(err) => Err(err),
        },
    }
}

/// The text after the code of a declaration is appended to `out`, and the
/// state after it: the variable takes the current stack slot, and the next
/// slot is 8 bytes lower.
pub open spec fn gen_declaration_spec(d: SpecDeclaration, st: SpecStackInfo, out: Seq<char>) -> Result<
    (Seq<char>, SpecStackInfo),
    SpecGenError,
> {
    if st.vars.contains_key(d.identifier) {
        Err(SpecGenError::Redeclared(d.identifier))
    } else {
        let value = match d.expr {
            Some(e) => gen_expr_spec(e, st.vars, st.counter, out),
            None => Ok((out + "movl $0, %eax\n"@, st.counter)),
        };
        match value {
            Ok((o, c)) => if st.stack_index - 8 < i32::MIN {
                Err(SpecGenError::StackOverflow)
            } else {
                Ok(
                    (
                        o + "push %rax\n"@,
                        SpecStackInfo {
                            counter: c,
                            stack_index: st.stack_index - 8,
                            vars: st.vars.insert(d.identifier, st.stack_index as i32),
                        },
                    ),
                )
            },
            Err(err) => Err(err),
        }
    }
}

/// The code of the body items from the `i`-th on, the state after them,
/// and whether a `return` statement was among them or before them.
pub open spec fn gen_blocks_spec(
    blocks: Seq<SpecBlock>,
    i: int,
    st: SpecStackInfo,
    out: Seq<char>,
    has_ret: bool,
) -> Result<(Seq<char>, SpecStackInfo, bool), SpecGenError>
    decreases blocks.len() - i,
{
    if i < 0 || i >= blocks.len() {
        Ok((out, st, has_ret))
    } else {
        match blocks[i] {
            SpecBlock::Statement(s) => match gen_statement_spec(s, st.vars, st.counter, out) {
                Ok((o, c)) => gen_blocks_spec(
                    blocks,
                    i + 1,
                    SpecStackInfo { counter: c, stack_index: st.stack_index, vars: st.vars },
                    o,
                    has_ret || s is Return,
                ),
                Err(err) => Err(err),
            },
            SpecBlock::Declaration(d) => match gen_declaration_spec(d, st, out) {
                Ok((o, st2)) => gen_blocks_spec(blocks, i + 1, st2, o, has_ret),
                Err(err) => Err(err),
            },
        }
    }
}

/// The code of the functions from the `i`-th on: each a label with its
/// name, the prologue, its items, and where no item was a `return`
/// statement, a zero in `%eax` and the epilogue that tears down the frame.
pub open spec fn gen_functions_spec(
    fs: Seq<SpecFunction>,
    i: int,
    st: SpecStackInfo,
    out: Seq<char>,
) -> Result<(Seq<char>, SpecStackInfo), SpecGenError>
    decreases fs.len() - i,
{
    if i < 0 || i >= fs.len() {
        Ok((out, st))
    } else {
        match gen_blocks_spec(
            fs[i].blocks,
            0,
            st,
            out + fs[i].name + ":\npush %rbp\nmovl %esp, %ebp\n"@,
            false,
        ) {
            Ok((o, st2, has_ret)) => gen_functions_spec(
                fs,
                i + 1,
                st2,
                if has_ret { o } else { o + "movl $0, %eax\nmovl %ebp, %esp\npop %rbp\nret\n"@ },
            ),
            Err(err) => Err(err),
        }
    }
}

/// The assembly text of a program, or why it has none.
pub open spec fn generate_spec(p: SpecProgram) -> Result<Seq<char>, SpecGenError> {
    match gen_functions_spec(p.functions, 0, initial_stack_info(), ".globl main\n\n"@) {
        Ok((o, _)) => Ok(o),
        Err(e) => Err(e),
    }
}

/// Appends the code of a statement.
pub fn generate_statement(text: &mut String, statement: &Statement, stack_info: &mut StackInfo) -> (r:
    Result<(), GenError>)
    ensures
        gen_post(
            r,
            gen_statement_spec(
                statement@,
                old(stack_info)@.vars,
                old(stack_info)@.counter,
                old(text)@,
            ),
            final(text)@,
            old(stack_info)@,
            final(stack_info)@,
        ),
    decreases statement@,
{
    match statement {
        Statement::Expr(expr) => generate_expr(text, expr, stack_info),
        Statement::Return(expr) => {
            match generate_expr(text, expr, stack_info) {
                Ok(()) => {},
                Err(e) => return Err(e),
            }
            text.append("movl %ebp, %esp\npop %rbp\nret\n");
            Ok(())
        },
        Statement::If(expr, if_state, else_state) => {
            match generate_expr(text, expr, stack_info) {
                Ok(()) => {},
                Err(e) => return Err(e),
            }
            let c = stack_info.counter;
            if c == u32::MAX {
                return Err(GenError::CounterOverflow);
            }
            stack_info.counter = c + 1;
            text.append("cmpl $0, %eax\nje _e");
            append_decimal_u32(text, c);
            text.append("\n");
            match generate_statement(text, if_state, stack_info) {
                Ok(()) => {},
                Err(e) => return Err(e),
            }
            match else_state {
                Some(s) => {
                    text.append("jmp _post_cond");
                    append_decimal_u32(text, c);
                    text.append("\n_e");
                    append_decimal_u32(text, c);
                    text.append(":\n");
                    match generate_statement(text, s, stack_info) {
                        Ok(()) => {},
                        Err(e) => return Err(e),
                    }
                    text.append("_post_cond");
                    append_decimal_u32(text, c);
                    text.append(":\n");
                },
                None => {
                    text.append("_e");
                    append_decimal_u32(text, c);
                    text.append(":\n");
                },
            }
            Ok(())
        },
    }
}

/// Appends the code of a declaration: its value (zero where it has none)
/// pushed on the stack, and records the variable's stack slot.
pub fn generate_declaration(
    text: &mut String,
    declaration: &Declaration,
    stack_info: &mut StackInfo,
) -> (r: Result<(), GenError>)
    ensures
        match gen_declaration_spec(declaration@, old(stack_info)@, old(text)@) {
            Ok((t, st)) => r is Ok && final(text)@ == t && final(stack_info)@ == st,
            Err(e) => r matches Err(x) && x@ == e,
        },
{
    let name = declaration.identifier.as_str();
    if stack_info.var_map.contains_key(name) {
        return Err(GenError::Redeclared(declaration.identifier.clone()));
    }
    match &declaration.expr {
        Some(inner_expr) => {
            match generate_expr(text, inner_expr, stack_info) {
                Ok(()) => {},
                Err(e) => return Err(e),
            }
        },
        None => {
            text.append("movl $0, %eax\n");
        },
    }
    text.append("push %rax\n");
    if stack_info.stack_index < i32::MIN + 8 {
        return Err(GenError::StackOverflow);
    }
    stack_info.var_map.insert(declaration.identifier.clone(), stack_info.stack_index);
    stack_info.stack_index = stack_info.stack_index - 8;
    Ok(())
}

/// The text of a generation result, without the state.
pub open spec fn text_of(r: Result<(Seq<char>, SpecStackInfo), SpecGenError>) -> Result<
    Seq<char>,
    SpecGenError,
> {
    match r {
        Ok((o, _)) => Ok(o),
        Err(e) => Err(e),
    }
}

/// The text of a program once the items of its `i`-th function gave `r`.
pub open spec fn finish_functions(
    fs: Seq<SpecFunction>,
    i: int,
    r: Result<(Seq<char>, SpecStackInfo, bool), SpecGenError>,
) -> Result<Seq<char>, SpecGenError> {
    match r {
        Ok((o, st, has_ret)) => text_of(
            gen_functions_spec(fs, i + 1, st, if has_ret { o } else { o + "movl $0, %eax\nmovl %ebp, %esp\npop %rbp\nret\n"@ }),
        ),
        Err(e) => Err(e),
    }
}

/// Generates the assembly text of a program.
pub fn generate(prog: Program) -> (r: Result<String, GenError>)
    ensures
        match generate_spec(prog@) {
            Ok(t) => r matches Ok(s) && s@ == t,
            Err(e) => r matches Err(x) && x@ == e,
        },
{
    let mut text = String::from_str(".globl main\n\n");
    let mut stack_info = StackInfo::new();
    let ghost fs = prog@.functions;
    let ghost goal = generate_spec(prog@);
    let mut i: usize = 0;
    while i < prog.functions.len()
        invariant
            0 <= i <= prog.functions.len(),
            fs == prog@.functions,
            fs.len() == prog.functions.len(),
            goal == generate_spec(prog@),
            goal == text_of(gen_functions_spec(fs, i as int, stack_info@, text@)),
        decreases prog.functions.len() - i,
    {
        let func = &prog.functions[i];
        assert(fs[i as int] == func@);
        let ghost blocks = func@.blocks;
        text.append(func.name.as_str());
        text.append(":\npush %rbp\nmovl %esp, %ebp\n");
        let mut has_ret = false;
        let mut j: usize = 0;
        while j < func.blocks.len()
            invariant
                0 <= j <= func.blocks.len(),
                i < fs.len(),
                fs == prog@.functions,
                goal == generate_spec(prog@),
                blocks == func@.blocks,
                blocks.len() == func.blocks.len(),
                goal == finish_functions(
                    fs,
                    i as int,
                    gen_blocks_spec(blocks, j as int, stack_info@, text@, has_ret),
                ),
            decreases func.blocks.len() - j,
        {
            assert(blocks[j as int] == func.blocks@[j as int]@);
            match &func.blocks[j] {
                BlockItem::Statement(s) => {
                    if let Statement::Return(_) = s {
                        has_ret = true;
                    }
                    match generate_statement(&mut text, s, &mut stack_info) {
                        Ok(()) => {},
                        Err(e) => return Err(e),
                    }
                },
                BlockItem::Declaration(d) => {
                    match generate_declaration(&mut text, d, &mut stack_info) {
                        Ok(()) => {},
                        Err(e) => return Err(e),
                    }
                },
            }
            j += 1;
        }
        if !has_ret {
            text.append("movl $0, %eax\nmovl %ebp, %esp\npop %rbp\nret\n");
        }
        i += 1;
    }
    Ok(text)
}

} // verus!


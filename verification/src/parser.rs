//! Recursive-descent parser from tokens to the syntax tree of one function.
//!
//! Each parsing function starts at a position in the token sequence and gives
//! back the node it read and the position after it, or `None` where the
//! grammar is not met (the program is then rejected).
use vstd::prelude::*;
use crate::lexer::{SpecToken, Token, TokenType, token_views};
use crate::numbers::{parse_i32, parse_i32_spec};

verus! {

/// A parsed program.
pub struct Program {
    pub functions: Vec<Function>,
}

/// A function: its name and the items of its body.
pub struct Function {
    pub name: String,
    pub blocks: Vec<BlockItem>,
}

/// Highest precedence: a parenthesised expression, a unary operator applied
/// to a factor, a number or a variable.
pub enum Factor {
    Expr(Box<Expression>),
    UnaryOp(TokenType, Box<Factor>),
    Number(i32),
    Identifier(String),
}

/// Operands of one precedence level joined by its operators.
pub struct Term {
    pub factor: Factor,
    pub additional: Vec<(TokenType, Factor)>,
}

/// Operands of one precedence level joined by its operators.
pub struct AdditiveExpr {
    pub term: Term,
    pub additional: Vec<(TokenType, Term)>,
}

/// Operands of one precedence level joined by its operators.
pub struct ShiftExpr {
    pub add_expr: AdditiveExpr,
    pub additional: Vec<(TokenType, AdditiveExpr)>,
}

/// Operands of one precedence level joined by its operators.
pub struct RelationalExpr {
    pub shift_expr: ShiftExpr,
    pub additional: Vec<(TokenType, ShiftExpr)>,
}

/// Operands of one precedence level joined by its operators.
pub struct EqualityExpr {
    pub rel_expr: RelationalExpr,
    pub additional: Vec<(TokenType, RelationalExpr)>,
}

/// Operands of one precedence level joined by its operators.
pub struct BitAndExpr {
    pub eq_expr: EqualityExpr,
    pub additional: Vec<EqualityExpr>,
}

/// Operands of one precedence level joined by its operators.
pub struct BitXOrExpr {
    pub bit_and_expr: BitAndExpr,
    pub additional: Vec<BitAndExpr>,
}

/// Operands of one precedence level joined by its operators.
pub struct BitOrExpr {
    pub bit_xor_expr: BitXOrExpr,
    pub additional: Vec<BitXOrExpr>,
}

/// Operands of one precedence level joined by its operators.
pub struct LogicalAndExpr {
    pub bit_or_expr: BitOrExpr,
    pub additional: Vec<BitOrExpr>,
}

/// Operands of one precedence level joined by its operators.
pub struct LogicalOrExpr {
    pub log_and_expr: LogicalAndExpr,
    pub additional: Vec<LogicalAndExpr>,
}

/// A conditional expression `c ? a : b`, or just its condition.
pub struct ConditionalExpr {
    pub log_or_expr: LogicalOrExpr,
    pub additional: Option<(Box<Expression>, Box<ConditionalExpr>)>,
}

/// An assignment or a conditional expression.
pub enum Expression {
    Assign(String, Box<Expression>),
    Conditional(ConditionalExpr),
}

/// A statement.
pub enum Statement {
    Return(Expression),
    Expr(Expression),
    If(Expression, Box<Statement>, Option<Box<Statement>>),
}

/// A variable declaration with an optional initialiser.
pub struct Declaration {
    pub identifier: String,
    pub expr: Option<Expression>,
}

/// An item of a function body.
pub enum BlockItem {
    Statement(Statement),
    Declaration(Declaration),
}

/// The kinds of node of the syntax tree.
pub enum NodeType {
    Program,
    Function,
    Expression,
    Statement,
}

/// An expression of any precedence level as a mathematical value.
///
/// A level that joins operands with operators is a `Chain` of its first
/// operand and the (operator, operand) pairs that follow it; the levels
/// whose nodes hold no operator record the operator of the level.
pub enum SpecExpr {
    Paren(Box<SpecExpr>),
    Unary(TokenType, Box<SpecExpr>),
    Number(i32),
    Ident(Seq<char>),
    Chain(Box<SpecExpr>, Seq<(TokenType, SpecExpr)>),
    Cond(Box<SpecExpr>),
    Ternary(Box<SpecExpr>, Box<SpecExpr>, Box<SpecExpr>),
    Assign(Seq<char>, Box<SpecExpr>),
}

/// A statement as a mathematical value.
pub enum SpecStatement {
    Return(SpecExpr),
    Expr(SpecExpr),
    If(SpecExpr, Box<SpecStatement>),
    IfElse(SpecExpr, Box<SpecStatement>, Box<SpecStatement>),
}

/// A declaration as a mathematical value.
pub struct SpecDeclaration {
    pub identifier: Seq<char>,
    pub expr: Option<SpecExpr>,
}

/// A body item as a mathematical value.
pub enum SpecBlock {
    Statement(SpecStatement),
    Declaration(SpecDeclaration),
}

/// A function as a mathematical value.
pub struct SpecFunction {
    pub name: Seq<char>,
    pub blocks: Seq<SpecBlock>,
}

/// A program as a mathematical value.
pub struct SpecProgram {
    pub functions: Seq<SpecFunction>,
}

pub open spec fn factor_view(f: &Factor) -> SpecExpr
    decreases f, 0int,
{
    match f {
        Factor::Expr(e) => SpecExpr::Paren(Box::new(expression_view(e))),
        Factor::UnaryOp(op, g) => SpecExpr::Unary(*op, Box::new(factor_view(g))),
        Factor::Number(v) => SpecExpr::Number(*v),
        Factor::Identifier(s) => SpecExpr::Ident(s@),
    }
}

pub open spec fn term_view(x: &Term) -> SpecExpr
    decreases x, 0int,
{
    SpecExpr::Chain(Box::new(factor_view(&x.factor)), term_ops_view(x.additional@))
}

pub open spec fn term_ops_view(s: Seq<(TokenType, Factor)>) -> Seq<(TokenType, SpecExpr)>
    decreases s, 1int,
{
    Seq::new(
        s.len(),
        |i: int|
            if 0 <= i < s.len() {
                (s[i].0, factor_view(&s[i].1))
            } else {
                (TokenType::Multiplication, SpecExpr::Number(0))
            },
    )
}

proof fn lemma_term_ops_empty(s: Seq<(TokenType, Factor)>)
    requires
        s.len() == 0,
    ensures
        term_ops_view(s) == Seq::<(TokenType, SpecExpr)>::empty(),
{
    assert(term_ops_view(s) =~= Seq::<(TokenType, SpecExpr)>::empty());
}

proof fn lemma_term_ops_push(s: Seq<(TokenType, Factor)>, x: (TokenType, Factor))
    ensures
        term_ops_view(s.push(x)) == term_ops_view(s).push((x.0, x.1@)),
{
    assert(term_ops_view(s.push(x)) =~= term_ops_view(s).push((x.0, x.1@)));
}

pub open spec fn add_expr_view(x: &AdditiveExpr) -> SpecExpr
    decreases x, 0int,
{
    SpecExpr::Chain(Box::new(term_view(&x.term)), add_expr_ops_view(x.additional@))
}

pub open spec fn add_expr_ops_view(s: Seq<(TokenType, Term)>) -> Seq<(TokenType, SpecExpr)>
    decreases s, 1int,
{
    Seq::new(
        s.len(),
        |i: int|
            if 0 <= i < s.len() {
                (s[i].0, term_view(&s[i].1))
            } else {
                (TokenType::Addition, SpecExpr::Number(0))
            },
    )
}

proof fn lemma_add_expr_ops_empty(s: Seq<(TokenType, Term)>)
    requires
        s.len() == 0,
    ensures
        add_expr_ops_view(s) == Seq::<(TokenType, SpecExpr)>::empty(),
{
    assert(add_expr_ops_view(s) =~= Seq::<(TokenType, SpecExpr)>::empty());
}

proof fn lemma_add_expr_ops_push(s: Seq<(TokenType, Term)>, x: (TokenType, Term))
    ensures
        add_expr_ops_view(s.push(x)) == add_expr_ops_view(s).push((x.0, x.1@)),
{
    assert(add_expr_ops_view(s.push(x)) =~= add_expr_ops_view(s).push((x.0, x.1@)));
}

pub open spec fn shift_expr_view(x: &ShiftExpr) -> SpecExpr
    decreases x, 0int,
{
    SpecExpr::Chain(Box::new(add_expr_view(&x.add_expr)), shift_expr_ops_view(x.additional@))
}

pub open spec fn shift_expr_ops_view(s: Seq<(TokenType, AdditiveExpr)>) -> Seq<(TokenType, SpecExpr)>
    decreases s, 1int,
{
    Seq::new(
        s.len(),
        |i: int|
            if 0 <= i < s.len() {
                (s[i].0, add_expr_view(&s[i].1))
            } else {
                (TokenType::LBitShift, SpecExpr::Number(0))
            },
    )
}

proof fn lemma_shift_expr_ops_empty(s: Seq<(TokenType, AdditiveExpr)>)
    requires
        s.len() == 0,
    ensures
        shift_expr_ops_view(s) == Seq::<(TokenType, SpecExpr)>::empty(),
{
    assert(shift_expr_ops_view(s) =~= Seq::<(TokenType, SpecExpr)>::empty());
}

proof fn lemma_shift_expr_ops_push(s: Seq<(TokenType, AdditiveExpr)>, x: (TokenType, AdditiveExpr))
    ensures
        shift_expr_ops_view(s.push(x)) == shift_expr_ops_view(s).push((x.0, x.1@)),
{
    assert(shift_expr_ops_view(s.push(x)) =~= shift_expr_ops_view(s).push((x.0, x.1@)));
}

pub open spec fn rel_expr_view(x: &RelationalExpr) -> SpecExpr
    decreases x, 0int,
{
    SpecExpr::Chain(Box::new(shift_expr_view(&x.shift_expr)), rel_expr_ops_view(x.additional@))
}

pub open spec fn rel_expr_ops_view(s: Seq<(TokenType, ShiftExpr)>) -> Seq<(TokenType, SpecExpr)>
    decreases s, 1int,
{
    Seq::new(
        s.len(),
        |i: int|
            if 0 <= i < s.len() {
                (s[i].0, shift_expr_view(&s[i].1))
            } else {
                (TokenType::LessThan, SpecExpr::Number(0))
            },
    )
}

proof fn lemma_rel_expr_ops_empty(s: Seq<(TokenType, ShiftExpr)>)
    requires
        s.len() == 0,
    ensures
        rel_expr_ops_view(s) == Seq::<(TokenType, SpecExpr)>::empty(),
{
    assert(rel_expr_ops_view(s) =~= Seq::<(TokenType, SpecExpr)>::empty());
}

proof fn lemma_rel_expr_ops_push(s: Seq<(TokenType, ShiftExpr)>, x: (TokenType, ShiftExpr))
    ensures
        rel_expr_ops_view(s.push(x)) == rel_expr_ops_view(s).push((x.0, x.1@)),
{
    assert(rel_expr_ops_view(s.push(x)) =~= rel_expr_ops_view(s).push((x.0, x.1@)));
}

pub open spec fn eq_expr_view(x: &EqualityExpr) -> SpecExpr
    decreases x, 0int,
{
    SpecExpr::Chain(Box::new(rel_expr_view(&x.rel_expr)), eq_expr_ops_view(x.additional@))
}

pub open spec fn eq_expr_ops_view(s: Seq<(TokenType, RelationalExpr)>) -> Seq<(TokenType, SpecExpr)>
    decreases s, 1int,
{
    Seq::new(
        s.len(),
        |i: int|
            if 0 <= i < s.len() {
                (s[i].0, rel_expr_view(&s[i].1))
            } else {
                (TokenType::Equal, SpecExpr::Number(0))
            },
    )
}

proof fn lemma_eq_expr_ops_empty(s: Seq<(TokenType, RelationalExpr)>)
    requires
        s.len() == 0,
    ensures
        eq_expr_ops_view(s) == Seq::<(TokenType, SpecExpr)>::empty(),
{
    assert(eq_expr_ops_view(s) =~= Seq::<(TokenType, SpecExpr)>::empty());
}

proof fn lemma_eq_expr_ops_push(s: Seq<(TokenType, RelationalExpr)>, x: (TokenType, RelationalExpr))
    ensures
        eq_expr_ops_view(s.push(x)) == eq_expr_ops_view(s).push((x.0, x.1@)),
{
    assert(eq_expr_ops_view(s.push(x)) =~= eq_expr_ops_view(s).push((x.0, x.1@)));
}

pub open spec fn bit_and_expr_view(x: &BitAndExpr) -> SpecExpr
    decreases x, 0int,
{
    SpecExpr::Chain(Box::new(eq_expr_view(&x.eq_expr)), bit_and_expr_ops_view(x.additional@))
}

proof fn lemma_bit_and_expr_ops_empty(s: Seq<EqualityExpr>)
    requires
        s.len() == 0,
    ensures
        bit_and_expr_ops_view(s) == Seq::<(TokenType, SpecExpr)>::empty(),
{
    assert(bit_and_expr_ops_view(s) =~= Seq::<(TokenType, SpecExpr)>::empty());
}

proof fn lemma_bit_and_expr_ops_push(s: Seq<EqualityExpr>, x: EqualityExpr)
    ensures
        bit_and_expr_ops_view(s.push(x)) == bit_and_expr_ops_view(s).push((TokenType::BitAnd, x@)),
{
    assert(bit_and_expr_ops_view(s.push(x)) =~= bit_and_expr_ops_view(s).push((TokenType::BitAnd, x@)));
}

pub open spec fn bit_and_expr_ops_view(s: Seq<EqualityExpr>) -> Seq<(TokenType, SpecExpr)>
    decreases s, 1int,
{
    Seq::new(
        s.len(),
        |i: int|
            if 0 <= i < s.len() {
                (TokenType::BitAnd, eq_expr_view(&s[i]))
            } else {
                (TokenType::BitAnd, SpecExpr::Number(0))
            },
    )
}

pub open spec fn bit_xor_expr_view(x: &BitXOrExpr) -> SpecExpr
    decreases x, 0int,
{
    SpecExpr::Chain(Box::new(bit_and_expr_view(&x.bit_and_expr)), bit_xor_expr_ops_view(x.additional@))
}

proof fn lemma_bit_xor_expr_ops_empty(s: Seq<BitAndExpr>)
    requires
        s.len() == 0,
    ensures
        bit_xor_expr_ops_view(s) == Seq::<(TokenType, SpecExpr)>::empty(),
{
    assert(bit_xor_expr_ops_view(s) =~= Seq::<(TokenType, SpecExpr)>::empty());
}

proof fn lemma_bit_xor_expr_ops_push(s: Seq<BitAndExpr>, x: BitAndExpr)
    ensures
        bit_xor_expr_ops_view(s.push(x)) == bit_xor_expr_ops_view(s).push((TokenType::BitXOr, x@)),
{
    assert(bit_xor_expr_ops_view(s.push(x)) =~= bit_xor_expr_ops_view(s).push((TokenType::BitXOr, x@)));
}

pub open spec fn bit_xor_expr_ops_view(s: Seq<BitAndExpr>) -> Seq<(TokenType, SpecExpr)>
    decreases s, 1int,
{
    Seq::new(
        s.len(),
        |i: int|
            if 0 <= i < s.len() {
                (TokenType::BitXOr, bit_and_expr_view(&s[i]))
            } else {
                (TokenType::BitXOr, SpecExpr::Number(0))
            },
    )
}

pub open spec fn bit_or_expr_view(x: &BitOrExpr) -> SpecExpr
    decreases x, 0int,
{
    SpecExpr::Chain(Box::new(bit_xor_expr_view(&x.bit_xor_expr)), bit_or_expr_ops_view(x.additional@))
}

proof fn lemma_bit_or_expr_ops_empty(s: Seq<BitXOrExpr>)
    requires
        s.len() == 0,
    ensures
        bit_or_expr_ops_view(s) == Seq::<(TokenType, SpecExpr)>::empty(),
{
    assert(bit_or_expr_ops_view(s) =~= Seq::<(TokenType, SpecExpr)>::empty());
}

proof fn lemma_bit_or_expr_ops_push(s: Seq<BitXOrExpr>, x: BitXOrExpr)
    ensures
        bit_or_expr_ops_view(s.push(x)) == bit_or_expr_ops_view(s).push((TokenType::BitOr, x@)),
{
    assert(bit_or_expr_ops_view(s.push(x)) =~= bit_or_expr_ops_view(s).push((TokenType::BitOr, x@)));
}

pub open spec fn bit_or_expr_ops_view(s: Seq<BitXOrExpr>) -> Seq<(TokenType, SpecExpr)>
    decreases s, 1int,
{
    Seq::new(
        s.len(),
        |i: int|
            if 0 <= i < s.len() {
                (TokenType::BitOr, bit_xor_expr_view(&s[i]))
            } else {
                (TokenType::BitOr, SpecExpr::Number(0))
            },
    )
}

pub open spec fn log_and_expr_view(x: &LogicalAndExpr) -> SpecExpr
    decreases x, 0int,
{
    SpecExpr::Chain(Box::new(bit_or_expr_view(&x.bit_or_expr)), log_and_expr_ops_view(x.additional@))
}

proof fn lemma_log_and_expr_ops_empty(s: Seq<BitOrExpr>)
    requires
        s.len() == 0,
    ensures
        log_and_expr_ops_view(s) == Seq::<(TokenType, SpecExpr)>::empty(),
{
    assert(log_and_expr_ops_view(s) =~= Seq::<(TokenType, SpecExpr)>::empty());
}

proof fn lemma_log_and_expr_ops_push(s: Seq<BitOrExpr>, x: BitOrExpr)
    ensures
        log_and_expr_ops_view(s.push(x)) == log_and_expr_ops_view(s).push((TokenType::And, x@)),
{
    assert(log_and_expr_ops_view(s.push(x)) =~= log_and_expr_ops_view(s).push((TokenType::And, x@)));
}

pub open spec fn log_and_expr_ops_view(s: Seq<BitOrExpr>) -> Seq<(TokenType, SpecExpr)>
    decreases s, 1int,
{
    Seq::new(
        s.len(),
        |i: int|
            if 0 <= i < s.len() {
                (TokenType::And, bit_or_expr_view(&s[i]))
            } else {
                (TokenType::And, SpecExpr::Number(0))
            },
    )
}

pub open spec fn log_or_expr_view(x: &LogicalOrExpr) -> SpecExpr
    decreases x, 0int,
{
    SpecExpr::Chain(Box::new(log_and_expr_view(&x.log_and_expr)), log_or_expr_ops_view(x.additional@))
}

proof fn lemma_log_or_expr_ops_empty(s: Seq<LogicalAndExpr>)
    requires
        s.len() == 0,
    ensures
        log_or_expr_ops_view(s) == Seq::<(TokenType, SpecExpr)>::empty(),
{
    assert(log_or_expr_ops_view(s) =~= Seq::<(TokenType, SpecExpr)>::empty());
}

proof fn lemma_log_or_expr_ops_push(s: Seq<LogicalAndExpr>, x: LogicalAndExpr)
    ensures
        log_or_expr_ops_view(s.push(x)) == log_or_expr_ops_view(s).push((TokenType::Or, x@)),
{
    assert(log_or_expr_ops_view(s.push(x)) =~= log_or_expr_ops_view(s).push((TokenType::Or, x@)));
}

pub open spec fn log_or_expr_ops_view(s: Seq<LogicalAndExpr>) -> Seq<(TokenType, SpecExpr)>
    decreases s, 1int,
{
    Seq::new(
        s.len(),
        |i: int|
            if 0 <= i < s.len() {
                (TokenType::Or, log_and_expr_view(&s[i]))
            } else {
                (TokenType::Or, SpecExpr::Number(0))
            },
    )
}

pub open spec fn conditional_view(c: &ConditionalExpr) -> SpecExpr
    decreases c, 0int,
{
    match &c.additional {
        Some((e, d)) => SpecExpr::Ternary(
            Box::new(log_or_expr_view(&c.log_or_expr)),
            Box::new(expression_view(e)),
            Box::new(conditional_view(d)),
        ),
        None => SpecExpr::Cond(Box::new(log_or_expr_view(&c.log_or_expr))),
    }
}

pub open spec fn expression_view(e: &Expression) -> SpecExpr
    decreases e, 0int,
{
    match e {
        Expression::Assign(name, x) => SpecExpr::Assign(name@, Box::new(expression_view(x))),
        Expression::Conditional(c) => conditional_view(c),
    }
}

impl View for Factor {
    type V = SpecExpr;

    open spec fn view(&self) -> SpecExpr {
        factor_view(self)
    }
}

impl View for Term {
    type V = SpecExpr;

    open spec fn view(&self) -> SpecExpr {
        term_view(self)
    }
}

impl View for AdditiveExpr {
    type V = SpecExpr;

    open spec fn view(&self) -> SpecExpr {
        add_expr_view(self)
    }
}

impl View for ShiftExpr {
    type V = SpecExpr;

    open spec fn view(&self) -> SpecExpr {
        shift_expr_view(self)
    }
}

impl View for RelationalExpr {
    type V = SpecExpr;

    open spec fn view(&self) -> SpecExpr {
        rel_expr_view(self)
    }
}

impl View for EqualityExpr {
    type V = SpecExpr;

    open spec fn view(&self) -> SpecExpr {
        eq_expr_view(self)
    }
}

impl View for BitAndExpr {
    type V = SpecExpr;

    open spec fn view(&self) -> SpecExpr {
        bit_and_expr_view(self)
    }
}

impl View for BitXOrExpr {
    type V = SpecExpr;

    open spec fn view(&self) -> SpecExpr {
        bit_xor_expr_view(self)
    }
}

impl View for BitOrExpr {
    type V = SpecExpr;

    open spec fn view(&self) -> SpecExpr {
        bit_or_expr_view(self)
    }
}

impl View for LogicalAndExpr {
    type V = SpecExpr;

    open spec fn view(&self) -> SpecExpr {
        log_and_expr_view(self)
    }
}

impl View for LogicalOrExpr {
    type V = SpecExpr;

    open spec fn view(&self) -> SpecExpr {
        log_or_expr_view(self)
    }
}

impl View for ConditionalExpr {
    type V = SpecExpr;

    open spec fn view(&self) -> SpecExpr {
        conditional_view(self)
    }
}

impl View for Expression {
    type V = SpecExpr;

    open spec fn view(&self) -> SpecExpr {
        expression_view(self)
    }
}

pub open spec fn statement_view(s: &Statement) -> SpecStatement
    decreases s,
{
    match s {
        Statement::Return(e) => SpecStatement::Return(e@),
        Statement::Expr(e) => SpecStatement::Expr(e@),
        Statement::If(e, t, None) => SpecStatement::If(e@, Box::new(statement_view(t))),
        Statement::If(e, t, Some(f)) => SpecStatement::IfElse(
            e@,
            Box::new(statement_view(t)),
            Box::new(statement_view(f)),
        ),
    }
}

impl View for Statement {
    type V = SpecStatement;

    open spec fn view(&self) -> SpecStatement {
        statement_view(self)
    }
}

/// The view of an optional expression.
pub open spec fn option_expr_view(e: Option<Expression>) -> Option<SpecExpr> {
    match e {
        Some(x) => Some(x@),
        None => None,
    }
}

impl View for Declaration {
    type V = SpecDeclaration;

    open spec fn view(&self) -> SpecDeclaration {
        SpecDeclaration { identifier: self.identifier@, expr: option_expr_view(self.expr) }
    }
}

impl View for BlockItem {
    type V = SpecBlock;

    open spec fn view(&self) -> SpecBlock {
        match self {
            BlockItem::Statement(s) => SpecBlock::Statement(s@),
            BlockItem::Declaration(d) => SpecBlock::Declaration(d@),
        }
    }
}

impl View for Function {
    type V = SpecFunction;

    open spec fn view(&self) -> SpecFunction {
        SpecFunction { name: self.name@, blocks: self.blocks@.map_values(|b: BlockItem| b@) }
    }
}

impl View for Program {
    type V = SpecProgram;

    open spec fn view(&self) -> SpecProgram {
        SpecProgram { functions: self.functions@.map_values(|f: Function| f@) }
    }
}

/// The view of what a parsing function gives back: the node's view and the
/// position after it.
pub open spec fn lift_result<T: View>(r: Option<(T, usize)>) -> Option<(T::V, int)> {
    match r {
        Some((x, q)) => Some((x@, q as int)),
        None => None,
    }
}

/// Whether a token may begin the expression of a `return` statement.
pub open spec fn may_start_return_expr(t: TokenType) -> bool {
    t == TokenType::Literal || t == TokenType::Minus || t == TokenType::BitComplement
        || t == TokenType::LogicalNeg || t == TokenType::Identifier || t == TokenType::LParen
}


/// The factor that starts at `pos` and the position after it, or `None`
/// where the tokens there do not form one.
pub open spec fn parse_factor_spec(toks: Seq<SpecToken>, pos: int) -> Option<(SpecExpr, int)>
    decreases toks.len() - pos, 0nat, 0nat,
{
    if pos < 0 || pos >= toks.len() {
        None
    } else {
        let t = toks[pos];
        if t.token_type == TokenType::LParen {
            match parse_expr_spec(toks, pos + 1) {
                Some((e, p)) => if pos < p < toks.len() && toks[p].token_type == TokenType::RParen {
                    Some((SpecExpr::Paren(Box::new(e)), p + 1))
                } else {
                    None
                },
                None => None,
            }
        } else if t.token_type == TokenType::Minus || t.token_type == TokenType::BitComplement
            || t.token_type == TokenType::LogicalNeg {
            match parse_factor_spec(toks, pos + 1) {
                Some((f, p)) => Some((SpecExpr::Unary(t.token_type, Box::new(f)), p)),
                None => None,
            }
        } else if t.token_type == TokenType::Literal {
            match parse_i32_spec(t.text) {
                Some(v) => Some((SpecExpr::Number(v), pos + 1)),
                None => None,
            }
        } else if t.token_type == TokenType::Identifier {
            Some((SpecExpr::Ident(t.text), pos + 1))
        } else {
            None
        }
    }
}

/// The expression of binary level 1 that starts at `pos` and the
/// position after it.
pub open spec fn parse_term_spec(toks: Seq<SpecToken>, pos: int) -> Option<(SpecExpr, int)>
    decreases toks.len() - pos, 1nat, 0nat,
{
    if pos < 0 || pos > toks.len() {
        None
    } else {
        match parse_factor_spec(toks, pos) {
            Some((first, p)) => if pos < p <= toks.len() {
                parse_term_rest(toks, p, first, Seq::empty())
            } else {
                None
            },
            None => None,
        }
    }
}

/// The rest of an expression of binary level 1 from `pos`, where its
/// first operand `first` and the (operator, operand) pairs `acc` were read
/// already.
pub open spec fn parse_term_rest(
    toks: Seq<SpecToken>,
    pos: int,
    first: SpecExpr,
    acc: Seq<(TokenType, SpecExpr)>,
) -> Option<(SpecExpr, int)>
    decreases toks.len() - pos, 1nat, 1nat,
{
    if pos < 0 || pos >= toks.len() {
        None
    } else if toks[pos].token_type == TokenType::Multiplication || toks[pos].token_type == TokenType::Division {
        match parse_factor_spec(toks, pos + 1) {
            Some((e, p)) => if pos < p <= toks.len() {
                parse_term_rest(toks, p, first, acc.push((toks[pos].token_type, e)))
            } else {
                None
            },
            None => None,
        }
    } else {
        Some((SpecExpr::Chain(Box::new(first), acc), pos))
    }
}

/// The expression of binary level 2 that starts at `pos` and the
/// position after it.
pub open spec fn parse_add_expr_spec(toks: Seq<SpecToken>, pos: int) -> Option<(SpecExpr, int)>
    decreases toks.len() - pos, 2nat, 0nat,
{
    if pos < 0 || pos > toks.len() {
        None
    } else {
        match parse_term_spec(toks, pos) {
            Some((first, p)) => if pos < p <= toks.len() {
                parse_add_expr_rest(toks, p, first, Seq::empty())
            } else {
                None
            },
            None => None,
        }
    }
}

/// The rest of an expression of binary level 2 from `pos`, where its
/// first operand `first` and the (operator, operand) pairs `acc` were read
/// already.
pub open spec fn parse_add_expr_rest(
    toks: Seq<SpecToken>,
    pos: int,
    first: SpecExpr,
    acc: Seq<(TokenType, SpecExpr)>,
) -> Option<(SpecExpr, int)>
    decreases toks.len() - pos, 2nat, 1nat,
{
    if pos < 0 || pos >= toks.len() {
        None
    } else if toks[pos].token_type == TokenType::Addition || toks[pos].token_type == TokenType::Minus {
        match parse_term_spec(toks, pos + 1) {
            Some((e, p)) => if pos < p <= toks.len() {
                parse_add_expr_rest(toks, p, first, acc.push((toks[pos].token_type, e)))
            } else {
                None
            },
            None => None,
        }
    } else {
        Some((SpecExpr::Chain(Box::new(first), acc), pos))
    }
}

/// The expression of binary level 3 that starts at `pos` and the
/// position after it.
pub open spec fn parse_shift_expr_spec(toks: Seq<SpecToken>, pos: int) -> Option<(SpecExpr, int)>
    decreases toks.len() - pos, 3nat, 0nat,
{
    if pos < 0 || pos > toks.len() {
        None
    } else {
        match parse_add_expr_spec(toks, pos) {
            Some((first, p)) => if pos < p <= toks.len() {
                parse_shift_expr_rest(toks, p, first, Seq::empty())
            } else {
                None
            },
            None => None,
        }
    }
}

/// The rest of an expression of binary level 3 from `pos`, where its
/// first operand `first` and the (operator, operand) pairs `acc` were read
/// already.
pub open spec fn parse_shift_expr_rest(
    toks: Seq<SpecToken>,
    pos: int,
    first: SpecExpr,
    acc: Seq<(TokenType, SpecExpr)>,
) -> Option<(SpecExpr, int)>
    decreases toks.len() - pos, 3nat, 1nat,
{
    if pos < 0 || pos >= toks.len() {
        None
    } else if toks[pos].token_type == TokenType::LBitShift || toks[pos].token_type == TokenType::RBitShift {
        match parse_add_expr_spec(toks, pos + 1) {
            Some((e, p)) => if pos < p <= toks.len() {
                parse_shift_expr_rest(toks, p, first, acc.push((toks[pos].token_type, e)))
            } else {
                None
            },
            None => None,
        }
    } else {
        Some((SpecExpr::Chain(Box::new(first), acc), pos))
    }
}

/// The expression of binary level 4 that starts at `pos` and the
/// position after it.
pub open spec fn parse_rel_expr_spec(toks: Seq<SpecToken>, pos: int) -> Option<(SpecExpr, int)>
    decreases toks.len() - pos, 4nat, 0nat,
{
    if pos < 0 || pos > toks.len() {
        None
    } else {
        match parse_shift_expr_spec(toks, pos) {
            Some((first, p)) => if pos < p <= toks.len() {
                parse_rel_expr_rest(toks, p, first, Seq::empty())
            } else {
                None
            },
            None => None,
        }
    }
}

/// The rest of an expression of binary level 4 from `pos`, where its
/// first operand `first` and the (operator, operand) pairs `acc` were read
/// already.
pub open spec fn parse_rel_expr_rest(
    toks: Seq<SpecToken>,
    pos: int,
    first: SpecExpr,
    acc: Seq<(TokenType, SpecExpr)>,
) -> Option<(SpecExpr, int)>
    decreases toks.len() - pos, 4nat, 1nat,
{
    if pos < 0 || pos >= toks.len() {
        None
    } else if toks[pos].token_type == TokenType::LessThan || toks[pos].token_type == TokenType::LessThanEqual || toks[pos].token_type == TokenType::GreaterThan || toks[pos].token_type == TokenType::GreaterThanEqual {
        match parse_shift_expr_spec(toks, pos + 1) {
            Some((e, p)) => if pos < p <= toks.len() {
                parse_rel_expr_rest(toks, p, first, acc.push((toks[pos].token_type, e)))
            } else {
                None
            },
            None => None,
        }
    } else {
        Some((SpecExpr::Chain(Box::new(first), acc), pos))
    }
}

/// The expression of binary level 5 that starts at `pos` and the
/// position after it.
pub open spec fn parse_eq_expr_spec(toks: Seq<SpecToken>, pos: int) -> Option<(SpecExpr, int)>
    decreases toks.len() - pos, 5nat, 0nat,
{
    if pos < 0 || pos > toks.len() {
        None
    } else {
        match parse_rel_expr_spec(toks, pos) {
            Some((first, p)) => if pos < p <= toks.len() {
                parse_eq_expr_rest(toks, p, first, Seq::empty())
            } else {
                None
            },
            None => None,
        }
    }
}

/// The rest of an expression of binary level 5 from `pos`, where its
/// first operand `first` and the (operator, operand) pairs `acc` were read
/// already.
pub open spec fn parse_eq_expr_rest(
    toks: Seq<SpecToken>,
    pos: int,
    first: SpecExpr,
    acc: Seq<(TokenType, SpecExpr)>,
) -> Option<(SpecExpr, int)>
    decreases toks.len() - pos, 5nat, 1nat,
{
    if pos < 0 || pos >= toks.len() {
        None
    } else if toks[pos].token_type == TokenType::Equal || toks[pos].token_type == TokenType::NotEqual {
        match parse_rel_expr_spec(toks, pos + 1) {
            Some((e, p)) => if pos < p <= toks.len() {
                parse_eq_expr_rest(toks, p, first, acc.push((toks[pos].token_type, e)))
            } else {
                None
            },
            None => None,
        }
    } else {
        Some((SpecExpr::Chain(Box::new(first), acc), pos))
    }
}

/// The expression of binary level 6 that starts at `pos` and the
/// position after it.
pub open spec fn parse_bit_and_expr_spec(toks: Seq<SpecToken>, pos: int) -> Option<(SpecExpr, int)>
    decreases toks.len() - pos, 6nat, 0nat,
{
    if pos < 0 || pos > toks.len() {
        None
    } else {
        match parse_eq_expr_spec(toks, pos) {
            Some((first, p)) => if pos < p <= toks.len() {
                parse_bit_and_expr_rest(toks, p, first, Seq::empty())
            } else {
                None
            },
            None => None,
        }
    }
}

/// The rest of an expression of binary level 6 from `pos`, where its
/// first operand `first` and the (operator, operand) pairs `acc` were read
/// already.
pub open spec fn parse_bit_and_expr_rest(
    toks: Seq<SpecToken>,
    pos: int,
    first: SpecExpr,
    acc: Seq<(TokenType, SpecExpr)>,
) -> Option<(SpecExpr, int)>
    decreases toks.len() - pos, 6nat, 1nat,
{
    if pos < 0 || pos >= toks.len() {
        None
    } else if toks[pos].token_type == TokenType::BitAnd {
        match parse_eq_expr_spec(toks, pos + 1) {
            Some((e, p)) => if pos < p <= toks.len() {
                parse_bit_and_expr_rest(toks, p, first, acc.push((TokenType::BitAnd, e)))
            } else {
                None
            },
            None => None,
        }
    } else {
        Some((SpecExpr::Chain(Box::new(first), acc), pos))
    }
}

/// The expression of binary level 7 that starts at `pos` and the
/// position after it.
pub open spec fn parse_bit_xor_expr_spec(toks: Seq<SpecToken>, pos: int) -> Option<(SpecExpr, int)>
    decreases toks.len() - pos, 7nat, 0nat,
{
    if pos < 0 || pos > toks.len() {
        None
    } else {
        match parse_bit_and_expr_spec(toks, pos) {
            Some((first, p)) => if pos < p <= toks.len() {
                parse_bit_xor_expr_rest(toks, p, first, Seq::empty())
            } else {
                None
            },
            None => None,
        }
    }
}

/// The rest of an expression of binary level 7 from `pos`, where its
/// first operand `first` and the (operator, operand) pairs `acc` were read
/// already.
pub open spec fn parse_bit_xor_expr_rest(
    toks: Seq<SpecToken>,
    pos: int,
    first: SpecExpr,
    acc: Seq<(TokenType, SpecExpr)>,
) -> Option<(SpecExpr, int)>
    decreases toks.len() - pos, 7nat, 1nat,
{
    if pos < 0 || pos >= toks.len() {
        None
    } else if toks[pos].token_type == TokenType::BitXOr {
        match parse_bit_and_expr_spec(toks, pos + 1) {
            Some((e, p)) => if pos < p <= toks.len() {
                parse_bit_xor_expr_rest(toks, p, first, acc.push((TokenType::BitXOr, e)))
            } else {
                None
            },
            None => None,
        }
    } else {
        Some((SpecExpr::Chain(Box::new(first), acc), pos))
    }
}

/// The expression of binary level 8 that starts at `pos` and the
/// position after it.
pub open spec fn parse_bit_or_expr_spec(toks: Seq<SpecToken>, pos: int) -> Option<(SpecExpr, int)>
    decreases toks.len() - pos, 8nat, 0nat,
{
    if pos < 0 || pos > toks.len() {
        None
    } else {
        match parse_bit_xor_expr_spec(toks, pos) {
            Some((first, p)) => if pos < p <= toks.len() {
                parse_bit_or_expr_rest(toks, p, first, Seq::empty())
            } else {
                None
            },
            None => None,
        }
    }
}

/// The rest of an expression of binary level 8 from `pos`, where its
/// first operand `first` and the (operator, operand) pairs `acc` were read
/// already.
pub open spec fn parse_bit_or_expr_rest(
    toks: Seq<SpecToken>,
    pos: int,
    first: SpecExpr,
    acc: Seq<(TokenType, SpecExpr)>,
) -> Option<(SpecExpr, int)>
    decreases toks.len() - pos, 8nat, 1nat,
{
    if pos < 0 || pos >= toks.len() {
        None
    } else if toks[pos].token_type == TokenType::BitOr {
        match parse_bit_xor_expr_spec(toks, pos + 1) {
            Some((e, p)) => if pos < p <= toks.len() {
                parse_bit_or_expr_rest(toks, p, first, acc.push((TokenType::BitOr, e)))
            } else {
                None
            },
            None => None,
        }
    } else {
        Some((SpecExpr::Chain(Box::new(first), acc), pos))
    }
}

/// The expression of binary level 9 that starts at `pos` and the
/// position after it.
pub open spec fn parse_log_and_expr_spec(toks: Seq<SpecToken>, pos: int) -> Option<(SpecExpr, int)>
    decreases toks.len() - pos, 9nat, 0nat,
{
    if pos < 0 || pos > toks.len() {
        None
    } else {
        match parse_bit_or_expr_spec(toks, pos) {
            Some((first, p)) => if pos < p <= toks.len() {
                parse_log_and_expr_rest(toks, p, first, Seq::empty())
            } else {
                None
            },
            None => None,
        }
    }
}

/// The rest of an expression of binary level 9 from `pos`, where its
/// first operand `first` and the (operator, operand) pairs `acc` were read
/// already.
pub open spec fn parse_log_and_expr_rest(
    toks: Seq<SpecToken>,
    pos: int,
    first: SpecExpr,
    acc: Seq<(TokenType, SpecExpr)>,
) -> Option<(SpecExpr, int)>
    decreases toks.len() - pos, 9nat, 1nat,
{
    if pos < 0 || pos >= toks.len() {
        None
    } else if toks[pos].token_type == TokenType::And {
        match parse_bit_or_expr_spec(toks, pos + 1) {
            Some((e, p)) => if pos < p <= toks.len() {
                parse_log_and_expr_rest(toks, p, first, acc.push((TokenType::And, e)))
            } else {
                None
            },
            None => None,
        }
    } else {
        Some((SpecExpr::Chain(Box::new(first), acc), pos))
    }
}

/// The expression of binary level 10 that starts at `pos` and the
/// position after it.
pub open spec fn parse_log_or_expr_spec(toks: Seq<SpecToken>, pos: int) -> Option<(SpecExpr, int)>
    decreases toks.len() - pos, 10nat, 0nat,
{
    if pos < 0 || pos > toks.len() {
        None
    } else {
        match parse_log_and_expr_spec(toks, pos) {
            Some((first, p)) => if pos < p <= toks.len() {
                parse_log_or_expr_rest(toks, p, first, Seq::empty())
            } else {
                None
            },
            None => None,
        }
    }
}

/// The rest of an expression of binary level 10 from `pos`, where its
/// first operand `first` and the (operator, operand) pairs `acc` were read
/// already.
pub open spec fn parse_log_or_expr_rest(
    toks: Seq<SpecToken>,
    pos: int,
    first: SpecExpr,
    acc: Seq<(TokenType, SpecExpr)>,
) -> Option<(SpecExpr, int)>
    decreases toks.len() - pos, 10nat, 1nat,
{
    if pos < 0 || pos >= toks.len() {
        None
    } else if toks[pos].token_type == TokenType::Or {
        match parse_log_and_expr_spec(toks, pos + 1) {
            Some((e, p)) => if pos < p <= toks.len() {
                parse_log_or_expr_rest(toks, p, first, acc.push((TokenType::Or, e)))
            } else {
                None
            },
            None => None,
        }
    } else {
        Some((SpecExpr::Chain(Box::new(first), acc), pos))
    }
}

/// The conditional expression that starts at `pos` and the position after it.
pub open spec fn parse_conditional_spec(toks: Seq<SpecToken>, pos: int) -> Option<(SpecExpr, int)>
    decreases toks.len() - pos, 11nat, 0nat,
{
    if pos < 0 || pos > toks.len() {
        None
    } else {
        match parse_log_or_expr_spec(toks, pos) {
            Some((c, p)) => if !(pos < p < toks.len()) {
                None
            } else if toks[p].token_type == TokenType::QuestionMark {
                match parse_expr_spec(toks, p + 1) {
                    Some((a, q)) => if !(p < q < toks.len()) {
                        None
                    } else if toks[q].token_type == TokenType::Colon {
                        match parse_conditional_spec(toks, q + 1) {
                            Some((b, r)) => Some(
                                (SpecExpr::Ternary(Box::new(c), Box::new(a), Box::new(b)), r),
                            ),
                            None => None,
                        }
                    } else {
                        None
                    },
                    None => None,
                }
            } else {
                Some((SpecExpr::Cond(Box::new(c)), p))
            },
            None => None,
        }
    }
}

/// The expression that starts at `pos` and the position after it: a
/// variable, `=` and an expression, or else a conditional expression.
pub open spec fn parse_expr_spec(toks: Seq<SpecToken>, pos: int) -> Option<(SpecExpr, int)>
    decreases toks.len() - pos, 12nat, 0nat,
{
    if pos < 0 || pos + 1 >= toks.len() {
        None
    } else if toks[pos].token_type == TokenType::Identifier && toks[pos + 1].token_type
        == TokenType::Assign {
        match parse_expr_spec(toks, pos + 2) {
            Some((e, p)) => Some((SpecExpr::Assign(toks[pos].text, Box::new(e)), p)),
            None => None,
        }
    } else {
        parse_conditional_spec(toks, pos)
    }
}

/// The statement that starts at `pos`, and the position after it.
pub open spec fn parse_statement_spec(toks: Seq<SpecToken>, pos: int) -> Option<(SpecStatement, int)>
    decreases toks.len() - pos,
{
    if pos < 0 || pos >= toks.len() {
        None
    } else if toks[pos].token_type == TokenType::Return {
        if pos + 1 >= toks.len() || !may_start_return_expr(toks[pos + 1].token_type) {
            None
        } else {
            match parse_expr_spec(toks, pos + 1) {
                Some((e, p)) => if 0 <= p < toks.len() && toks[p].token_type == TokenType::Semicolon {
                    Some((SpecStatement::Return(e), p + 1))
                } else {
                    None
                },
                None => None,
            }
        }
    } else if toks[pos].token_type == TokenType::Identifier {
        match parse_expr_spec(toks, pos) {
            Some((e, p)) => if 0 <= p < toks.len() && toks[p].token_type == TokenType::Semicolon {
                Some((SpecStatement::Expr(e), p + 1))
            } else {
                None
            },
            None => None,
        }
    } else if toks[pos].token_type == TokenType::If {
        if pos + 1 >= toks.len() || toks[pos + 1].token_type != TokenType::LParen {
            None
        } else {
            match parse_expr_spec(toks, pos + 2) {
                Some((e, p)) => if !(pos < p < toks.len()) || toks[p].token_type
                    != TokenType::RParen {
                    None
                } else {
                    match parse_statement_spec(toks, p + 1) {
                        Some((s, q)) => if !(pos < q < toks.len()) {
                            None
                        } else if toks[q].token_type == TokenType::Else {
                            match parse_statement_spec(toks, q + 1) {
                                Some((t, r)) => Some(
                                    (SpecStatement::IfElse(e, Box::new(s), Box::new(t)), r),
                                ),
                                None => None,
                            }
                        } else {
                            Some((SpecStatement::If(e, Box::new(s)), q))
                        },
                        None => None,
                    }
                },
                None => None,
            }
        }
    } else {
        None
    }
}

/// The declaration that starts at `pos` (at its type `int`), and the
/// position after it: `int`, a name, then either `;` or `=`, an expression
/// and `;`.
pub open spec fn parse_declaration_spec(toks: Seq<SpecToken>, pos: int) -> Option<
    (SpecDeclaration, int),
> {
    if pos < 0 || pos + 2 >= toks.len() {
        None
    } else if toks[pos].token_type != TokenType::Integer || toks[pos + 1].token_type
        != TokenType::Identifier {
        None
    } else {
        let name = toks[pos + 1].text;
        if toks[pos + 2].token_type == TokenType::Semicolon {
            Some((SpecDeclaration { identifier: name, expr: None }, pos + 3))
        } else if toks[pos + 2].token_type == TokenType::Assign {
            match parse_expr_spec(toks, pos + 3) {
                Some((e, p)) => if 0 <= p < toks.len() && toks[p].token_type == TokenType::Semicolon {
                    Some((SpecDeclaration { identifier: name, expr: Some(e) }, p + 1))
                } else {
                    None
                },
                None => None,
            }
        } else {
            None
        }
    }
}

/// The body item that starts at `pos`, and the position after it.
pub open spec fn parse_block_spec(toks: Seq<SpecToken>, pos: int) -> Option<(SpecBlock, int)> {
    if pos < 0 || pos >= toks.len() {
        None
    } else if toks[pos].token_type == TokenType::Integer {
        match parse_declaration_spec(toks, pos) {
            Some((d, p)) => Some((SpecBlock::Declaration(d), p)),
            None => None,
        }
    } else {
        match parse_statement_spec(toks, pos) {
            Some((s, p)) => Some((SpecBlock::Statement(s), p)),
            None => None,
        }
    }
}

/// The body items from `pos` up to a closing brace or the end of the tokens,
/// after the items `acc`, and the position where they stop.
pub open spec fn parse_blocks_spec(toks: Seq<SpecToken>, pos: int, acc: Seq<SpecBlock>) -> Option<
    (Seq<SpecBlock>, int),
>
    decreases toks.len() - pos,
{
    if pos < 0 || pos >= toks.len() || toks[pos].token_type == TokenType::RBrace {
        Some((acc, pos))
    } else {
        match parse_block_spec(toks, pos) {
            Some((b, p)) => if pos < p <= toks.len() {
                parse_blocks_spec(toks, p, acc.push(b))
            } else {
                None
            },
            None => None,
        }
    }
}

/// The function that starts at `pos`: `int`, a name, `(`, `)`, `{`, its
/// items, then a closing brace, which is skipped if it is there.
pub open spec fn parse_fn_spec(toks: Seq<SpecToken>, pos: int) -> Option<(SpecFunction, int)> {
    if pos < 0 || pos + 5 > toks.len() {
        None
    } else if toks[pos].token_type != TokenType::Integer || toks[pos + 1].token_type
        != TokenType::Identifier || toks[pos + 2].token_type != TokenType::LParen
        || toks[pos + 3].token_type != TokenType::RParen || toks[pos + 4].token_type
        != TokenType::LBrace {
        None
    } else {
        match parse_blocks_spec(toks, pos + 5, Seq::empty()) {
            Some((blocks, p)) => Some(
                (
                    SpecFunction { name: toks[pos + 1].text, blocks },
                    if p < toks.len() { p + 1 } else { p },
                ),
            ),
            None => None,
        }
    }
}

/// The program of a token sequence: the one function at its start.
pub open spec fn parse_spec(toks: Seq<SpecToken>) -> Option<SpecProgram> {
    match parse_fn_spec(toks, 0) {
        Some((f, _)) => Some(SpecProgram { functions: seq![f] }),
        None => None,
    }
}

/// Reads a factor: `(` expression `)`, a unary operator and a factor, a
/// literal or a variable.
pub fn parse_factor(tokens: &Vec<Token>, pos: usize) -> (r: Option<(Factor, usize)>)
    requires
        pos <= tokens.len(),
    ensures
        lift_result(r) == parse_factor_spec(token_views(tokens@), pos as int),
        r matches Some((_, q)) ==> pos < q <= tokens.len(),
    decreases tokens.len() - pos, 0nat,
{
    let ghost toks = token_views(tokens@);
    if pos >= tokens.len() {
        return None;
    }
    let tt = tokens[pos].token_type;
    assert(toks[pos as int] == tokens@[pos as int]@);
    match tt {
        TokenType::LParen => {
            let (expr, p) = match parse_expr(tokens, pos + 1) {
                Some(x) => x,
                None => return None,
            };
            if p >= tokens.len() {
                return None;
            }
            assert(toks[p as int] == tokens@[p as int]@);
            match tokens[p].token_type {
                TokenType::RParen => {},
                _ => return None,
            }
            Some((Factor::Expr(Box::new(expr)), p + 1))
        },
        TokenType::Minus | TokenType::BitComplement | TokenType::LogicalNeg => {
            let (factor, p) = match parse_factor(tokens, pos + 1) {
                Some(x) => x,
                None => return None,
            };
            Some((Factor::UnaryOp(tt, Box::new(factor)), p))
        },
        TokenType::Literal => match parse_i32(tokens[pos].text.as_str()) {
            Some(v) => Some((Factor::Number(v), pos + 1)),
            None => None,
        },
        TokenType::Identifier => Some((Factor::Identifier(tokens[pos].text.clone()), pos + 1)),
        _ => None,
    }
}

/// Reads one level of binary operators: an operand, then as long as the
/// next token is an operator of this level, that operator and one more operand.
pub fn parse_term(tokens: &Vec<Token>, pos: usize) -> (r: Option<(Term, usize)>)
    requires
        pos <= tokens.len(),
    ensures
        lift_result(r) == parse_term_spec(token_views(tokens@), pos as int),
        r matches Some((_, q)) ==> pos < q <= tokens.len(),
    decreases tokens.len() - pos, 1nat,
{
    let ghost toks = token_views(tokens@);
    let (first, mut p) = match parse_factor(tokens, pos) {
        Some(x) => x,
        None => return None,
    };
    let ghost first_v = first@;
    let mut additional = Vec::new();
    let ghost mut acc: Seq<(TokenType, SpecExpr)> = Seq::empty();
    proof {
        lemma_term_ops_empty(additional@);
    }
    loop
        invariant
            pos < p <= tokens.len(),
            toks == token_views(tokens@),
            first_v == first@,
            acc == term_ops_view(additional@),
            parse_term_spec(toks, pos as int) == parse_term_rest(toks, p as int, first_v, acc),
        ensures
            p < tokens.len(),
            !(toks[p as int].token_type == TokenType::Multiplication || toks[p as int].token_type == TokenType::Division),
        decreases tokens.len() - p,
    {
        if p >= tokens.len() {
            return None;
        }
        let op = tokens[p].token_type;
        assert(toks[p as int] == tokens@[p as int]@);
        if op == TokenType::Multiplication || op == TokenType::Division {
            let (next, q) = match parse_factor(tokens, p + 1) {
                Some(x) => x,
                None => return None,
            };
            proof {
                lemma_term_ops_push(additional@, (op, next));
                acc = acc.push((op, next@));
            }
            additional.push((op, next));
            p = q;
        } else {
            break;
        }
    }
    let r = Term { factor: first, additional };
    Some((r, p))
}

/// Reads one level of binary operators: an operand, then as long as the
/// next token is an operator of this level, that operator and one more operand.
pub fn parse_add_expr(tokens: &Vec<Token>, pos: usize) -> (r: Option<(AdditiveExpr, usize)>)
    requires
        pos <= tokens.len(),
    ensures
        lift_result(r) == parse_add_expr_spec(token_views(tokens@), pos as int),
        r matches Some((_, q)) ==> pos < q <= tokens.len(),
    decreases tokens.len() - pos, 2nat,
{
    let ghost toks = token_views(tokens@);
    let (first, mut p) = match parse_term(tokens, pos) {
        Some(x) => x,
        None => return None,
    };
    let ghost first_v = first@;
    let mut additional = Vec::new();
    let ghost mut acc: Seq<(TokenType, SpecExpr)> = Seq::empty();
    proof {
        lemma_add_expr_ops_empty(additional@);
    }
    loop
        invariant
            pos < p <= tokens.len(),
            toks == token_views(tokens@),
            first_v == first@,
            acc == add_expr_ops_view(additional@),
            parse_add_expr_spec(toks, pos as int) == parse_add_expr_rest(toks, p as int, first_v, acc),
        ensures
            p < tokens.len(),
            !(toks[p as int].token_type == TokenType::Addition || toks[p as int].token_type == TokenType::Minus),
        decreases tokens.len() - p,
    {
        if p >= tokens.len() {
            return None;
        }
        let op = tokens[p].token_type;
        assert(toks[p as int] == tokens@[p as int]@);
        if op == TokenType::Addition || op == TokenType::Minus {
            let (next, q) = match parse_term(tokens, p + 1) {
                Some(x) => x,
                None => return None,
            };
            proof {
                lemma_add_expr_ops_push(additional@, (op, next));
                acc = acc.push((op, next@));
            }
            additional.push((op, next));
            p = q;
        } else {
            break;
        }
    }
    let r = AdditiveExpr { term: first, additional };
    Some((r, p))
}

/// Reads one level of binary operators: an operand, then as long as the
/// next token is an operator of this level, that operator and one more operand.
pub fn parse_shift_expr(tokens: &Vec<Token>, pos: usize) -> (r: Option<(ShiftExpr, usize)>)
    requires
        pos <= tokens.len(),
    ensures
        lift_result(r) == parse_shift_expr_spec(token_views(tokens@), pos as int),
        r matches Some((_, q)) ==> pos < q <= tokens.len(),
    decreases tokens.len() - pos, 3nat,
{
    let ghost toks = token_views(tokens@);
    let (first, mut p) = match parse_add_expr(tokens, pos) {
        Some(x) => x,
        None => return None,
    };
    let ghost first_v = first@;
    let mut additional = Vec::new();
    let ghost mut acc: Seq<(TokenType, SpecExpr)> = Seq::empty();
    proof {
        lemma_shift_expr_ops_empty(additional@);
    }
    loop
        invariant
            pos < p <= tokens.len(),
            toks == token_views(tokens@),
            first_v == first@,
            acc == shift_expr_ops_view(additional@),
            parse_shift_expr_spec(toks, pos as int) == parse_shift_expr_rest(toks, p as int, first_v, acc),
        ensures
            p < tokens.len(),
            !(toks[p as int].token_type == TokenType::LBitShift || toks[p as int].token_type == TokenType::RBitShift),
        decreases tokens.len() - p,
    {
        if p >= tokens.len() {
            return None;
        }
        let op = tokens[p].token_type;
        assert(toks[p as int] == tokens@[p as int]@);
        if op == TokenType::LBitShift || op == TokenType::RBitShift {
            let (next, q) = match parse_add_expr(tokens, p + 1) {
                Some(x) => x,
                None => return None,
            };
            proof {
                lemma_shift_expr_ops_push(additional@, (op, next));
                acc = acc.push((op, next@));
            }
            additional.push((op, next));
            p = q;
        } else {
            break;
        }
    }
    let r = ShiftExpr { add_expr: first, additional };
    Some((r, p))
}

/// Reads one level of binary operators: an operand, then as long as the
/// next token is an operator of this level, that operator and one more operand.
pub fn parse_rel_expr(tokens: &Vec<Token>, pos: usize) -> (r: Option<(RelationalExpr, usize)>)
    requires
        pos <= tokens.len(),
    ensures
        lift_result(r) == parse_rel_expr_spec(token_views(tokens@), pos as int),
        r matches Some((_, q)) ==> pos < q <= tokens.len(),
    decreases tokens.len() - pos, 4nat,
{
    let ghost toks = token_views(tokens@);
    let (first, mut p) = match parse_shift_expr(tokens, pos) {
        Some(x) => x,
        None => return None,
    };
    let ghost first_v = first@;
    let mut additional = Vec::new();
    let ghost mut acc: Seq<(TokenType, SpecExpr)> = Seq::empty();
    proof {
        lemma_rel_expr_ops_empty(additional@);
    }
    loop
        invariant
            pos < p <= tokens.len(),
            toks == token_views(tokens@),
            first_v == first@,
            acc == rel_expr_ops_view(additional@),
            parse_rel_expr_spec(toks, pos as int) == parse_rel_expr_rest(toks, p as int, first_v, acc),
        ensures
            p < tokens.len(),
            !(toks[p as int].token_type == TokenType::LessThan || toks[p as int].token_type == TokenType::LessThanEqual || toks[p as int].token_type == TokenType::GreaterThan || toks[p as int].token_type == TokenType::GreaterThanEqual),
        decreases tokens.len() - p,
    {
        if p >= tokens.len() {
            return None;
        }
        let op = tokens[p].token_type;
        assert(toks[p as int] == tokens@[p as int]@);
        if op == TokenType::LessThan || op == TokenType::LessThanEqual || op == TokenType::GreaterThan || op == TokenType::GreaterThanEqual {
            let (next, q) = match parse_shift_expr(tokens, p + 1) {
                Some(x) => x,
                None => return None,
            };
            proof {
                lemma_rel_expr_ops_push(additional@, (op, next));
                acc = acc.push((op, next@));
            }
            additional.push((op, next));
            p = q;
        } else {
            break;
        }
    }
    let r = RelationalExpr { shift_expr: first, additional };
    Some((r, p))
}

/// Reads one level of binary operators: an operand, then as long as the
/// next token is an operator of this level, that operator and one more operand.
pub fn parse_eq_expr(tokens: &Vec<Token>, pos: usize) -> (r: Option<(EqualityExpr, usize)>)
    requires
        pos <= tokens.len(),
    ensures
        lift_result(r) == parse_eq_expr_spec(token_views(tokens@), pos as int),
        r matches Some((_, q)) ==> pos < q <= tokens.len(),
    decreases tokens.len() - pos, 5nat,
{
    let ghost toks = token_views(tokens@);
    let (first, mut p) = match parse_rel_expr(tokens, pos) {
        Some(x) => x,
        None => return None,
    };
    let ghost first_v = first@;
    let mut additional = Vec::new();
    let ghost mut acc: Seq<(TokenType, SpecExpr)> = Seq::empty();
    proof {
        lemma_eq_expr_ops_empty(additional@);
    }
    loop
        invariant
            pos < p <= tokens.len(),
            toks == token_views(tokens@),
            first_v == first@,
            acc == eq_expr_ops_view(additional@),
            parse_eq_expr_spec(toks, pos as int) == parse_eq_expr_rest(toks, p as int, first_v, acc),
        ensures
            p < tokens.len(),
            !(toks[p as int].token_type == TokenType::Equal || toks[p as int].token_type == TokenType::NotEqual),
        decreases tokens.len() - p,
    {
        if p >= tokens.len() {
            return None;
        }
        let op = tokens[p].token_type;
        assert(toks[p as int] == tokens@[p as int]@);
        if op == TokenType::Equal || op == TokenType::NotEqual {
            let (next, q) = match parse_rel_expr(tokens, p + 1) {
                Some(x) => x,
                None => return None,
            };
            proof {
                lemma_eq_expr_ops_push(additional@, (op, next));
                acc = acc.push((op, next@));
            }
            additional.push((op, next));
            p = q;
        } else {
            break;
        }
    }
    let r = EqualityExpr { rel_expr: first, additional };
    Some((r, p))
}

/// Reads one level of binary operators: an operand, then as long as the
/// next token is an operator of this level, that operator and one more operand.
pub fn parse_bit_and_expr(tokens: &Vec<Token>, pos: usize) -> (r: Option<(BitAndExpr, usize)>)
    requires
        pos <= tokens.len(),
    ensures
        lift_result(r) == parse_bit_and_expr_spec(token_views(tokens@), pos as int),
        r matches Some((_, q)) ==> pos < q <= tokens.len(),
    decreases tokens.len() - pos, 6nat,
{
    let ghost toks = token_views(tokens@);
    let (first, mut p) = match parse_eq_expr(tokens, pos) {
        Some(x) => x,
        None => return None,
    };
    let ghost first_v = first@;
    let mut additional = Vec::new();
    let ghost mut acc: Seq<(TokenType, SpecExpr)> = Seq::empty();
    proof {
        lemma_bit_and_expr_ops_empty(additional@);
    }
    loop
        invariant
            pos < p <= tokens.len(),
            toks == token_views(tokens@),
            first_v == first@,
            acc == bit_and_expr_ops_view(additional@),
            parse_bit_and_expr_spec(toks, pos as int) == parse_bit_and_expr_rest(toks, p as int, first_v, acc),
        ensures
            p < tokens.len(),
            !(toks[p as int].token_type == TokenType::BitAnd),
        decreases tokens.len() - p,
    {
        if p >= tokens.len() {
            return None;
        }
        let op = tokens[p].token_type;
        assert(toks[p as int] == tokens@[p as int]@);
        if op == TokenType::BitAnd {
            let (next, q) = match parse_eq_expr(tokens, p + 1) {
                Some(x) => x,
                None => return None,
            };
            proof {
                lemma_bit_and_expr_ops_push(additional@, next);
                acc = acc.push((TokenType::BitAnd, next@));
            }
            additional.push(next);
            p = q;
        } else {
            break;
        }
    }
    let r = BitAndExpr { eq_expr: first, additional };
    Some((r, p))
}

/// Reads one level of binary operators: an operand, then as long as the
/// next token is an operator of this level, that operator and one more operand.
pub fn parse_bit_xor_expr(tokens: &Vec<Token>, pos: usize) -> (r: Option<(BitXOrExpr, usize)>)
    requires
        pos <= tokens.len(),
    ensures
        lift_result(r) == parse_bit_xor_expr_spec(token_views(tokens@), pos as int),
        r matches Some((_, q)) ==> pos < q <= tokens.len(),
    decreases tokens.len() - pos, 7nat,
{
    let ghost toks = token_views(tokens@);
    let (first, mut p) = match parse_bit_and_expr(tokens, pos) {
        Some(x) => x,
        None => return None,
    };
    let ghost first_v = first@;
    let mut additional = Vec::new();
    let ghost mut acc: Seq<(TokenType, SpecExpr)> = Seq::empty();
    proof {
        lemma_bit_xor_expr_ops_empty(additional@);
    }
    loop
        invariant
            pos < p <= tokens.len(),
            toks == token_views(tokens@),
            first_v == first@,
            acc == bit_xor_expr_ops_view(additional@),
            parse_bit_xor_expr_spec(toks, pos as int) == parse_bit_xor_expr_rest(toks, p as int, first_v, acc),
        ensures
            p < tokens.len(),
            !(toks[p as int].token_type == TokenType::BitXOr),
        decreases tokens.len() - p,
    {
        if p >= tokens.len() {
            return None;
        }
        let op = tokens[p].token_type;
        assert(toks[p as int] == tokens@[p as int]@);
        if op == TokenType::BitXOr {
            let (next, q) = match parse_bit_and_expr(tokens, p + 1) {
                Some(x) => x,
                None => return None,
            };
            proof {
                lemma_bit_xor_expr_ops_push(additional@, next);
                acc = acc.push((TokenType::BitXOr, next@));
            }
            additional.push(next);
            p = q;
        } else {
            break;
        }
    }
    let r = BitXOrExpr { bit_and_expr: first, additional };
    Some((r, p))
}

/// Reads one level of binary operators: an operand, then as long as the
/// next token is an operator of this level, that operator and one more operand.
pub fn parse_bit_or_expr(tokens: &Vec<Token>, pos: usize) -> (r: Option<(BitOrExpr, usize)>)
    requires
        pos <= tokens.len(),
    ensures
        lift_result(r) == parse_bit_or_expr_spec(token_views(tokens@), pos as int),
        r matches Some((_, q)) ==> pos < q <= tokens.len(),
    decreases tokens.len() - pos, 8nat,
{
    let ghost toks = token_views(tokens@);
    let (first, mut p) = match parse_bit_xor_expr(tokens, pos) {
        Some(x) => x,
        None => return None,
    };
    let ghost first_v = first@;
    let mut additional = Vec::new();
    let ghost mut acc: Seq<(TokenType, SpecExpr)> = Seq::empty();
    proof {
        lemma_bit_or_expr_ops_empty(additional@);
    }
    loop
        invariant
            pos < p <= tokens.len(),
            toks == token_views(tokens@),
            first_v == first@,
            acc == bit_or_expr_ops_view(additional@),
            parse_bit_or_expr_spec(toks, pos as int) == parse_bit_or_expr_rest(toks, p as int, first_v, acc),
        ensures
            p < tokens.len(),
            !(toks[p as int].token_type == TokenType::BitOr),
        decreases tokens.len() - p,
    {
        if p >= tokens.len() {
            return None;
        }
        let op = tokens[p].token_type;
        assert(toks[p as int] == tokens@[p as int]@);
        if op == TokenType::BitOr {
            let (next, q) = match parse_bit_xor_expr(tokens, p + 1) {
                Some(x) => x,
                None => return None,
            };
            proof {
                lemma_bit_or_expr_ops_push(additional@, next);
                acc = acc.push((TokenType::BitOr, next@));
            }
            additional.push(next);
            p = q;
        } else {
            break;
        }
    }
    let r = BitOrExpr { bit_xor_expr: first, additional };
    Some((r, p))
}

/// Reads one level of binary operators: an operand, then as long as the
/// next token is an operator of this level, that operator and one more operand.
pub fn parse_log_and_expr(tokens: &Vec<Token>, pos: usize) -> (r: Option<(LogicalAndExpr, usize)>)
    requires
        pos <= tokens.len(),
    ensures
        lift_result(r) == parse_log_and_expr_spec(token_views(tokens@), pos as int),
        r matches Some((_, q)) ==> pos < q <= tokens.len(),
    decreases tokens.len() - pos, 9nat,
{
    let ghost toks = token_views(tokens@);
    let (first, mut p) = match parse_bit_or_expr(tokens, pos) {
        Some(x) => x,
        None => return None,
    };
    let ghost first_v = first@;
    let mut additional = Vec::new();
    let ghost mut acc: Seq<(TokenType, SpecExpr)> = Seq::empty();
    proof {
        lemma_log_and_expr_ops_empty(additional@);
    }
    loop
        invariant
            pos < p <= tokens.len(),
            toks == token_views(tokens@),
            first_v == first@,
            acc == log_and_expr_ops_view(additional@),
            parse_log_and_expr_spec(toks, pos as int) == parse_log_and_expr_rest(toks, p as int, first_v, acc),
        ensures
            p < tokens.len(),
            !(toks[p as int].token_type == TokenType::And),
        decreases tokens.len() - p,
    {
        if p >= tokens.len() {
            return None;
        }
        let op = tokens[p].token_type;
        assert(toks[p as int] == tokens@[p as int]@);
        if op == TokenType::And {
            let (next, q) = match parse_bit_or_expr(tokens, p + 1) {
                Some(x) => x,
                None => return None,
            };
            proof {
                lemma_log_and_expr_ops_push(additional@, next);
                acc = acc.push((TokenType::And, next@));
            }
            additional.push(next);
            p = q;
        } else {
            break;
        }
    }
    let r = LogicalAndExpr { bit_or_expr: first, additional };
    Some((r, p))
}

/// Reads one level of binary operators: an operand, then as long as the
/// next token is an operator of this level, that operator and one more operand.
pub fn parse_log_or_expr(tokens: &Vec<Token>, pos: usize) -> (r: Option<(LogicalOrExpr, usize)>)
    requires
        pos <= tokens.len(),
    ensures
        lift_result(r) == parse_log_or_expr_spec(token_views(tokens@), pos as int),
        r matches Some((_, q)) ==> pos < q <= tokens.len(),
    decreases tokens.len() - pos, 10nat,
{
    let ghost toks = token_views(tokens@);
    let (first, mut p) = match parse_log_and_expr(tokens, pos) {
        Some(x) => x,
        None => return None,
    };
    let ghost first_v = first@;
    let mut additional = Vec::new();
    let ghost mut acc: Seq<(TokenType, SpecExpr)> = Seq::empty();
    proof {
        lemma_log_or_expr_ops_empty(additional@);
    }
    loop
        invariant
            pos < p <= tokens.len(),
            toks == token_views(tokens@),
            first_v == first@,
            acc == log_or_expr_ops_view(additional@),
            parse_log_or_expr_spec(toks, pos as int) == parse_log_or_expr_rest(toks, p as int, first_v, acc),
        ensures
            p < tokens.len(),
            !(toks[p as int].token_type == TokenType::Or),
        decreases tokens.len() - p,
    {
        if p >= tokens.len() {
            return None;
        }
        let op = tokens[p].token_type;
        assert(toks[p as int] == tokens@[p as int]@);
        if op == TokenType::Or {
            let (next, q) = match parse_log_and_expr(tokens, p + 1) {
                Some(x) => x,
                None => return None,
            };
            proof {
                lemma_log_or_expr_ops_push(additional@, next);
                acc = acc.push((TokenType::Or, next@));
            }
            additional.push(next);
            p = q;
        } else {
            break;
        }
    }
    let r = LogicalOrExpr { log_and_expr: first, additional };
    Some((r, p))
}

/// Reads a conditional expression: a logical-or expression, then
/// optionally `?`, an expression, `:` and a conditional expression.
pub fn parse_conditional_expr(tokens: &Vec<Token>, pos: usize) -> (r: Option<(ConditionalExpr, usize)>)
    requires
        pos <= tokens.len(),
    ensures
        lift_result(r) == parse_conditional_spec(token_views(tokens@), pos as int),
        r matches Some((_, q)) ==> pos < q <= tokens.len(),
    decreases tokens.len() - pos, 11nat,
{
    let ghost toks = token_views(tokens@);
    let (log_or_expr, p) = match parse_log_or_expr(tokens, pos) {
        Some(x) => x,
        None => return None,
    };
    if p >= tokens.len() {
        return None;
    }
    assert(toks[p as int] == tokens@[p as int]@);
    match tokens[p].token_type {
        TokenType::QuestionMark => {
            let (expr, q) = match parse_expr(tokens, p + 1) {
                Some(x) => x,
                None => return None,
            };
            if q >= tokens.len() {
                return None;
            }
            assert(toks[q as int] == tokens@[q as int]@);
            match tokens[q].token_type {
                TokenType::Colon => {},
                _ => return None,
            }
            let (cond_expr, r) = match parse_conditional_expr(tokens, q + 1) {
                Some(x) => x,
                None => return None,
            };
            Some(
                (
                    ConditionalExpr {
                        log_or_expr,
                        additional: Some((Box::new(expr), Box::new(cond_expr))),
                    },
                    r,
                ),
            )
        },
        _ => Some((ConditionalExpr { log_or_expr, additional: None }, p)),
    }
}

/// Reads an expression: a variable, `=` and an expression, or else a
/// conditional expression. Two tokens must be left.
pub fn parse_expr(tokens: &Vec<Token>, pos: usize) -> (r: Option<(Expression, usize)>)
    requires
        pos <= tokens.len(),
    ensures
        lift_result(r) == parse_expr_spec(token_views(tokens@), pos as int),
        r matches Some((_, q)) ==> pos < q <= tokens.len(),
    decreases tokens.len() - pos, 12nat,
{
    let ghost toks = token_views(tokens@);
    if tokens.len() - pos < 2 {
        return None;
    }
    assert(toks[pos as int] == tokens@[pos as int]@);
    assert(toks[pos + 1] == tokens@[pos + 1]@);
    let first = tokens[pos].token_type;
    let second = tokens[pos + 1].token_type;
    match (first, second) {
        (TokenType::Identifier, TokenType::Assign) => {
            let name = tokens[pos].text.clone();
            match parse_expr(tokens, pos + 2) {
                Some((e, p)) => Some((Expression::Assign(name, Box::new(e)), p)),
                None => None,
            }
        },
        _ => match parse_conditional_expr(tokens, pos) {
            Some((c, p)) => Some((Expression::Conditional(c), p)),
            None => None,
        },
    }
}

/// Reads a statement: `return` expression `;`, an expression `;`, or
/// `if (` expression `)` statement, optionally followed by `else` and a
/// statement.
pub fn parse_statement(tokens: &Vec<Token>, pos: usize) -> (r: Option<(Statement, usize)>)
    requires
        pos <= tokens.len(),
    ensures
        lift_result(r) == parse_statement_spec(token_views(tokens@), pos as int),
        r matches Some((_, q)) ==> pos < q <= tokens.len(),
    decreases tokens.len() - pos,
{
    let ghost toks = token_views(tokens@);
    if pos >= tokens.len() {
        return None;
    }
    assert(toks[pos as int] == tokens@[pos as int]@);
    match tokens[pos].token_type {
        TokenType::Return => {
            if tokens.len() - pos < 2 {
                return None;
            }
            assert(toks[pos + 1] == tokens@[pos + 1]@);
            match tokens[pos + 1].token_type {
                TokenType::Literal
                | TokenType::Minus
                | TokenType::BitComplement
                | TokenType::LogicalNeg
                | TokenType::Identifier
                | TokenType::LParen => {},
                _ => return None,
            }
            let (expr, p) = match parse_expr(tokens, pos + 1) {
                Some(x) => x,
                None => return None,
            };
            if p >= tokens.len() {
                return None;
            }
            assert(toks[p as int] == tokens@[p as int]@);
            match tokens[p].token_type {
                TokenType::Semicolon => {},
                _ => return None,
            }
            Some((Statement::Return(expr), p + 1))
        },
        TokenType::Identifier => {
            let (expr, p) = match parse_expr(tokens, pos) {
                Some(x) => x,
                None => return None,
            };
            if p >= tokens.len() {
                return None;
            }
            assert(toks[p as int] == tokens@[p as int]@);
            match tokens[p].token_type {
                TokenType::Semicolon => {},
                _ => return None,
            }
            Some((Statement::Expr(expr), p + 1))
        },
        TokenType::If => {
            if tokens.len() - pos < 2 {
                return None;
            }
            assert(toks[pos + 1] == tokens@[pos + 1]@);
            match tokens[pos + 1].token_type {
                TokenType::LParen => {},
                _ => return None,
            }
            let (expr, p) = match parse_expr(tokens, pos + 2) {
                Some(x) => x,
                None => return None,
            };
            if p >= tokens.len() {
                return None;
            }
            assert(toks[p as int] == tokens@[p as int]@);
            match tokens[p].token_type {
                TokenType::RParen => {},
                _ => return None,
            }
            let (inner, q) = match parse_statement(tokens, p + 1) {
                Some(x) => x,
                None => return None,
            };
            if q >= tokens.len() {
                return None;
            }
            assert(toks[q as int] == tokens@[q as int]@);
            match tokens[q].token_type {
                TokenType::Else => {
                    let (else_statement, r) = match parse_statement(tokens, q + 1) {
                        Some(x) => x,
                        None => return None,
                    };
                    Some(
                        (
                            Statement::If(expr, Box::new(inner), Some(Box::new(else_statement))),
                            r,
                        ),
                    )
                },
                _ => Some((Statement::If(expr, Box::new(inner), None), q)),
            }
        },
        _ => None,
    }
}

/// Reads a declaration: `int`, a name, then `;` alone or `=`, an expression
/// and `;`.
pub fn parse_declaration(tokens: &Vec<Token>, pos: usize) -> (r: Option<(Declaration, usize)>)
    requires
        pos <= tokens.len(),
    ensures
        lift_result(r) == parse_declaration_spec(token_views(tokens@), pos as int),
        r matches Some((_, q)) ==> pos < q <= tokens.len(),
{
    let ghost toks = token_views(tokens@);
    if tokens.len() - pos < 3 {
        return None;
    }
    assert(toks[pos as int] == tokens@[pos as int]@);
    assert(toks[pos + 1] == tokens@[pos + 1]@);
    assert(toks[pos + 2] == tokens@[pos + 2]@);
    match tokens[pos].token_type {
        TokenType::Integer => {},
        _ => return None,
    }
    match tokens[pos + 1].token_type {
        TokenType::Identifier => {},
        _ => return None,
    }
    let identifier = tokens[pos + 1].text.clone();
    match tokens[pos + 2].token_type {
        TokenType::Semicolon => Some((Declaration { identifier, expr: None }, pos + 3)),
        TokenType::Assign => {
            let (expr, p) = match parse_expr(tokens, pos + 3) {
                Some(x) => x,
                None => return None,
            };
            if p >= tokens.len() {
                return None;
            }
            assert(toks[p as int] == tokens@[p as int]@);
            match tokens[p].token_type {
                TokenType::Semicolon => {},
                _ => return None,
            }
            Some((Declaration { identifier, expr: Some(expr) }, p + 1))
        },
        _ => None,
    }
}

/// Reads a body item: a declaration where the token is `int`, else a
/// statement.
pub fn parse_block(tokens: &Vec<Token>, pos: usize) -> (r: Option<(BlockItem, usize)>)
    requires
        pos <= tokens.len(),
    ensures
        lift_result(r) == parse_block_spec(token_views(tokens@), pos as int),
        r matches Some((_, q)) ==> pos < q <= tokens.len(),
{
    let ghost toks = token_views(tokens@);
    if pos >= tokens.len() {
        return None;
    }
    assert(toks[pos as int] == tokens@[pos as int]@);
    match tokens[pos].token_type {
        TokenType::Integer => match parse_declaration(tokens, pos) {
            Some((d, p)) => Some((BlockItem::Declaration(d), p)),
            None => None,
        },
        _ => match parse_statement(tokens, pos) {
            Some((s, p)) => Some((BlockItem::Statement(s), p)),
            None => None,
        },
    }
}

/// Reads a function: `int`, its name, `(`, `)`, `{`, then body items up to
/// a closing brace or the end of the tokens; the closing brace is skipped.
pub fn parse_fn(tokens: &Vec<Token>, pos: usize) -> (r: Option<(Function, usize)>)
    requires
        pos <= tokens.len(),
    ensures
        lift_result(r) == parse_fn_spec(token_views(tokens@), pos as int),
        r matches Some((_, q)) ==> pos < q <= tokens.len(),
{
    let ghost toks = token_views(tokens@);
    if tokens.len() - pos < 5 {
        return None;
    }
    assert(toks[pos as int] == tokens@[pos as int]@);
    assert(toks[pos + 1] == tokens@[pos + 1]@);
    assert(toks[pos + 2] == tokens@[pos + 2]@);
    assert(toks[pos + 3] == tokens@[pos + 3]@);
    assert(toks[pos + 4] == tokens@[pos + 4]@);
    match tokens[pos].token_type {
        TokenType::Integer => {},
        _ => return None,
    }
    match (tokens[pos + 1].token_type, tokens[pos + 2].token_type) {
        (TokenType::Identifier, TokenType::LParen) => {},
        _ => return None,
    }
    let name = tokens[pos + 1].text.clone();
    match tokens[pos + 3].token_type {
        TokenType::RParen => {},
        _ => return None,
    }
    match tokens[pos + 4].token_type {
        TokenType::LBrace => {},
        _ => return None,
    }
    let mut blocks: Vec<BlockItem> = Vec::new();
    let mut p = pos + 5;
    let ghost mut acc: Seq<SpecBlock> = Seq::empty();
    assert(blocks@.map_values(|b: BlockItem| b@) =~= acc);
    loop
        invariant
            pos + 5 <= p <= tokens.len(),
            toks == token_views(tokens@),
            acc == blocks@.map_values(|b: BlockItem| b@),
            parse_blocks_spec(toks, pos + 5, Seq::empty()) == parse_blocks_spec(toks, p as int, acc),
        ensures
            pos + 5 <= p <= tokens.len(),
            acc == blocks@.map_values(|b: BlockItem| b@),
            parse_blocks_spec(toks, pos + 5, Seq::empty()) == parse_blocks_spec(toks, p as int, acc),
            p == tokens.len() || toks[p as int].token_type == TokenType::RBrace,
        decreases tokens.len() - p,
    {
        if p >= tokens.len() {
            break;
        }
        assert(toks[p as int] == tokens@[p as int]@);
        match tokens[p].token_type {
            TokenType::RBrace => break,
            _ => {},
        }
        let (block, q) = match parse_block(tokens, p) {
            Some(x) => x,
            None => return None,
        };
        proof {
            acc = acc.push(block@);
        }
        blocks.push(block);
        assert(blocks@.map_values(|b: BlockItem| b@) =~= acc);
        p = q;
    }
    let end = if p < tokens.len() { p + 1 } else { p };
    let f = Function { name, blocks };
    assert(f@.blocks == acc);
    Some((f, end))
}

/// Parses a program: the function at the start of the tokens.
pub fn parse(tokens: &Vec<Token>) -> (r: Option<Program>)
    ensures
        match r {
            Some(p) => parse_spec(token_views(tokens@)) == Some(p@),
            None => parse_spec(token_views(tokens@)) is None,
        },
{
    let (f, _) = match parse_fn(tokens, 0) {
        Some(x) => x,
        None => return None,
    };
    let mut functions: Vec<Function> = Vec::new();
    functions.push(f);
    let prog = Program { functions };
    assert(prog@.functions =~= seq![f@]);
    Some(prog)
}

} // verus!


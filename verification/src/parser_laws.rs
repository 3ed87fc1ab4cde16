//! Laws of the parser: a parsed tree holds exactly the tokens that were
//! read for it, in their order.
use vstd::prelude::*;
use crate::lexer::{SpecToken, TokenType};
use crate::numbers::parse_i32_spec;
use crate::parser::{
    SpecDeclaration, SpecExpr, SpecStatement, parse_declaration_spec, parse_factor_spec, parse_conditional_spec, parse_expr_spec, parse_statement_spec, parse_term_spec, parse_term_rest, parse_add_expr_spec, parse_add_expr_rest, parse_shift_expr_spec, parse_shift_expr_rest, parse_rel_expr_spec, parse_rel_expr_rest, parse_eq_expr_spec, parse_eq_expr_rest, parse_bit_and_expr_spec, parse_bit_and_expr_rest, parse_bit_xor_expr_spec, parse_bit_xor_expr_rest, parse_bit_or_expr_spec, parse_bit_or_expr_rest, parse_log_and_expr_spec, parse_log_and_expr_rest, parse_log_or_expr_spec, parse_log_or_expr_rest,
};

verus! {

/// The kinds of a sequence of tokens.
pub open spec fn token_types(toks: Seq<SpecToken>) -> Seq<TokenType> {
    toks.map_values(|t: SpecToken| t.token_type)
}

/// The token kinds that an expression tree stands for, in source order.
pub open spec fn flatten(e: SpecExpr) -> Seq<TokenType>
    decreases e, 0int,
{
    match e {
        SpecExpr::Paren(x) => seq![TokenType::LParen] + flatten(*x) + seq![TokenType::RParen],
        SpecExpr::Unary(op, x) => seq![op] + flatten(*x),
        SpecExpr::Number(_) => seq![TokenType::Literal],
        SpecExpr::Ident(_) => seq![TokenType::Identifier],
        SpecExpr::Chain(f, rest) => {
            proof {
                assert(decreases_to!(e => e->Chain_1));
            }
            flatten(*f) + flatten_pairs(rest, rest.len() as int)
        },
        SpecExpr::Cond(x) => flatten(*x),
        SpecExpr::Ternary(c, a, b) => flatten(*c) + seq![TokenType::QuestionMark] + flatten(*a)
            + seq![TokenType::Colon] + flatten(*b),
        SpecExpr::Assign(_, x) => seq![TokenType::Identifier, TokenType::Assign] + flatten(*x),
    }
}

/// The token kinds of the first `n` (operator, operand) pairs of a level.
pub open spec fn flatten_pairs(rest: Seq<(TokenType, SpecExpr)>, n: int) -> Seq<TokenType>
    decreases rest, n,
{
    if n <= 0 || n > rest.len() {
        Seq::empty()
    } else {
        proof {
            assert(decreases_to!(rest => rest[n - 1]));
            assert(decreases_to!(rest[n - 1] => rest[n - 1].1));
        }
        flatten_pairs(rest, n - 1) + seq![rest[n - 1].0] + flatten(rest[n - 1].1)
    }
}

/// The token kinds that a statement tree stands for, in source order.
pub open spec fn flatten_statement(s: SpecStatement) -> Seq<TokenType>
    decreases s,
{
    match s {
        SpecStatement::Return(e) => seq![TokenType::Return] + flatten(e) + seq![TokenType::Semicolon],
        SpecStatement::Expr(e) => flatten(e) + seq![TokenType::Semicolon],
        SpecStatement::If(e, t) => seq![TokenType::If, TokenType::LParen] + flatten(e) + seq![
            TokenType::RParen,
        ] + flatten_statement(*t),
        SpecStatement::IfElse(e, t, f) => seq![TokenType::If, TokenType::LParen] + flatten(e)
            + seq![TokenType::RParen] + flatten_statement(*t) + seq![TokenType::Else]
            + flatten_statement(*f),
    }
}

proof fn lemma_types_concat(toks: Seq<SpecToken>, a: int, b: int, c: int)
    requires
        0 <= a <= b <= c <= toks.len(),
    ensures
        token_types(toks.subrange(a, b)) + token_types(toks.subrange(b, c)) == token_types(
            toks.subrange(a, c),
        ),
{
    assert(token_types(toks.subrange(a, b)) + token_types(toks.subrange(b, c)) =~= token_types(
        toks.subrange(a, c),
    ));
}

proof fn lemma_types_one(toks: Seq<SpecToken>, a: int)
    requires
        0 <= a < toks.len(),
    ensures
        token_types(toks.subrange(a, a + 1)) == seq![toks[a].token_type],
{
    assert(token_types(toks.subrange(a, a + 1)) =~= seq![toks[a].token_type]);
}

proof fn lemma_flatten_pairs_prefix(acc: Seq<(TokenType, SpecExpr)>, x: (TokenType, SpecExpr), n: int)
    requires
        0 <= n <= acc.len(),
    ensures
        flatten_pairs(acc.push(x), n) == flatten_pairs(acc, n),
    decreases n,
{
    if n > 0 {
        lemma_flatten_pairs_prefix(acc, x, n - 1);
        assert(acc.push(x)[n - 1] == acc[n - 1]);
    }
}

proof fn lemma_flatten_chain_push(first: SpecExpr, acc: Seq<(TokenType, SpecExpr)>, x: (TokenType, SpecExpr))
    ensures
        flatten(SpecExpr::Chain(Box::new(first), acc.push(x))) == flatten(
            SpecExpr::Chain(Box::new(first), acc),
        ) + seq![x.0] + flatten(x.1),
{
    lemma_flatten_pairs_prefix(acc, x, acc.len() as int);
    let s = acc.push(x);
    assert(s[s.len() - 1] == x);
    assert(flatten_pairs(s, s.len() as int) == flatten_pairs(acc, acc.len() as int) + seq![x.0]
        + flatten(x.1));
    assert(flatten(SpecExpr::Chain(Box::new(first), s)) =~= flatten(first) + flatten_pairs(
        acc,
        acc.len() as int,
    ) + seq![x.0] + flatten(x.1));
}

proof fn lemma_flatten_chain_empty(first: SpecExpr)
    ensures
        flatten(SpecExpr::Chain(Box::new(first), Seq::empty())) == flatten(first),
{
    let e = SpecExpr::Chain(Box::new(first), Seq::<(TokenType, SpecExpr)>::empty());
    assert(flatten_pairs(Seq::<(TokenType, SpecExpr)>::empty(), 0) == Seq::<TokenType>::empty());
    assert(flatten(e) == flatten(first) + flatten_pairs(Seq::<(TokenType, SpecExpr)>::empty(), 0));
    assert(flatten(e) =~= flatten(first));
}


proof fn lemma_factor(toks: Seq<SpecToken>, pos: int)
    ensures
        parse_factor_spec(toks, pos) matches Some((e, p)) ==> pos < p <= toks.len() && flatten(e)
            == token_types(toks.subrange(pos, p)),
    decreases toks.len() - pos, 0nat, 0nat,
{
    if 0 <= pos < toks.len() {
        let t = toks[pos];
        lemma_types_one(toks, pos);
        if t.token_type == TokenType::LParen {
            lemma_expr(toks, pos + 1);
            if let Some((e, p)) = parse_expr_spec(toks, pos + 1) {
                if pos < p < toks.len() && toks[p].token_type == TokenType::RParen {
                    lemma_types_one(toks, p);
                    lemma_types_concat(toks, pos, pos + 1, p);
                    lemma_types_concat(toks, pos, p, p + 1);
                }
            }
        } else if t.token_type == TokenType::Minus || t.token_type == TokenType::BitComplement
            || t.token_type == TokenType::LogicalNeg {
            lemma_factor(toks, pos + 1);
            if let Some((f, p)) = parse_factor_spec(toks, pos + 1) {
                lemma_types_concat(toks, pos, pos + 1, p);
            }
        }
    }
}

proof fn lemma_term(toks: Seq<SpecToken>, pos: int)
    ensures
        parse_term_spec(toks, pos) matches Some((e, p)) ==> pos < p <= toks.len() && flatten(e)
            == token_types(toks.subrange(pos, p)),
    decreases toks.len() - pos, 1nat, 0nat,
{
    if 0 <= pos <= toks.len() {
        lemma_factor(toks, pos);
        if let Some((first, p)) = parse_factor_spec(toks, pos) {
            if pos < p <= toks.len() {
                lemma_flatten_chain_empty(first);
                lemma_term_rest(toks, p, first, Seq::empty(), pos);
            }
        }
    }
}

proof fn lemma_term_rest(
    toks: Seq<SpecToken>,
    pos: int,
    first: SpecExpr,
    acc: Seq<(TokenType, SpecExpr)>,
    start: int,
)
    requires
        0 <= start < pos <= toks.len(),
        flatten(SpecExpr::Chain(Box::new(first), acc)) == token_types(toks.subrange(start, pos)),
    ensures
        parse_term_rest(toks, pos, first, acc) matches Some((e, p)) ==> pos <= p <= toks.len()
            && flatten(e) == token_types(toks.subrange(start, p)),
    decreases toks.len() - pos, 1nat, 1nat,
{
    if pos < toks.len() && (toks[pos].token_type == TokenType::Multiplication || toks[pos].token_type == TokenType::Division) {
        lemma_factor(toks, pos + 1);
        match parse_factor_spec(toks, pos + 1) {
            Some((e, p)) => if pos < p <= toks.len() {
                let x = (toks[pos].token_type, e);
                lemma_flatten_chain_push(first, acc, x);
                lemma_types_one(toks, pos);
                lemma_types_concat(toks, start, pos, pos + 1);
                lemma_types_concat(toks, start, pos + 1, p);
                lemma_term_rest(toks, p, first, acc.push(x), start);
            },
            None => {},
        }
    }
}

proof fn lemma_add_expr(toks: Seq<SpecToken>, pos: int)
    ensures
        parse_add_expr_spec(toks, pos) matches Some((e, p)) ==> pos < p <= toks.len() && flatten(e)
            == token_types(toks.subrange(pos, p)),
    decreases toks.len() - pos, 2nat, 0nat,
{
    if 0 <= pos <= toks.len() {
        lemma_term(toks, pos);
        if let Some((first, p)) = parse_term_spec(toks, pos) {
            if pos < p <= toks.len() {
                lemma_flatten_chain_empty(first);
                lemma_add_expr_rest(toks, p, first, Seq::empty(), pos);
            }
        }
    }
}

proof fn lemma_add_expr_rest(
    toks: Seq<SpecToken>,
    pos: int,
    first: SpecExpr,
    acc: Seq<(TokenType, SpecExpr)>,
    start: int,
)
    requires
        0 <= start < pos <= toks.len(),
        flatten(SpecExpr::Chain(Box::new(first), acc)) == token_types(toks.subrange(start, pos)),
    ensures
        parse_add_expr_rest(toks, pos, first, acc) matches Some((e, p)) ==> pos <= p <= toks.len()
            && flatten(e) == token_types(toks.subrange(start, p)),
    decreases toks.len() - pos, 2nat, 1nat,
{
    if pos < toks.len() && (toks[pos].token_type == TokenType::Addition || toks[pos].token_type == TokenType::Minus) {
        lemma_term(toks, pos + 1);
        match parse_term_spec(toks, pos + 1) {
            Some((e, p)) => if pos < p <= toks.len() {
                let x = (toks[pos].token_type, e);
                lemma_flatten_chain_push(first, acc, x);
                lemma_types_one(toks, pos);
                lemma_types_concat(toks, start, pos, pos + 1);
                lemma_types_concat(toks, start, pos + 1, p);
                lemma_add_expr_rest(toks, p, first, acc.push(x), start);
            },
            None => {},
        }
    }
}

proof fn lemma_shift_expr(toks: Seq<SpecToken>, pos: int)
    ensures
        parse_shift_expr_spec(toks, pos) matches Some((e, p)) ==> pos < p <= toks.len() && flatten(e)
            == token_types(toks.subrange(pos, p)),
    decreases toks.len() - pos, 3nat, 0nat,
{
    if 0 <= pos <= toks.len() {
        lemma_add_expr(toks, pos);
        if let Some((first, p)) = parse_add_expr_spec(toks, pos) {
            if pos < p <= toks.len() {
                lemma_flatten_chain_empty(first);
                lemma_shift_expr_rest(toks, p, first, Seq::empty(), pos);
            }
        }
    }
}

proof fn lemma_shift_expr_rest(
    toks: Seq<SpecToken>,
    pos: int,
    first: SpecExpr,
    acc: Seq<(TokenType, SpecExpr)>,
    start: int,
)
    requires
        0 <= start < pos <= toks.len(),
        flatten(SpecExpr::Chain(Box::new(first), acc)) == token_types(toks.subrange(start, pos)),
    ensures
        parse_shift_expr_rest(toks, pos, first, acc) matches Some((e, p)) ==> pos <= p <= toks.len()
            && flatten(e) == token_types(toks.subrange(start, p)),
    decreases toks.len() - pos, 3nat, 1nat,
{
    if pos < toks.len() && (toks[pos].token_type == TokenType::LBitShift || toks[pos].token_type == TokenType::RBitShift) {
        lemma_add_expr(toks, pos + 1);
        match parse_add_expr_spec(toks, pos + 1) {
            Some((e, p)) => if pos < p <= toks.len() {
                let x = (toks[pos].token_type, e);
                lemma_flatten_chain_push(first, acc, x);
                lemma_types_one(toks, pos);
                lemma_types_concat(toks, start, pos, pos + 1);
                lemma_types_concat(toks, start, pos + 1, p);
                lemma_shift_expr_rest(toks, p, first, acc.push(x), start);
            },
            None => {},
        }
    }
}

proof fn lemma_rel_expr(toks: Seq<SpecToken>, pos: int)
    ensures
        parse_rel_expr_spec(toks, pos) matches Some((e, p)) ==> pos < p <= toks.len() && flatten(e)
            == token_types(toks.subrange(pos, p)),
    decreases toks.len() - pos, 4nat, 0nat,
{
    if 0 <= pos <= toks.len() {
        lemma_shift_expr(toks, pos);
        if let Some((first, p)) = parse_shift_expr_spec(toks, pos) {
            if pos < p <= toks.len() {
                lemma_flatten_chain_empty(first);
                lemma_rel_expr_rest(toks, p, first, Seq::empty(), pos);
            }
        }
    }
}

proof fn lemma_rel_expr_rest(
    toks: Seq<SpecToken>,
    pos: int,
    first: SpecExpr,
    acc: Seq<(TokenType, SpecExpr)>,
    start: int,
)
    requires
        0 <= start < pos <= toks.len(),
        flatten(SpecExpr::Chain(Box::new(first), acc)) == token_types(toks.subrange(start, pos)),
    ensures
        parse_rel_expr_rest(toks, pos, first, acc) matches Some((e, p)) ==> pos <= p <= toks.len()
            && flatten(e) == token_types(toks.subrange(start, p)),
    decreases toks.len() - pos, 4nat, 1nat,
{
    if pos < toks.len() && (toks[pos].token_type == TokenType::LessThan || toks[pos].token_type == TokenType::LessThanEqual || toks[pos].token_type == TokenType::GreaterThan || toks[pos].token_type == TokenType::GreaterThanEqual) {
        lemma_shift_expr(toks, pos + 1);
        match parse_shift_expr_spec(toks, pos + 1) {
            Some((e, p)) => if pos < p <= toks.len() {
                let x = (toks[pos].token_type, e);
                lemma_flatten_chain_push(first, acc, x);
                lemma_types_one(toks, pos);
                lemma_types_concat(toks, start, pos, pos + 1);
                lemma_types_concat(toks, start, pos + 1, p);
                lemma_rel_expr_rest(toks, p, first, acc.push(x), start);
            },
            None => {},
        }
    }
}

proof fn lemma_eq_expr(toks: Seq<SpecToken>, pos: int)
    ensures
        parse_eq_expr_spec(toks, pos) matches Some((e, p)) ==> pos < p <= toks.len() && flatten(e)
            == token_types(toks.subrange(pos, p)),
    decreases toks.len() - pos, 5nat, 0nat,
{
    if 0 <= pos <= toks.len() {
        lemma_rel_expr(toks, pos);
        if let Some((first, p)) = parse_rel_expr_spec(toks, pos) {
            if pos < p <= toks.len() {
                lemma_flatten_chain_empty(first);
                lemma_eq_expr_rest(toks, p, first, Seq::empty(), pos);
            }
        }
    }
}

proof fn lemma_eq_expr_rest(
    toks: Seq<SpecToken>,
    pos: int,
    first: SpecExpr,
    acc: Seq<(TokenType, SpecExpr)>,
    start: int,
)
    requires
        0 <= start < pos <= toks.len(),
        flatten(SpecExpr::Chain(Box::new(first), acc)) == token_types(toks.subrange(start, pos)),
    ensures
        parse_eq_expr_rest(toks, pos, first, acc) matches Some((e, p)) ==> pos <= p <= toks.len()
            && flatten(e) == token_types(toks.subrange(start, p)),
    decreases toks.len() - pos, 5nat, 1nat,
{
    if pos < toks.len() && (toks[pos].token_type == TokenType::Equal || toks[pos].token_type == TokenType::NotEqual) {
        lemma_rel_expr(toks, pos + 1);
        match parse_rel_expr_spec(toks, pos + 1) {
            Some((e, p)) => if pos < p <= toks.len() {
                let x = (toks[pos].token_type, e);
                lemma_flatten_chain_push(first, acc, x);
                lemma_types_one(toks, pos);
                lemma_types_concat(toks, start, pos, pos + 1);
                lemma_types_concat(toks, start, pos + 1, p);
                lemma_eq_expr_rest(toks, p, first, acc.push(x), start);
            },
            None => {},
        }
    }
}

proof fn lemma_bit_and_expr(toks: Seq<SpecToken>, pos: int)
    ensures
        parse_bit_and_expr_spec(toks, pos) matches Some((e, p)) ==> pos < p <= toks.len() && flatten(e)
            == token_types(toks.subrange(pos, p)),
    decreases toks.len() - pos, 6nat, 0nat,
{
    if 0 <= pos <= toks.len() {
        lemma_eq_expr(toks, pos);
        if let Some((first, p)) = parse_eq_expr_spec(toks, pos) {
            if pos < p <= toks.len() {
                lemma_flatten_chain_empty(first);
                lemma_bit_and_expr_rest(toks, p, first, Seq::empty(), pos);
            }
        }
    }
}

proof fn lemma_bit_and_expr_rest(
    toks: Seq<SpecToken>,
    pos: int,
    first: SpecExpr,
    acc: Seq<(TokenType, SpecExpr)>,
    start: int,
)
    requires
        0 <= start < pos <= toks.len(),
        flatten(SpecExpr::Chain(Box::new(first), acc)) == token_types(toks.subrange(start, pos)),
    ensures
        parse_bit_and_expr_rest(toks, pos, first, acc) matches Some((e, p)) ==> pos <= p <= toks.len()
            && flatten(e) == token_types(toks.subrange(start, p)),
    decreases toks.len() - pos, 6nat, 1nat,
{
    if pos < toks.len() && (toks[pos].token_type == TokenType::BitAnd) {
        lemma_eq_expr(toks, pos + 1);
        match parse_eq_expr_spec(toks, pos + 1) {
            Some((e, p)) => if pos < p <= toks.len() {
                let x = (toks[pos].token_type, e);
                lemma_flatten_chain_push(first, acc, x);
                lemma_types_one(toks, pos);
                lemma_types_concat(toks, start, pos, pos + 1);
                lemma_types_concat(toks, start, pos + 1, p);
                lemma_bit_and_expr_rest(toks, p, first, acc.push(x), start);
            },
            None => {},
        }
    }
}

proof fn lemma_bit_xor_expr(toks: Seq<SpecToken>, pos: int)
    ensures
        parse_bit_xor_expr_spec(toks, pos) matches Some((e, p)) ==> pos < p <= toks.len() && flatten(e)
            == token_types(toks.subrange(pos, p)),
    decreases toks.len() - pos, 7nat, 0nat,
{
    if 0 <= pos <= toks.len() {
        lemma_bit_and_expr(toks, pos);
        if let Some((first, p)) = parse_bit_and_expr_spec(toks, pos) {
            if pos < p <= toks.len() {
                lemma_flatten_chain_empty(first);
                lemma_bit_xor_expr_rest(toks, p, first, Seq::empty(), pos);
            }
        }
    }
}

proof fn lemma_bit_xor_expr_rest(
    toks: Seq<SpecToken>,
    pos: int,
    first: SpecExpr,
    acc: Seq<(TokenType, SpecExpr)>,
    start: int,
)
    requires
        0 <= start < pos <= toks.len(),
        flatten(SpecExpr::Chain(Box::new(first), acc)) == token_types(toks.subrange(start, pos)),
    ensures
        parse_bit_xor_expr_rest(toks, pos, first, acc) matches Some((e, p)) ==> pos <= p <= toks.len()
            && flatten(e) == token_types(toks.subrange(start, p)),
    decreases toks.len() - pos, 7nat, 1nat,
{
    if pos < toks.len() && (toks[pos].token_type == TokenType::BitXOr) {
        lemma_bit_and_expr(toks, pos + 1);
        match parse_bit_and_expr_spec(toks, pos + 1) {
            Some((e, p)) => if pos < p <= toks.len() {
                let x = (toks[pos].token_type, e);
                lemma_flatten_chain_push(first, acc, x);
                lemma_types_one(toks, pos);
                lemma_types_concat(toks, start, pos, pos + 1);
                lemma_types_concat(toks, start, pos + 1, p);
                lemma_bit_xor_expr_rest(toks, p, first, acc.push(x), start);
            },
            None => {},
        }
    }
}

proof fn lemma_bit_or_expr(toks: Seq<SpecToken>, pos: int)
    ensures
        parse_bit_or_expr_spec(toks, pos) matches Some((e, p)) ==> pos < p <= toks.len() && flatten(e)
            == token_types(toks.subrange(pos, p)),
    decreases toks.len() - pos, 8nat, 0nat,
{
    if 0 <= pos <= toks.len() {
        lemma_bit_xor_expr(toks, pos);
        if let Some((first, p)) = parse_bit_xor_expr_spec(toks, pos) {
            if pos < p <= toks.len() {
                lemma_flatten_chain_empty(first);
                lemma_bit_or_expr_rest(toks, p, first, Seq::empty(), pos);
            }
        }
    }
}

proof fn lemma_bit_or_expr_rest(
    toks: Seq<SpecToken>,
    pos: int,
    first: SpecExpr,
    acc: Seq<(TokenType, SpecExpr)>,
    start: int,
)
    requires
        0 <= start < pos <= toks.len(),
        flatten(SpecExpr::Chain(Box::new(first), acc)) == token_types(toks.subrange(start, pos)),
    ensures
        parse_bit_or_expr_rest(toks, pos, first, acc) matches Some((e, p)) ==> pos <= p <= toks.len()
            && flatten(e) == token_types(toks.subrange(start, p)),
    decreases toks.len() - pos, 8nat, 1nat,
{
    if pos < toks.len() && (toks[pos].token_type == TokenType::BitOr) {
        lemma_bit_xor_expr(toks, pos + 1);
        match parse_bit_xor_expr_spec(toks, pos + 1) {
            Some((e, p)) => if pos < p <= toks.len() {
                let x = (toks[pos].token_type, e);
                lemma_flatten_chain_push(first, acc, x);
                lemma_types_one(toks, pos);
                lemma_types_concat(toks, start, pos, pos + 1);
                lemma_types_concat(toks, start, pos + 1, p);
                lemma_bit_or_expr_rest(toks, p, first, acc.push(x), start);
            },
            None => {},
        }
    }
}

proof fn lemma_log_and_expr(toks: Seq<SpecToken>, pos: int)
    ensures
        parse_log_and_expr_spec(toks, pos) matches Some((e, p)) ==> pos < p <= toks.len() && flatten(e)
            == token_types(toks.subrange(pos, p)),
    decreases toks.len() - pos, 9nat, 0nat,
{
    if 0 <= pos <= toks.len() {
        lemma_bit_or_expr(toks, pos);
        if let Some((first, p)) = parse_bit_or_expr_spec(toks, pos) {
            if pos < p <= toks.len() {
                lemma_flatten_chain_empty(first);
                lemma_log_and_expr_rest(toks, p, first, Seq::empty(), pos);
            }
        }
    }
}

proof fn lemma_log_and_expr_rest(
    toks: Seq<SpecToken>,
    pos: int,
    first: SpecExpr,
    acc: Seq<(TokenType, SpecExpr)>,
    start: int,
)
    requires
        0 <= start < pos <= toks.len(),
        flatten(SpecExpr::Chain(Box::new(first), acc)) == token_types(toks.subrange(start, pos)),
    ensures
        parse_log_and_expr_rest(toks, pos, first, acc) matches Some((e, p)) ==> pos <= p <= toks.len()
            && flatten(e) == token_types(toks.subrange(start, p)),
    decreases toks.len() - pos, 9nat, 1nat,
{
    if pos < toks.len() && (toks[pos].token_type == TokenType::And) {
        lemma_bit_or_expr(toks, pos + 1);
        match parse_bit_or_expr_spec(toks, pos + 1) {
            Some((e, p)) => if pos < p <= toks.len() {
                let x = (toks[pos].token_type, e);
                lemma_flatten_chain_push(first, acc, x);
                lemma_types_one(toks, pos);
                lemma_types_concat(toks, start, pos, pos + 1);
                lemma_types_concat(toks, start, pos + 1, p);
                lemma_log_and_expr_rest(toks, p, first, acc.push(x), start);
            },
            None => {},
        }
    }
}

proof fn lemma_log_or_expr(toks: Seq<SpecToken>, pos: int)
    ensures
        parse_log_or_expr_spec(toks, pos) matches Some((e, p)) ==> pos < p <= toks.len() && flatten(e)
            == token_types(toks.subrange(pos, p)),
    decreases toks.len() - pos, 10nat, 0nat,
{
    if 0 <= pos <= toks.len() {
        lemma_log_and_expr(toks, pos);
        if let Some((first, p)) = parse_log_and_expr_spec(toks, pos) {
            if pos < p <= toks.len() {
                lemma_flatten_chain_empty(first);
                lemma_log_or_expr_rest(toks, p, first, Seq::empty(), pos);
            }
        }
    }
}

proof fn lemma_log_or_expr_rest(
    toks: Seq<SpecToken>,
    pos: int,
    first: SpecExpr,
    acc: Seq<(TokenType, SpecExpr)>,
    start: int,
)
    requires
        0 <= start < pos <= toks.len(),
        flatten(SpecExpr::Chain(Box::new(first), acc)) == token_types(toks.subrange(start, pos)),
    ensures
        parse_log_or_expr_rest(toks, pos, first, acc) matches Some((e, p)) ==> pos <= p <= toks.len()
            && flatten(e) == token_types(toks.subrange(start, p)),
    decreases toks.len() - pos, 10nat, 1nat,
{
    if pos < toks.len() && (toks[pos].token_type == TokenType::Or) {
        lemma_log_and_expr(toks, pos + 1);
        match parse_log_and_expr_spec(toks, pos + 1) {
            Some((e, p)) => if pos < p <= toks.len() {
                let x = (toks[pos].token_type, e);
                lemma_flatten_chain_push(first, acc, x);
                lemma_types_one(toks, pos);
                lemma_types_concat(toks, start, pos, pos + 1);
                lemma_types_concat(toks, start, pos + 1, p);
                lemma_log_or_expr_rest(toks, p, first, acc.push(x), start);
            },
            None => {},
        }
    }
}

proof fn lemma_ternary_tokens(
    toks: Seq<SpecToken>,
    pos: int,
    p: int,
    q: int,
    r: int,
    c: SpecExpr,
    a: SpecExpr,
    b: SpecExpr,
)
    requires
        0 <= pos < p < q < r <= toks.len(),
        toks[p].token_type == TokenType::QuestionMark,
        toks[q].token_type == TokenType::Colon,
        flatten(c) == token_types(toks.subrange(pos, p)),
        flatten(a) == token_types(toks.subrange(p + 1, q)),
        flatten(b) == token_types(toks.subrange(q + 1, r)),
    ensures
        flatten(SpecExpr::Ternary(Box::new(c), Box::new(a), Box::new(b))) == token_types(
            toks.subrange(pos, r),
        ),
{
    lemma_types_one(toks, p);
    lemma_types_one(toks, q);
    lemma_types_concat(toks, pos, p, p + 1);
    lemma_types_concat(toks, pos, p + 1, q);
    lemma_types_concat(toks, pos, q, q + 1);
    lemma_types_concat(toks, pos, q + 1, r);
}

proof fn lemma_conditional(toks: Seq<SpecToken>, pos: int)
    ensures
        parse_conditional_spec(toks, pos) matches Some((e, p)) ==> pos < p <= toks.len() && flatten(
            e,
        ) == token_types(toks.subrange(pos, p)),
    decreases toks.len() - pos, 11nat, 0nat,
{
    if 0 <= pos <= toks.len() {
        lemma_log_or_expr(toks, pos);
        if let Some((c, p)) = parse_log_or_expr_spec(toks, pos) {
            if pos < p < toks.len() && toks[p].token_type == TokenType::QuestionMark {
                lemma_expr(toks, p + 1);
                if let Some((a, q)) = parse_expr_spec(toks, p + 1) {
                    if p < q < toks.len() && toks[q].token_type == TokenType::Colon {
                        lemma_conditional(toks, q + 1);
                        if let Some((b, r)) = parse_conditional_spec(toks, q + 1) {
                            lemma_ternary_tokens(toks, pos, p, q, r, c, a, b);
                        }
                    }
                }
            }
        }
    }
}

proof fn lemma_expr(toks: Seq<SpecToken>, pos: int)
    ensures
        parse_expr_spec(toks, pos) matches Some((e, p)) ==> pos < p <= toks.len() && flatten(e)
            == token_types(toks.subrange(pos, p)),
    decreases toks.len() - pos, 12nat, 0nat,
{
    if 0 <= pos && pos + 1 < toks.len() {
        if toks[pos].token_type == TokenType::Identifier && toks[pos + 1].token_type
            == TokenType::Assign {
            lemma_expr(toks, pos + 2);
            if let Some((e, p)) = parse_expr_spec(toks, pos + 2) {
                lemma_types_one(toks, pos);
                lemma_types_one(toks, pos + 1);
                lemma_types_concat(toks, pos, pos + 1, pos + 2);
                lemma_types_concat(toks, pos, pos + 2, p);
                assert(seq![TokenType::Identifier, TokenType::Assign] =~= seq![TokenType::Identifier]
                    + seq![TokenType::Assign]);
            }
        } else {
            lemma_conditional(toks, pos);
        }
    }
}

/// An expression that the parser reads holds exactly the tokens that it
/// read, in their order: none is dropped and none is added.
pub proof fn law_parse_expr_tokens(toks: Seq<SpecToken>, pos: int)
    ensures
        parse_expr_spec(toks, pos) matches Some((e, p)) ==> pos < p <= toks.len() && flatten(e)
            == token_types(toks.subrange(pos, p)),
{
    lemma_expr(toks, pos);
}

/// A statement that the parser reads holds exactly the tokens that it read,
/// in their order.
pub proof fn law_parse_statement_tokens(toks: Seq<SpecToken>, pos: int)
    ensures
        parse_statement_spec(toks, pos) matches Some((s, p)) ==> pos < p <= toks.len()
            && flatten_statement(s) == token_types(toks.subrange(pos, p)),
    decreases toks.len() - pos,
{
    if 0 <= pos < toks.len() {
        lemma_types_one(toks, pos);
        if toks[pos].token_type == TokenType::Return {
            if pos + 1 < toks.len() {
                lemma_expr(toks, pos + 1);
                if let Some((e, p)) = parse_expr_spec(toks, pos + 1) {
                    if 0 <= p < toks.len() && toks[p].token_type == TokenType::Semicolon {
                        lemma_types_one(toks, p);
                        lemma_types_concat(toks, pos, pos + 1, p);
                        lemma_types_concat(toks, pos, p, p + 1);
                    }
                }
            }
        } else if toks[pos].token_type == TokenType::Identifier {
            lemma_expr(toks, pos);
            if let Some((e, p)) = parse_expr_spec(toks, pos) {
                if 0 <= p < toks.len() && toks[p].token_type == TokenType::Semicolon {
                    lemma_types_one(toks, p);
                    lemma_types_concat(toks, pos, p, p + 1);
                }
            }
        } else if toks[pos].token_type == TokenType::If {
            if pos + 1 < toks.len() && toks[pos + 1].token_type == TokenType::LParen {
                lemma_types_one(toks, pos + 1);
                lemma_expr(toks, pos + 2);
                if let Some((e, p)) = parse_expr_spec(toks, pos + 2) {
                    if pos < p < toks.len() && toks[p].token_type == TokenType::RParen {
                        lemma_types_one(toks, p);
                        law_parse_statement_tokens(toks, p + 1);
                        if let Some((s, q)) = parse_statement_spec(toks, p + 1) {
                            lemma_types_concat(toks, pos, pos + 1, pos + 2);
                            lemma_types_concat(toks, pos, pos + 2, p);
                            lemma_types_concat(toks, pos, p, p + 1);
                            lemma_types_concat(toks, pos, p + 1, q);
                            assert(seq![TokenType::If, TokenType::LParen] =~= seq![TokenType::If]
                                + seq![TokenType::LParen]);
                            if pos < q < toks.len() && toks[q].token_type == TokenType::Else {
                                lemma_types_one(toks, q);
                                law_parse_statement_tokens(toks, q + 1);
                                if let Some((f, r)) = parse_statement_spec(toks, q + 1) {
                                    lemma_types_concat(toks, pos, q, q + 1);
                                    lemma_types_concat(toks, pos, q + 1, r);
                                }
                            }
                        }
                    }
                }
            }
        }
    }
}

/// The token kinds that a declaration stands for, in source order.
pub open spec fn flatten_declaration(d: SpecDeclaration) -> Seq<TokenType> {
    match d.expr {
        None => seq![TokenType::Integer, TokenType::Identifier, TokenType::Semicolon],
        Some(e) => seq![TokenType::Integer, TokenType::Identifier, TokenType::Assign] + flatten(e)
            + seq![TokenType::Semicolon],
    }
}

/// A declaration that the parser reads holds exactly the tokens that it
/// read, in their order.
pub proof fn law_parse_declaration_tokens(toks: Seq<SpecToken>, pos: int)
    ensures
        parse_declaration_spec(toks, pos) matches Some((d, p)) ==> pos < p <= toks.len()
            && flatten_declaration(d) == token_types(toks.subrange(pos, p)),
{
    if 0 <= pos && pos + 2 < toks.len() {
        lemma_types_one(toks, pos);
        lemma_types_one(toks, pos + 1);
        lemma_types_one(toks, pos + 2);
        lemma_types_concat(toks, pos, pos + 1, pos + 2);
        lemma_types_concat(toks, pos, pos + 2, pos + 3);
        assert(seq![TokenType::Integer, TokenType::Identifier, TokenType::Semicolon] =~= seq![
            TokenType::Integer,
        ] + seq![TokenType::Identifier] + seq![TokenType::Semicolon]);
        assert(seq![TokenType::Integer, TokenType::Identifier, TokenType::Assign] =~= seq![
            TokenType::Integer,
        ] + seq![TokenType::Identifier] + seq![TokenType::Assign]);
        lemma_expr(toks, pos + 3);
        if let Some((e, p)) = parse_expr_spec(toks, pos + 3) {
            if pos + 3 < p < toks.len() {
                lemma_types_one(toks, p);
                lemma_types_concat(toks, pos, pos + 3, p);
                lemma_types_concat(toks, pos, p, p + 1);
            }
        }
    }
}

/// Whether `t` is one of the multiplicative operators: `*`, `/`.
pub open spec fn term_operator(t: TokenType) -> bool {
    t == TokenType::Multiplication || t == TokenType::Division
}

/// Whether `t` is an operator of the multiplicative level or of a level that binds
/// more tightly.
pub open spec fn term_or_tighter(t: TokenType) -> bool {
    term_operator(t)
}

proof fn lemma_term_rest_stops(toks: Seq<SpecToken>, pos: int, first: SpecExpr, acc: Seq<(TokenType, SpecExpr)>)
    ensures
        parse_term_rest(toks, pos, first, acc) matches Some((e, r)) ==> r < toks.len()
            && !term_or_tighter(toks[r].token_type),
    decreases toks.len() - pos,
{
    if 0 <= pos < toks.len() && (toks[pos].token_type == TokenType::Multiplication || toks[pos].token_type == TokenType::Division) {
        if let Some((e, p)) = parse_factor_spec(toks, pos + 1) {
            if pos < p <= toks.len() {
                lemma_term_rest_stops(toks, p, first, acc.push((toks[pos].token_type, e)));
            }
        }
    }
}

/// An expression of the multiplicative level is read as far as its operators (`*`, `/`)
/// and those of every level that binds more tightly go: after each operand
/// the parser reads the operator that follows and another operand, and it
/// stops only before a token that is none of these operators.
pub proof fn law_term_reads_every_operator(toks: Seq<SpecToken>, pos: int)
    ensures
        parse_term_spec(toks, pos) matches Some((e, r)) ==> r < toks.len()
            && !term_or_tighter(toks[r].token_type),
{
    if 0 <= pos <= toks.len() {
        if let Some((first, p)) = parse_factor_spec(toks, pos) {
            if pos < p <= toks.len() {
                lemma_term_rest_stops(toks, p, first, Seq::empty());
            }
        }
    }
}

/// Whether `t` is one of the additive operators: `+`, `-`.
pub open spec fn add_expr_operator(t: TokenType) -> bool {
    t == TokenType::Addition || t == TokenType::Minus
}

/// Whether `t` is an operator of the additive level or of a level that binds
/// more tightly.
pub open spec fn add_expr_or_tighter(t: TokenType) -> bool {
    add_expr_operator(t) || term_or_tighter(t)
}

proof fn lemma_add_expr_rest_stops(toks: Seq<SpecToken>, pos: int, first: SpecExpr, acc: Seq<(TokenType, SpecExpr)>)
    requires
        0 <= pos < toks.len() ==> !term_or_tighter(toks[pos].token_type),
    ensures
        parse_add_expr_rest(toks, pos, first, acc) matches Some((e, r)) ==> r < toks.len()
            && !add_expr_or_tighter(toks[r].token_type),
    decreases toks.len() - pos,
{
    if 0 <= pos < toks.len() && (toks[pos].token_type == TokenType::Addition || toks[pos].token_type == TokenType::Minus) {
        if let Some((e, p)) = parse_term_spec(toks, pos + 1) {
            if pos < p <= toks.len() {
                law_term_reads_every_operator(toks, pos + 1);
                lemma_add_expr_rest_stops(toks, p, first, acc.push((toks[pos].token_type, e)));
            }
        }
    }
}

/// An expression of the additive level is read as far as its operators (`+`, `-`)
/// and those of every level that binds more tightly go: after each operand
/// the parser reads the operator that follows and another operand, and it
/// stops only before a token that is none of these operators.
pub proof fn law_add_expr_reads_every_operator(toks: Seq<SpecToken>, pos: int)
    ensures
        parse_add_expr_spec(toks, pos) matches Some((e, r)) ==> r < toks.len()
            && !add_expr_or_tighter(toks[r].token_type),
{
    if 0 <= pos <= toks.len() {
        law_term_reads_every_operator(toks, pos);
        if let Some((first, p)) = parse_term_spec(toks, pos) {
            if pos < p <= toks.len() {
                lemma_add_expr_rest_stops(toks, p, first, Seq::empty());
            }
        }
    }
}

/// Whether `t` is one of the shift operators: `<<`, `>>`.
pub open spec fn shift_expr_operator(t: TokenType) -> bool {
    t == TokenType::LBitShift || t == TokenType::RBitShift
}

/// Whether `t` is an operator of the shift level or of a level that binds
/// more tightly.
pub open spec fn shift_expr_or_tighter(t: TokenType) -> bool {
    shift_expr_operator(t) || add_expr_or_tighter(t)
}

proof fn lemma_shift_expr_rest_stops(toks: Seq<SpecToken>, pos: int, first: SpecExpr, acc: Seq<(TokenType, SpecExpr)>)
    requires
        0 <= pos < toks.len() ==> !add_expr_or_tighter(toks[pos].token_type),
    ensures
        parse_shift_expr_rest(toks, pos, first, acc) matches Some((e, r)) ==> r < toks.len()
            && !shift_expr_or_tighter(toks[r].token_type),
    decreases toks.len() - pos,
{
    if 0 <= pos < toks.len() && (toks[pos].token_type == TokenType::LBitShift || toks[pos].token_type == TokenType::RBitShift) {
        if let Some((e, p)) = parse_add_expr_spec(toks, pos + 1) {
            if pos < p <= toks.len() {
                law_add_expr_reads_every_operator(toks, pos + 1);
                lemma_shift_expr_rest_stops(toks, p, first, acc.push((toks[pos].token_type, e)));
            }
        }
    }
}

/// An expression of the shift level is read as far as its operators (`<<`, `>>`)
/// and those of every level that binds more tightly go: after each operand
/// the parser reads the operator that follows and another operand, and it
/// stops only before a token that is none of these operators.
pub proof fn law_shift_expr_reads_every_operator(toks: Seq<SpecToken>, pos: int)
    ensures
        parse_shift_expr_spec(toks, pos) matches Some((e, r)) ==> r < toks.len()
            && !shift_expr_or_tighter(toks[r].token_type),
{
    if 0 <= pos <= toks.len() {
        law_add_expr_reads_every_operator(toks, pos);
        if let Some((first, p)) = parse_add_expr_spec(toks, pos) {
            if pos < p <= toks.len() {
                lemma_shift_expr_rest_stops(toks, p, first, Seq::empty());
            }
        }
    }
}

/// Whether `t` is one of the relational operators: `<`, `<=`, `>`, `>=`.
pub open spec fn rel_expr_operator(t: TokenType) -> bool {
    t == TokenType::LessThan || t == TokenType::LessThanEqual || t == TokenType::GreaterThan || t == TokenType::GreaterThanEqual
}

/// Whether `t` is an operator of the relational level or of a level that binds
/// more tightly.
pub open spec fn rel_expr_or_tighter(t: TokenType) -> bool {
    rel_expr_operator(t) || shift_expr_or_tighter(t)
}

proof fn lemma_rel_expr_rest_stops(toks: Seq<SpecToken>, pos: int, first: SpecExpr, acc: Seq<(TokenType, SpecExpr)>)
    requires
        0 <= pos < toks.len() ==> !shift_expr_or_tighter(toks[pos].token_type),
    ensures
        parse_rel_expr_rest(toks, pos, first, acc) matches Some((e, r)) ==> r < toks.len()
            && !rel_expr_or_tighter(toks[r].token_type),
    decreases toks.len() - pos,
{
    if 0 <= pos < toks.len() && (toks[pos].token_type == TokenType::LessThan || toks[pos].token_type == TokenType::LessThanEqual || toks[pos].token_type == TokenType::GreaterThan || toks[pos].token_type == TokenType::GreaterThanEqual) {
        if let Some((e, p)) = parse_shift_expr_spec(toks, pos + 1) {
            if pos < p <= toks.len() {
                law_shift_expr_reads_every_operator(toks, pos + 1);
                lemma_rel_expr_rest_stops(toks, p, first, acc.push((toks[pos].token_type, e)));
            }
        }
    }
}

/// An expression of the relational level is read as far as its operators (`<`, `<=`, `>`, `>=`)
/// and those of every level that binds more tightly go: after each operand
/// the parser reads the operator that follows and another operand, and it
/// stops only before a token that is none of these operators.
pub proof fn law_rel_expr_reads_every_operator(toks: Seq<SpecToken>, pos: int)
    ensures
        parse_rel_expr_spec(toks, pos) matches Some((e, r)) ==> r < toks.len()
            && !rel_expr_or_tighter(toks[r].token_type),
{
    if 0 <= pos <= toks.len() {
        law_shift_expr_reads_every_operator(toks, pos);
        if let Some((first, p)) = parse_shift_expr_spec(toks, pos) {
            if pos < p <= toks.len() {
                lemma_rel_expr_rest_stops(toks, p, first, Seq::empty());
            }
        }
    }
}

/// Whether `t` is one of the equality operators: `==`, `!=`.
pub open spec fn eq_expr_operator(t: TokenType) -> bool {
    t == TokenType::Equal || t == TokenType::NotEqual
}

/// Whether `t` is an operator of the equality level or of a level that binds
/// more tightly.
pub open spec fn eq_expr_or_tighter(t: TokenType) -> bool {
    eq_expr_operator(t) || rel_expr_or_tighter(t)
}

proof fn lemma_eq_expr_rest_stops(toks: Seq<SpecToken>, pos: int, first: SpecExpr, acc: Seq<(TokenType, SpecExpr)>)
    requires
        0 <= pos < toks.len() ==> !rel_expr_or_tighter(toks[pos].token_type),
    ensures
        parse_eq_expr_rest(toks, pos, first, acc) matches Some((e, r)) ==> r < toks.len()
            && !eq_expr_or_tighter(toks[r].token_type),
    decreases toks.len() - pos,
{
    if 0 <= pos < toks.len() && (toks[pos].token_type == TokenType::Equal || toks[pos].token_type == TokenType::NotEqual) {
        if let Some((e, p)) = parse_rel_expr_spec(toks, pos + 1) {
            if pos < p <= toks.len() {
                law_rel_expr_reads_every_operator(toks, pos + 1);
                lemma_eq_expr_rest_stops(toks, p, first, acc.push((toks[pos].token_type, e)));
            }
        }
    }
}

/// An expression of the equality level is read as far as its operators (`==`, `!=`)
/// and those of every level that binds more tightly go: after each operand
/// the parser reads the operator that follows and another operand, and it
/// stops only before a token that is none of these operators.
pub proof fn law_eq_expr_reads_every_operator(toks: Seq<SpecToken>, pos: int)
    ensures
        parse_eq_expr_spec(toks, pos) matches Some((e, r)) ==> r < toks.len()
            && !eq_expr_or_tighter(toks[r].token_type),
{
    if 0 <= pos <= toks.len() {
        law_rel_expr_reads_every_operator(toks, pos);
        if let Some((first, p)) = parse_rel_expr_spec(toks, pos) {
            if pos < p <= toks.len() {
                lemma_eq_expr_rest_stops(toks, p, first, Seq::empty());
            }
        }
    }
}

/// Whether `t` is one of the bitwise and operators: `&`.
pub open spec fn bit_and_expr_operator(t: TokenType) -> bool {
    t == TokenType::BitAnd
}

/// Whether `t` is an operator of the bitwise and level or of a level that binds
/// more tightly.
pub open spec fn bit_and_expr_or_tighter(t: TokenType) -> bool {
    bit_and_expr_operator(t) || eq_expr_or_tighter(t)
}

proof fn lemma_bit_and_expr_rest_stops(toks: Seq<SpecToken>, pos: int, first: SpecExpr, acc: Seq<(TokenType, SpecExpr)>)
    requires
        0 <= pos < toks.len() ==> !eq_expr_or_tighter(toks[pos].token_type),
    ensures
        parse_bit_and_expr_rest(toks, pos, first, acc) matches Some((e, r)) ==> r < toks.len()
            && !bit_and_expr_or_tighter(toks[r].token_type),
    decreases toks.len() - pos,
{
    if 0 <= pos < toks.len() && (toks[pos].token_type == TokenType::BitAnd) {
        if let Some((e, p)) = parse_eq_expr_spec(toks, pos + 1) {
            if pos < p <= toks.len() {
                law_eq_expr_reads_every_operator(toks, pos + 1);
                lemma_bit_and_expr_rest_stops(toks, p, first, acc.push((TokenType::BitAnd, e)));
            }
        }
    }
}

/// An expression of the bitwise and level is read as far as its operators (`&`)
/// and those of every level that binds more tightly go: after each operand
/// the parser reads the operator that follows and another operand, and it
/// stops only before a token that is none of these operators.
pub proof fn law_bit_and_expr_reads_every_operator(toks: Seq<SpecToken>, pos: int)
    ensures
        parse_bit_and_expr_spec(toks, pos) matches Some((e, r)) ==> r < toks.len()
            && !bit_and_expr_or_tighter(toks[r].token_type),
{
    if 0 <= pos <= toks.len() {
        law_eq_expr_reads_every_operator(toks, pos);
        if let Some((first, p)) = parse_eq_expr_spec(toks, pos) {
            if pos < p <= toks.len() {
                lemma_bit_and_expr_rest_stops(toks, p, first, Seq::empty());
            }
        }
    }
}

/// Whether `t` is one of the bitwise exclusive or operators: `^`.
pub open spec fn bit_xor_expr_operator(t: TokenType) -> bool {
    t == TokenType::BitXOr
}

/// Whether `t` is an operator of the bitwise exclusive or level or of a level that binds
/// more tightly.
pub open spec fn bit_xor_expr_or_tighter(t: TokenType) -> bool {
    bit_xor_expr_operator(t) || bit_and_expr_or_tighter(t)
}

proof fn lemma_bit_xor_expr_rest_stops(toks: Seq<SpecToken>, pos: int, first: SpecExpr, acc: Seq<(TokenType, SpecExpr)>)
    requires
        0 <= pos < toks.len() ==> !bit_and_expr_or_tighter(toks[pos].token_type),
    ensures
        parse_bit_xor_expr_rest(toks, pos, first, acc) matches Some((e, r)) ==> r < toks.len()
            && !bit_xor_expr_or_tighter(toks[r].token_type),
    decreases toks.len() - pos,
{
    if 0 <= pos < toks.len() && (toks[pos].token_type == TokenType::BitXOr) {
        if let Some((e, p)) = parse_bit_and_expr_spec(toks, pos + 1) {
            if pos < p <= toks.len() {
                law_bit_and_expr_reads_every_operator(toks, pos + 1);
                lemma_bit_xor_expr_rest_stops(toks, p, first, acc.push((TokenType::BitXOr, e)));
            }
        }
    }
}

/// An expression of the bitwise exclusive or level is read as far as its operators (`^`)
/// and those of every level that binds more tightly go: after each operand
/// the parser reads the operator that follows and another operand, and it
/// stops only before a token that is none of these operators.
pub proof fn law_bit_xor_expr_reads_every_operator(toks: Seq<SpecToken>, pos: int)
    ensures
        parse_bit_xor_expr_spec(toks, pos) matches Some((e, r)) ==> r < toks.len()
            && !bit_xor_expr_or_tighter(toks[r].token_type),
{
    if 0 <= pos <= toks.len() {
        law_bit_and_expr_reads_every_operator(toks, pos);
        if let Some((first, p)) = parse_bit_and_expr_spec(toks, pos) {
            if pos < p <= toks.len() {
                lemma_bit_xor_expr_rest_stops(toks, p, first, Seq::empty());
            }
        }
    }
}

/// Whether `t` is one of the bitwise or operators: `|`.
pub open spec fn bit_or_expr_operator(t: TokenType) -> bool {
    t == TokenType::BitOr
}

/// Whether `t` is an operator of the bitwise or level or of a level that binds
/// more tightly.
pub open spec fn bit_or_expr_or_tighter(t: TokenType) -> bool {
    bit_or_expr_operator(t) || bit_xor_expr_or_tighter(t)
}

proof fn lemma_bit_or_expr_rest_stops(toks: Seq<SpecToken>, pos: int, first: SpecExpr, acc: Seq<(TokenType, SpecExpr)>)
    requires
        0 <= pos < toks.len() ==> !bit_xor_expr_or_tighter(toks[pos].token_type),
    ensures
        parse_bit_or_expr_rest(toks, pos, first, acc) matches Some((e, r)) ==> r < toks.len()
            && !bit_or_expr_or_tighter(toks[r].token_type),
    decreases toks.len() - pos,
{
    if 0 <= pos < toks.len() && (toks[pos].token_type == TokenType::BitOr) {
        if let Some((e, p)) = parse_bit_xor_expr_spec(toks, pos + 1) {
            if pos < p <= toks.len() {
                law_bit_xor_expr_reads_every_operator(toks, pos + 1);
                lemma_bit_or_expr_rest_stops(toks, p, first, acc.push((TokenType::BitOr, e)));
            }
        }
    }
}

/// An expression of the bitwise or level is read as far as its operators (`|`)
/// and those of every level that binds more tightly go: after each operand
/// the parser reads the operator that follows and another operand, and it
/// stops only before a token that is none of these operators.
pub proof fn law_bit_or_expr_reads_every_operator(toks: Seq<SpecToken>, pos: int)
    ensures
        parse_bit_or_expr_spec(toks, pos) matches Some((e, r)) ==> r < toks.len()
            && !bit_or_expr_or_tighter(toks[r].token_type),
{
    if 0 <= pos <= toks.len() {
        law_bit_xor_expr_reads_every_operator(toks, pos);
        if let Some((first, p)) = parse_bit_xor_expr_spec(toks, pos) {
            if pos < p <= toks.len() {
                lemma_bit_or_expr_rest_stops(toks, p, first, Seq::empty());
            }
        }
    }
}

/// Whether `t` is one of the logical and operators: `&&`.
pub open spec fn log_and_expr_operator(t: TokenType) -> bool {
    t == TokenType::And
}

/// Whether `t` is an operator of the logical and level or of a level that binds
/// more tightly.
pub open spec fn log_and_expr_or_tighter(t: TokenType) -> bool {
    log_and_expr_operator(t) || bit_or_expr_or_tighter(t)
}

proof fn lemma_log_and_expr_rest_stops(toks: Seq<SpecToken>, pos: int, first: SpecExpr, acc: Seq<(TokenType, SpecExpr)>)
    requires
        0 <= pos < toks.len() ==> !bit_or_expr_or_tighter(toks[pos].token_type),
    ensures
        parse_log_and_expr_rest(toks, pos, first, acc) matches Some((e, r)) ==> r < toks.len()
            && !log_and_expr_or_tighter(toks[r].token_type),
    decreases toks.len() - pos,
{
    if 0 <= pos < toks.len() && (toks[pos].token_type == TokenType::And) {
        if let Some((e, p)) = parse_bit_or_expr_spec(toks, pos + 1) {
            if pos < p <= toks.len() {
                law_bit_or_expr_reads_every_operator(toks, pos + 1);
                lemma_log_and_expr_rest_stops(toks, p, first, acc.push((TokenType::And, e)));
            }
        }
    }
}

/// An expression of the logical and level is read as far as its operators (`&&`)
/// and those of every level that binds more tightly go: after each operand
/// the parser reads the operator that follows and another operand, and it
/// stops only before a token that is none of these operators.
pub proof fn law_log_and_expr_reads_every_operator(toks: Seq<SpecToken>, pos: int)
    ensures
        parse_log_and_expr_spec(toks, pos) matches Some((e, r)) ==> r < toks.len()
            && !log_and_expr_or_tighter(toks[r].token_type),
{
    if 0 <= pos <= toks.len() {
        law_bit_or_expr_reads_every_operator(toks, pos);
        if let Some((first, p)) = parse_bit_or_expr_spec(toks, pos) {
            if pos < p <= toks.len() {
                lemma_log_and_expr_rest_stops(toks, p, first, Seq::empty());
            }
        }
    }
}

/// Whether `t` is one of the logical or operators: `||`.
pub open spec fn log_or_expr_operator(t: TokenType) -> bool {
    t == TokenType::Or
}

/// Whether `t` is an operator of the logical or level or of a level that binds
/// more tightly.
pub open spec fn log_or_expr_or_tighter(t: TokenType) -> bool {
    log_or_expr_operator(t) || log_and_expr_or_tighter(t)
}

proof fn lemma_log_or_expr_rest_stops(toks: Seq<SpecToken>, pos: int, first: SpecExpr, acc: Seq<(TokenType, SpecExpr)>)
    requires
        0 <= pos < toks.len() ==> !log_and_expr_or_tighter(toks[pos].token_type),
    ensures
        parse_log_or_expr_rest(toks, pos, first, acc) matches Some((e, r)) ==> r < toks.len()
            && !log_or_expr_or_tighter(toks[r].token_type),
    decreases toks.len() - pos,
{
    if 0 <= pos < toks.len() && (toks[pos].token_type == TokenType::Or) {
        if let Some((e, p)) = parse_log_and_expr_spec(toks, pos + 1) {
            if pos < p <= toks.len() {
                law_log_and_expr_reads_every_operator(toks, pos + 1);
                lemma_log_or_expr_rest_stops(toks, p, first, acc.push((TokenType::Or, e)));
            }
        }
    }
}

/// An expression of the logical or level is read as far as its operators (`||`)
/// and those of every level that binds more tightly go: after each operand
/// the parser reads the operator that follows and another operand, and it
/// stops only before a token that is none of these operators.
pub proof fn law_log_or_expr_reads_every_operator(toks: Seq<SpecToken>, pos: int)
    ensures
        parse_log_or_expr_spec(toks, pos) matches Some((e, r)) ==> r < toks.len()
            && !log_or_expr_or_tighter(toks[r].token_type),
{
    if 0 <= pos <= toks.len() {
        law_log_and_expr_reads_every_operator(toks, pos);
        if let Some((first, p)) = parse_log_and_expr_spec(toks, pos) {
            if pos < p <= toks.len() {
                lemma_log_or_expr_rest_stops(toks, p, first, Seq::empty());
            }
        }
    }
}

/// Whether a token can begin an expression: a literal, a name, an opening
/// parenthesis or a unary operator.
pub open spec fn begins_expression(t: TokenType) -> bool {
    t == TokenType::Literal || t == TokenType::Identifier || t == TokenType::LParen || t
        == TokenType::Minus || t == TokenType::BitComplement || t == TokenType::LogicalNeg
}

proof fn lemma_factor_begins(toks: Seq<SpecToken>, pos: int)
    ensures
        parse_factor_spec(toks, pos) is Some ==> begins_expression(toks[pos].token_type),
{
}

proof fn lemma_term_begins(toks: Seq<SpecToken>, pos: int)
    ensures
        parse_term_spec(toks, pos) is Some ==> begins_expression(toks[pos].token_type),
{
    lemma_factor_begins(toks, pos);
}

proof fn lemma_add_expr_begins(toks: Seq<SpecToken>, pos: int)
    ensures
        parse_add_expr_spec(toks, pos) is Some ==> begins_expression(toks[pos].token_type),
{
    lemma_term_begins(toks, pos);
}

proof fn lemma_shift_expr_begins(toks: Seq<SpecToken>, pos: int)
    ensures
        parse_shift_expr_spec(toks, pos) is Some ==> begins_expression(toks[pos].token_type),
{
    lemma_add_expr_begins(toks, pos);
}

proof fn lemma_rel_expr_begins(toks: Seq<SpecToken>, pos: int)
    ensures
        parse_rel_expr_spec(toks, pos) is Some ==> begins_expression(toks[pos].token_type),
{
    lemma_shift_expr_begins(toks, pos);
}

proof fn lemma_eq_expr_begins(toks: Seq<SpecToken>, pos: int)
    ensures
        parse_eq_expr_spec(toks, pos) is Some ==> begins_expression(toks[pos].token_type),
{
    lemma_rel_expr_begins(toks, pos);
}

proof fn lemma_bit_and_expr_begins(toks: Seq<SpecToken>, pos: int)
    ensures
        parse_bit_and_expr_spec(toks, pos) is Some ==> begins_expression(toks[pos].token_type),
{
    lemma_eq_expr_begins(toks, pos);
}

proof fn lemma_bit_xor_expr_begins(toks: Seq<SpecToken>, pos: int)
    ensures
        parse_bit_xor_expr_spec(toks, pos) is Some ==> begins_expression(toks[pos].token_type),
{
    lemma_bit_and_expr_begins(toks, pos);
}

proof fn lemma_bit_or_expr_begins(toks: Seq<SpecToken>, pos: int)
    ensures
        parse_bit_or_expr_spec(toks, pos) is Some ==> begins_expression(toks[pos].token_type),
{
    lemma_bit_xor_expr_begins(toks, pos);
}

proof fn lemma_log_and_expr_begins(toks: Seq<SpecToken>, pos: int)
    ensures
        parse_log_and_expr_spec(toks, pos) is Some ==> begins_expression(toks[pos].token_type),
{
    lemma_bit_or_expr_begins(toks, pos);
}

proof fn lemma_log_or_expr_begins(toks: Seq<SpecToken>, pos: int)
    ensures
        parse_log_or_expr_spec(toks, pos) is Some ==> begins_expression(toks[pos].token_type),
{
    lemma_log_and_expr_begins(toks, pos);
}

proof fn lemma_conditional_begins(toks: Seq<SpecToken>, pos: int)
    ensures
        parse_conditional_spec(toks, pos) is Some ==> begins_expression(toks[pos].token_type),
{
    lemma_log_or_expr_begins(toks, pos);
}

proof fn lemma_expr_begins(toks: Seq<SpecToken>, pos: int)
    ensures
        parse_expr_spec(toks, pos) is Some ==> begins_expression(toks[pos].token_type),
{
    lemma_conditional_begins(toks, pos);
}

/// The parser reads each form of factor: `(`, an expression and `)` as that
/// expression in parentheses; a unary operator and a factor as the operator
/// applied to the factor; a literal whose text is a number as that number;
/// a name as that name.
pub proof fn law_factor_forms(toks: Seq<SpecToken>, pos: int)
    requires
        0 <= pos < toks.len(),
    ensures
        toks[pos].token_type == TokenType::LParen ==> (parse_expr_spec(toks, pos + 1) matches Some((e, p))
            ==> (p < toks.len() && toks[p].token_type == TokenType::RParen ==> parse_factor_spec(toks, pos)
            == Some((SpecExpr::Paren(Box::new(e)), p + 1)))),
        (toks[pos].token_type == TokenType::Minus || toks[pos].token_type == TokenType::BitComplement
            || toks[pos].token_type == TokenType::LogicalNeg) ==> (parse_factor_spec(toks, pos + 1)
            matches Some((f, p)) ==> parse_factor_spec(toks, pos) == Some(
            (SpecExpr::Unary(toks[pos].token_type, Box::new(f)), p),
        )),
        toks[pos].token_type == TokenType::Literal ==> (parse_i32_spec(toks[pos].text) matches Some(v)
            ==> parse_factor_spec(toks, pos) == Some((SpecExpr::Number(v), pos + 1))),
        toks[pos].token_type == TokenType::Identifier ==> parse_factor_spec(toks, pos) == Some(
            (SpecExpr::Ident(toks[pos].text), pos + 1),
        ),
{
    lemma_expr(toks, pos + 1);
}

/// The parser reads `int`, a name and `;` as a declaration of that name
/// without a value, and `int`, a name, `=`, an expression and `;` as a
/// declaration of that name with that value.
pub proof fn law_declaration_forms(toks: Seq<SpecToken>, pos: int)
    requires
        0 <= pos,
        pos + 2 < toks.len(),
        toks[pos].token_type == TokenType::Integer,
        toks[pos + 1].token_type == TokenType::Identifier,
    ensures
        toks[pos + 2].token_type == TokenType::Semicolon ==> parse_declaration_spec(toks, pos) == Some(
            (SpecDeclaration { identifier: toks[pos + 1].text, expr: None }, pos + 3),
        ),
        toks[pos + 2].token_type == TokenType::Assign ==> (parse_expr_spec(toks, pos + 3) matches Some(
            (e, p),
        ) ==> (p < toks.len() && toks[p].token_type == TokenType::Semicolon ==> parse_declaration_spec(
            toks,
            pos,
        ) == Some((SpecDeclaration { identifier: toks[pos + 1].text, expr: Some(e) }, p + 1)))),
{
    lemma_expr(toks, pos + 3);
}

/// The parser reads `return`, an expression and `;` as a return of that
/// expression, and an expression that begins with a name, then `;`, as an
/// expression statement.
pub proof fn law_return_and_expression_forms(toks: Seq<SpecToken>, pos: int)
    requires
        0 <= pos < toks.len(),
    ensures
        toks[pos].token_type == TokenType::Return ==> (parse_expr_spec(toks, pos + 1) matches Some((e, p))
            ==> (p < toks.len() && toks[p].token_type == TokenType::Semicolon ==> parse_statement_spec(
            toks,
            pos,
        ) == Some((SpecStatement::Return(e), p + 1)))),
        toks[pos].token_type == TokenType::Identifier ==> (parse_expr_spec(toks, pos) matches Some((e, p))
            ==> (p < toks.len() && toks[p].token_type == TokenType::Semicolon ==> parse_statement_spec(
            toks,
            pos,
        ) == Some((SpecStatement::Expr(e), p + 1)))),
{
    lemma_expr_begins(toks, pos + 1);
    lemma_expr(toks, pos + 1);
    lemma_expr(toks, pos);
}

/// The parser reads `if`, `(`, a condition, `)` and a statement as an `if`
/// statement, and where `else` and another statement follow, as an `if`
/// statement with that `else` branch.
pub proof fn law_if_forms(toks: Seq<SpecToken>, pos: int)
    requires
        0 <= pos,
        pos + 1 < toks.len(),
        toks[pos].token_type == TokenType::If,
        toks[pos + 1].token_type == TokenType::LParen,
    ensures
        parse_expr_spec(toks, pos + 2) matches Some((e, p)) ==> (p < toks.len() && toks[p].token_type
            == TokenType::RParen ==> (parse_statement_spec(toks, p + 1) matches Some((s, q)) ==> (q
            < toks.len() ==> {
            &&& toks[q].token_type != TokenType::Else ==> parse_statement_spec(toks, pos) == Some(
                (SpecStatement::If(e, Box::new(s)), q),
            )
            &&& toks[q].token_type == TokenType::Else ==> (parse_statement_spec(toks, q + 1) matches Some(
                (t, r),
            ) ==> parse_statement_spec(toks, pos) == Some(
                (SpecStatement::IfElse(e, Box::new(s), Box::new(t)), r),
            ))
        }))),
{
    lemma_expr(toks, pos + 2);
    if let Some((e, p)) = parse_expr_spec(toks, pos + 2) {
        if p < toks.len() && toks[p].token_type == TokenType::RParen {
            law_parse_statement_tokens(toks, p + 1);
        }
    }
}


/// The parser reads a logical-or expression followed by `?`, an expression,
/// `:` and a conditional expression as the conditional expression choosing
/// between the two; without `?` it is the logical-or expression alone. And it
/// reads a name, `=` and an expression as the assignment of that expression
/// to the name.
pub proof fn law_conditional_and_assignment_forms(toks: Seq<SpecToken>, pos: int)
    requires
        0 <= pos <= toks.len(),
    ensures
        parse_log_or_expr_spec(toks, pos) matches Some((c, p)) ==> ({
            &&& toks[p].token_type != TokenType::QuestionMark ==> parse_conditional_spec(toks, pos)
                == Some((SpecExpr::Cond(Box::new(c)), p))
            &&& toks[p].token_type == TokenType::QuestionMark ==> (parse_expr_spec(toks, p + 1) matches Some(
                (a, q),
            ) ==> (q < toks.len() && toks[q].token_type == TokenType::Colon ==> (parse_conditional_spec(
                toks,
                q + 1,
            ) matches Some((b, r)) ==> parse_conditional_spec(toks, pos) == Some(
                (SpecExpr::Ternary(Box::new(c), Box::new(a), Box::new(b)), r),
            ))))
        }),
        pos + 1 < toks.len() && toks[pos].token_type == TokenType::Identifier && toks[pos
            + 1].token_type == TokenType::Assign ==> (parse_expr_spec(toks, pos + 2) matches Some((e, p))
            ==> parse_expr_spec(toks, pos) == Some((SpecExpr::Assign(toks[pos].text, Box::new(e)), p))),
{
    lemma_log_or_expr(toks, pos);
    law_log_or_expr_reads_every_operator(toks, pos);
    if let Some((c, p)) = parse_log_or_expr_spec(toks, pos) {
        lemma_expr(toks, p + 1);
    }
}

} // verus!

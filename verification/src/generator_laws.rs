//! Laws of the code generator: it only appends to the text it is given,
//! and its label counter never goes back.
use vstd::prelude::*;
use crate::generator::{
    SpecGenError, SpecStackInfo, gen_add_expr_rest, gen_add_expr_spec, gen_bit_and_expr_rest,
    gen_bit_and_expr_spec, gen_bit_or_expr_rest, gen_bit_or_expr_spec, gen_bit_xor_expr_rest,
    gen_bit_xor_expr_spec, gen_blocks_spec, gen_conditional_spec, gen_declaration_spec,
    gen_eq_expr_rest, gen_eq_expr_spec, gen_expr_spec, gen_factor_spec, gen_functions_spec,
    gen_log_and_expr_rest, gen_log_and_expr_spec, gen_log_or_expr_rest, gen_log_or_expr_spec,
    gen_rel_expr_rest, gen_rel_expr_spec, gen_shift_expr_rest, gen_shift_expr_spec,
    gen_statement_spec, gen_term_rest, gen_term_spec, generate_spec, initial_stack_info,
};
use crate::lexer::TokenType;
use crate::numbers::{decimal, nat_decimal};
use crate::parser::{SpecBlock, SpecDeclaration, SpecExpr, SpecFunction, SpecProgram, SpecStatement};

verus! {

/// Whether `o` begins with `out`.
pub open spec fn extends(o: Seq<char>, out: Seq<char>) -> bool {
    out.len() <= o.len() && forall|i: int| 0 <= i < out.len() ==> #[trigger] o[i] == out[i]
}

/// What a generating step keeps: its text begins with the text it was
/// given, and its counter is no smaller than the one it was given.
pub open spec fn appends(r: Result<(Seq<char>, int), SpecGenError>, out: Seq<char>, counter: int) -> bool {
    r matches Ok((o, c)) ==> extends(o, out) && c >= counter
}

proof fn lemma_gen_factor(e: SpecExpr, vars: Map<Seq<char>, i32>, counter: int, out: Seq<char>)
    ensures
        appends(gen_factor_spec(e, vars, counter, out), out, counter),
    decreases e, 0nat, 0int,
{
    match e {
        SpecExpr::Paren(x) => {
            lemma_gen_expr(*x, vars, counter, out);
        },
        SpecExpr::Unary(op, x) => {
            lemma_gen_factor(*x, vars, counter, out);
        },
        _ => {},
    }
}

proof fn lemma_gen_term(e: SpecExpr, vars: Map<Seq<char>, i32>, counter: int, out: Seq<char>)
    ensures
        appends(gen_term_spec(e, vars, counter, out), out, counter),
    decreases e, 1nat, 0int,
{
    match e {
        SpecExpr::Chain(first, rest) => {
            assert(decreases_to!(e => e->Chain_1));
            lemma_gen_factor(*first, vars, counter, out);
            if let Ok((o, c)) = gen_factor_spec(*first, vars, counter, out) {
                lemma_gen_term_rest(rest, 0, vars, c, o);
            }
        },
        _ => {},
    }
}

proof fn lemma_gen_term_rest(
    rest: Seq<(TokenType, SpecExpr)>,
    i: int,
    vars: Map<Seq<char>, i32>,
    counter: int,
    out: Seq<char>,
)
    ensures
        appends(gen_term_rest(rest, i, vars, counter, out), out, counter),
    decreases rest, 1nat, rest.len() - i,
{
    if 0 <= i < rest.len() {
        assert(decreases_to!(rest => rest[i]));
        assert(decreases_to!(rest[i] => rest[i].1));
        let out1 = out + "push %rax\n"@;
        lemma_gen_factor(rest[i].1, vars, counter, out1);
        if let Ok((o, c)) = gen_factor_spec(rest[i].1, vars, counter, out1) {
            let o2 = o;
                if rest[i].0 == TokenType::Multiplication {
                    lemma_gen_term_rest(rest, i + 1, vars, c, o2 + "pop %rcx\nimul %ecx, %eax\n"@);
                } else if rest[i].0 == TokenType::Division {
                    lemma_gen_term_rest(rest, i + 1, vars, c, o2 + "movl %eax, %ecx\npop %rax\ncdq\nidivl %ecx\n"@);
                }
        }
    }
}

proof fn lemma_gen_add_expr(e: SpecExpr, vars: Map<Seq<char>, i32>, counter: int, out: Seq<char>)
    ensures
        appends(gen_add_expr_spec(e, vars, counter, out), out, counter),
    decreases e, 2nat, 0int,
{
    match e {
        SpecExpr::Chain(first, rest) => {
            assert(decreases_to!(e => e->Chain_1));
            lemma_gen_term(*first, vars, counter, out);
            if let Ok((o, c)) = gen_term_spec(*first, vars, counter, out) {
                lemma_gen_add_expr_rest(rest, 0, vars, c, o);
            }
        },
        _ => {},
    }
}

proof fn lemma_gen_add_expr_rest(
    rest: Seq<(TokenType, SpecExpr)>,
    i: int,
    vars: Map<Seq<char>, i32>,
    counter: int,
    out: Seq<char>,
)
    ensures
        appends(gen_add_expr_rest(rest, i, vars, counter, out), out, counter),
    decreases rest, 2nat, rest.len() - i,
{
    if 0 <= i < rest.len() {
        assert(decreases_to!(rest => rest[i]));
        assert(decreases_to!(rest[i] => rest[i].1));
        let out1 = out + "push %rax\n"@;
        lemma_gen_term(rest[i].1, vars, counter, out1);
        if let Ok((o, c)) = gen_term_spec(rest[i].1, vars, counter, out1) {
            let o2 = o;
                if rest[i].0 == TokenType::Addition {
                    lemma_gen_add_expr_rest(rest, i + 1, vars, c, o2 + "pop %rcx\naddl %ecx, %eax\n"@);
                } else if rest[i].0 == TokenType::Minus {
                    lemma_gen_add_expr_rest(rest, i + 1, vars, c, o2 + "movl %eax, %ecx\npop %rax\nsubl %ecx, %eax\n"@);
                }
        }
    }
}

proof fn lemma_gen_shift_expr(e: SpecExpr, vars: Map<Seq<char>, i32>, counter: int, out: Seq<char>)
    ensures
        appends(gen_shift_expr_spec(e, vars, counter, out), out, counter),
    decreases e, 3nat, 0int,
{
    match e {
        SpecExpr::Chain(first, rest) => {
            assert(decreases_to!(e => e->Chain_1));
            lemma_gen_add_expr(*first, vars, counter, out);
            if let Ok((o, c)) = gen_add_expr_spec(*first, vars, counter, out) {
                lemma_gen_shift_expr_rest(rest, 0, vars, c, o);
            }
        },
        _ => {},
    }
}

proof fn lemma_gen_shift_expr_rest(
    rest: Seq<(TokenType, SpecExpr)>,
    i: int,
    vars: Map<Seq<char>, i32>,
    counter: int,
    out: Seq<char>,
)
    ensures
        appends(gen_shift_expr_rest(rest, i, vars, counter, out), out, counter),
    decreases rest, 3nat, rest.len() - i,
{
    if 0 <= i < rest.len() {
        assert(decreases_to!(rest => rest[i]));
        assert(decreases_to!(rest[i] => rest[i].1));
        let out1 = out + "push %rax\n"@;
        lemma_gen_add_expr(rest[i].1, vars, counter, out1);
        if let Ok((o, c)) = gen_add_expr_spec(rest[i].1, vars, counter, out1) {
            let o2 = o + "movl %eax, %ecx\npop %rax\n"@;
                if rest[i].0 == TokenType::LBitShift {
                    lemma_gen_shift_expr_rest(rest, i + 1, vars, c, o2 + "sal %cl, %eax\n"@);
                } else if rest[i].0 == TokenType::RBitShift {
                    lemma_gen_shift_expr_rest(rest, i + 1, vars, c, o2 + "sar %cl, %eax\n"@);
                }
        }
    }
}

proof fn lemma_gen_rel_expr(e: SpecExpr, vars: Map<Seq<char>, i32>, counter: int, out: Seq<char>)
    ensures
        appends(gen_rel_expr_spec(e, vars, counter, out), out, counter),
    decreases e, 4nat, 0int,
{
    match e {
        SpecExpr::Chain(first, rest) => {
            assert(decreases_to!(e => e->Chain_1));
            lemma_gen_shift_expr(*first, vars, counter, out);
            if let Ok((o, c)) = gen_shift_expr_spec(*first, vars, counter, out) {
                lemma_gen_rel_expr_rest(rest, 0, vars, c, o);
            }
        },
        _ => {},
    }
}

proof fn lemma_gen_rel_expr_rest(
    rest: Seq<(TokenType, SpecExpr)>,
    i: int,
    vars: Map<Seq<char>, i32>,
    counter: int,
    out: Seq<char>,
)
    ensures
        appends(gen_rel_expr_rest(rest, i, vars, counter, out), out, counter),
    decreases rest, 4nat, rest.len() - i,
{
    if 0 <= i < rest.len() {
        assert(decreases_to!(rest => rest[i]));
        assert(decreases_to!(rest[i] => rest[i].1));
        let out1 = out + "push %rax\n"@;
        lemma_gen_shift_expr(rest[i].1, vars, counter, out1);
        if let Ok((o, c)) = gen_shift_expr_spec(rest[i].1, vars, counter, out1) {
            let o2 = o + "pop %rcx\ncmpl %eax, %ecx\nmovl $0, %eax\n"@;
                if rest[i].0 == TokenType::LessThan {
                    lemma_gen_rel_expr_rest(rest, i + 1, vars, c, o2 + "setl %al\n"@);
                } else if rest[i].0 == TokenType::LessThanEqual {
                    lemma_gen_rel_expr_rest(rest, i + 1, vars, c, o2 + "setle %al\n"@);
                } else if rest[i].0 == TokenType::GreaterThan {
                    lemma_gen_rel_expr_rest(rest, i + 1, vars, c, o2 + "setg %al\n"@);
                } else if rest[i].0 == TokenType::GreaterThanEqual {
                    lemma_gen_rel_expr_rest(rest, i + 1, vars, c, o2 + "setge %al\n"@);
                }
        }
    }
}

proof fn lemma_gen_eq_expr(e: SpecExpr, vars: Map<Seq<char>, i32>, counter: int, out: Seq<char>)
    ensures
        appends(gen_eq_expr_spec(e, vars, counter, out), out, counter),
    decreases e, 5nat, 0int,
{
    match e {
        SpecExpr::Chain(first, rest) => {
            assert(decreases_to!(e => e->Chain_1));
            lemma_gen_rel_expr(*first, vars, counter, out);
            if let Ok((o, c)) = gen_rel_expr_spec(*first, vars, counter, out) {
                lemma_gen_eq_expr_rest(rest, 0, vars, c, o);
            }
        },
        _ => {},
    }
}

proof fn lemma_gen_eq_expr_rest(
    rest: Seq<(TokenType, SpecExpr)>,
    i: int,
    vars: Map<Seq<char>, i32>,
    counter: int,
    out: Seq<char>,
)
    ensures
        appends(gen_eq_expr_rest(rest, i, vars, counter, out), out, counter),
    decreases rest, 5nat, rest.len() - i,
{
    if 0 <= i < rest.len() {
        assert(decreases_to!(rest => rest[i]));
        assert(decreases_to!(rest[i] => rest[i].1));
        let out1 = out + "push %rax\n"@;
        lemma_gen_rel_expr(rest[i].1, vars, counter, out1);
        if let Ok((o, c)) = gen_rel_expr_spec(rest[i].1, vars, counter, out1) {
            let o2 = o + "pop %rcx\ncmpl %eax, %ecx\nmovl $0, %eax\n"@;
                if rest[i].0 == TokenType::Equal {
                    lemma_gen_eq_expr_rest(rest, i + 1, vars, c, o2 + "sete %al\n"@);
                } else if rest[i].0 == TokenType::NotEqual {
                    lemma_gen_eq_expr_rest(rest, i + 1, vars, c, o2 + "setne %al\n"@);
                }
        }
    }
}

proof fn lemma_gen_bit_and_expr(e: SpecExpr, vars: Map<Seq<char>, i32>, counter: int, out: Seq<char>)
    ensures
        appends(gen_bit_and_expr_spec(e, vars, counter, out), out, counter),
    decreases e, 6nat, 0int,
{
    match e {
        SpecExpr::Chain(first, rest) => {
            assert(decreases_to!(e => e->Chain_1));
            lemma_gen_eq_expr(*first, vars, counter, out);
            if let Ok((o, c)) = gen_eq_expr_spec(*first, vars, counter, out) {
                lemma_gen_bit_and_expr_rest(rest, 0, vars, c, o);
            }
        },
        _ => {},
    }
}

proof fn lemma_gen_bit_and_expr_rest(
    rest: Seq<(TokenType, SpecExpr)>,
    i: int,
    vars: Map<Seq<char>, i32>,
    counter: int,
    out: Seq<char>,
)
    ensures
        appends(gen_bit_and_expr_rest(rest, i, vars, counter, out), out, counter),
    decreases rest, 6nat, rest.len() - i,
{
    if 0 <= i < rest.len() {
        assert(decreases_to!(rest => rest[i]));
        assert(decreases_to!(rest[i] => rest[i].1));
        let out1 = out + "push %rax\n"@;
        lemma_gen_eq_expr(rest[i].1, vars, counter, out1);
        if let Ok((o, c)) = gen_eq_expr_spec(rest[i].1, vars, counter, out1) {
            lemma_gen_bit_and_expr_rest(rest, i + 1, vars, c, o + "pop %rcx\nand %ecx, %eax\n"@);
        }
    }
}

proof fn lemma_gen_bit_xor_expr(e: SpecExpr, vars: Map<Seq<char>, i32>, counter: int, out: Seq<char>)
    ensures
        appends(gen_bit_xor_expr_spec(e, vars, counter, out), out, counter),
    decreases e, 7nat, 0int,
{
    match e {
        SpecExpr::Chain(first, rest) => {
            assert(decreases_to!(e => e->Chain_1));
            lemma_gen_bit_and_expr(*first, vars, counter, out);
            if let Ok((o, c)) = gen_bit_and_expr_spec(*first, vars, counter, out) {
                lemma_gen_bit_xor_expr_rest(rest, 0, vars, c, o);
            }
        },
        _ => {},
    }
}

proof fn lemma_gen_bit_xor_expr_rest(
    rest: Seq<(TokenType, SpecExpr)>,
    i: int,
    vars: Map<Seq<char>, i32>,
    counter: int,
    out: Seq<char>,
)
    ensures
        appends(gen_bit_xor_expr_rest(rest, i, vars, counter, out), out, counter),
    decreases rest, 7nat, rest.len() - i,
{
    if 0 <= i < rest.len() {
        assert(decreases_to!(rest => rest[i]));
        assert(decreases_to!(rest[i] => rest[i].1));
        let out1 = out + "push %rax\n"@;
        lemma_gen_bit_and_expr(rest[i].1, vars, counter, out1);
        if let Ok((o, c)) = gen_bit_and_expr_spec(rest[i].1, vars, counter, out1) {
            lemma_gen_bit_xor_expr_rest(rest, i + 1, vars, c, o + "pop %rcx\nxor %ecx, %eax\n"@);
        }
    }
}

proof fn lemma_gen_bit_or_expr(e: SpecExpr, vars: Map<Seq<char>, i32>, counter: int, out: Seq<char>)
    ensures
        appends(gen_bit_or_expr_spec(e, vars, counter, out), out, counter),
    decreases e, 8nat, 0int,
{
    match e {
        SpecExpr::Chain(first, rest) => {
            assert(decreases_to!(e => e->Chain_1));
            lemma_gen_bit_xor_expr(*first, vars, counter, out);
            if let Ok((o, c)) = gen_bit_xor_expr_spec(*first, vars, counter, out) {
                lemma_gen_bit_or_expr_rest(rest, 0, vars, c, o);
            }
        },
        _ => {},
    }
}

proof fn lemma_gen_bit_or_expr_rest(
    rest: Seq<(TokenType, SpecExpr)>,
    i: int,
    vars: Map<Seq<char>, i32>,
    counter: int,
    out: Seq<char>,
)
    ensures
        appends(gen_bit_or_expr_rest(rest, i, vars, counter, out), out, counter),
    decreases rest, 8nat, rest.len() - i,
{
    if 0 <= i < rest.len() {
        assert(decreases_to!(rest => rest[i]));
        assert(decreases_to!(rest[i] => rest[i].1));
        let out1 = out + "push %rax\n"@;
        lemma_gen_bit_xor_expr(rest[i].1, vars, counter, out1);
        if let Ok((o, c)) = gen_bit_xor_expr_spec(rest[i].1, vars, counter, out1) {
            lemma_gen_bit_or_expr_rest(rest, i + 1, vars, c, o + "pop %rcx\nor %ecx, %eax\n"@);
        }
    }
}

proof fn lemma_gen_log_and_expr(e: SpecExpr, vars: Map<Seq<char>, i32>, counter: int, out: Seq<char>)
    ensures
        appends(gen_log_and_expr_spec(e, vars, counter, out), out, counter),
    decreases e, 9nat, 0int,
{
    match e {
        SpecExpr::Chain(first, rest) => {
            assert(decreases_to!(e => e->Chain_1));
            lemma_gen_bit_or_expr(*first, vars, counter, out);
            if let Ok((o, c)) = gen_bit_or_expr_spec(*first, vars, counter, out) {
                lemma_gen_log_and_expr_rest(rest, 0, vars, c, o);
            }
        },
        _ => {},
    }
}

proof fn lemma_gen_log_and_expr_rest(
    rest: Seq<(TokenType, SpecExpr)>,
    i: int,
    vars: Map<Seq<char>, i32>,
    counter: int,
    out: Seq<char>,
)
    ensures
        appends(gen_log_and_expr_rest(rest, i, vars, counter, out), out, counter),
    decreases rest, 9nat, rest.len() - i,
{
    if 0 <= i < rest.len() {
        assert(decreases_to!(rest => rest[i]));
        assert(decreases_to!(rest[i] => rest[i].1));
        let n = nat_decimal(counter as nat);
        let out1 = out + "cmpl $0, %eax\njne _clause"@ + n + "\njmp _end"@ + n + "\n_clause"@ + n + ":\n"@;
        lemma_gen_bit_or_expr(rest[i].1, vars, counter + 1, out1);
        if let Ok((o, c)) = gen_bit_or_expr_spec(rest[i].1, vars, counter + 1, out1) {
            lemma_gen_log_and_expr_rest(rest, i + 1, vars, c, o + "cmpl $0, %eax\nmovl $0, %eax\nsetne %al\n_end"@ + n + ":\n"@);
        }
    }
}

proof fn lemma_gen_log_or_expr(e: SpecExpr, vars: Map<Seq<char>, i32>, counter: int, out: Seq<char>)
    ensures
        appends(gen_log_or_expr_spec(e, vars, counter, out), out, counter),
    decreases e, 10nat, 0int,
{
    match e {
        SpecExpr::Chain(first, rest) => {
            assert(decreases_to!(e => e->Chain_1));
            lemma_gen_log_and_expr(*first, vars, counter, out);
            if let Ok((o, c)) = gen_log_and_expr_spec(*first, vars, counter, out) {
                lemma_gen_log_or_expr_rest(rest, 0, vars, c, o);
            }
        },
        _ => {},
    }
}

proof fn lemma_gen_log_or_expr_rest(
    rest: Seq<(TokenType, SpecExpr)>,
    i: int,
    vars: Map<Seq<char>, i32>,
    counter: int,
    out: Seq<char>,
)
    ensures
        appends(gen_log_or_expr_rest(rest, i, vars, counter, out), out, counter),
    decreases rest, 10nat, rest.len() - i,
{
    if 0 <= i < rest.len() {
        assert(decreases_to!(rest => rest[i]));
        assert(decreases_to!(rest[i] => rest[i].1));
        let n = nat_decimal(counter as nat);
        let out1 = out + "cmpl $0, %eax\nje _clause"@ + n + "\nmovl $1, %eax\njmp _end"@ + n + "\n_clause"@ + n + ":\n"@;
        lemma_gen_log_and_expr(rest[i].1, vars, counter + 1, out1);
        if let Ok((o, c)) = gen_log_and_expr_spec(rest[i].1, vars, counter + 1, out1) {
            lemma_gen_log_or_expr_rest(rest, i + 1, vars, c, o + "cmpl $0, %eax\nmovl $0, %eax\nsetne %al\n_end"@ + n + ":\n"@);
        }
    }
}

proof fn lemma_gen_conditional(e: SpecExpr, vars: Map<Seq<char>, i32>, counter: int, out: Seq<char>)
    ensures
        appends(gen_conditional_spec(e, vars, counter, out), out, counter),
    decreases e, 11nat, 0int,
{
    match e {
        SpecExpr::Cond(x) => {
            lemma_gen_log_or_expr(*x, vars, counter, out);
        },
        SpecExpr::Ternary(x, a, b) => {
            lemma_gen_log_or_expr(*x, vars, counter, out);
            if let Ok((o1, c1)) = gen_log_or_expr_spec(*x, vars, counter, out) {
                let n = nat_decimal(c1 as nat);
                let out2 = o1 + "cmpl $0, %eax\nje _e"@ + n + "\n"@;
                lemma_gen_expr(*a, vars, c1 + 1, out2);
                if let Ok((o2, c2)) = gen_expr_spec(*a, vars, c1 + 1, out2) {
                    let out3 = o2 + "jmp _post_cond"@ + n + "\n_e"@ + n + ":\n"@;
                    lemma_gen_conditional(*b, vars, c2, out3);
                }
            }
        },
        _ => {},
    }
}

proof fn lemma_gen_expr(e: SpecExpr, vars: Map<Seq<char>, i32>, counter: int, out: Seq<char>)
    ensures
        appends(gen_expr_spec(e, vars, counter, out), out, counter),
    decreases e, 12nat, 0int,
{
    match e {
        SpecExpr::Assign(name, x) => {
            lemma_gen_expr(*x, vars, counter, out);
        },
        _ => {
            lemma_gen_conditional(e, vars, counter, out);
        },
    }
}

/// The code of an expression is appended to the text it is given, and the
/// label counter does not go back.
pub proof fn law_gen_expr_appends(e: SpecExpr, vars: Map<Seq<char>, i32>, counter: int, out: Seq<char>)
    ensures
        appends(gen_expr_spec(e, vars, counter, out), out, counter),
{
    lemma_gen_expr(e, vars, counter, out);
}

/// The code of a statement is appended to the text it is given, and the
/// label counter does not go back.
pub proof fn law_gen_statement_appends(
    s: SpecStatement,
    vars: Map<Seq<char>, i32>,
    counter: int,
    out: Seq<char>,
)
    ensures
        appends(gen_statement_spec(s, vars, counter, out), out, counter),
    decreases s,
{
    match s {
        SpecStatement::Expr(e) => {
            lemma_gen_expr(e, vars, counter, out);
        },
        SpecStatement::Return(e) => {
            lemma_gen_expr(e, vars, counter, out);
        },
        SpecStatement::If(e, t) => {
            lemma_gen_expr(e, vars, counter, out);
            if let Ok((o1, c1)) = gen_expr_spec(e, vars, counter, out) {
                let n = nat_decimal(c1 as nat);
                law_gen_statement_appends(*t, vars, c1 + 1, o1 + "cmpl $0, %eax\nje _e"@ + n + "\n"@);
            }
        },
        SpecStatement::IfElse(e, t, f) => {
            lemma_gen_expr(e, vars, counter, out);
            if let Ok((o1, c1)) = gen_expr_spec(e, vars, counter, out) {
                let n = nat_decimal(c1 as nat);
                let out2 = o1 + "cmpl $0, %eax\nje _e"@ + n + "\n"@;
                law_gen_statement_appends(*t, vars, c1 + 1, out2);
                if let Ok((o2, c2)) = gen_statement_spec(*t, vars, c1 + 1, out2) {
                    law_gen_statement_appends(
                        *f,
                        vars,
                        c2,
                        o2 + "jmp _post_cond"@ + n + "\n_e"@ + n + ":\n"@,
                    );
                }
            }
        },
    }
}

proof fn lemma_gen_blocks(blocks: Seq<SpecBlock>, i: int, st: SpecStackInfo, out: Seq<char>, has_ret: bool)
    ensures
        gen_blocks_spec(blocks, i, st, out, has_ret) matches Ok((o, _, _)) ==> extends(o, out),
    decreases blocks.len() - i,
{
    if 0 <= i < blocks.len() {
        match blocks[i] {
            SpecBlock::Statement(s) => {
                law_gen_statement_appends(s, st.vars, st.counter, out);
                if let Ok((o, c)) = gen_statement_spec(s, st.vars, st.counter, out) {
                    lemma_gen_blocks(
                        blocks,
                        i + 1,
                        SpecStackInfo { counter: c, stack_index: st.stack_index, vars: st.vars },
                        o,
                        has_ret || s is Return,
                    );
                }
            },
            SpecBlock::Declaration(d) => {
                if !st.vars.contains_key(d.identifier) {
                    if let Some(e) = d.expr {
                        lemma_gen_expr(e, st.vars, st.counter, out);
                    }
                }
                if let Ok((o, st2)) = gen_declaration_spec(d, st, out) {
                    lemma_gen_blocks(blocks, i + 1, st2, o, has_ret);
                }
            },
        }
    }
}

proof fn lemma_gen_functions(fs: Seq<SpecFunction>, i: int, st: SpecStackInfo, out: Seq<char>)
    ensures
        gen_functions_spec(fs, i, st, out) matches Ok((o, _)) ==> extends(o, out),
    decreases fs.len() - i,
{
    if 0 <= i < fs.len() {
        let out1 = out + fs[i].name + ":\npush %rbp\nmovl %esp, %ebp\n"@;
        lemma_gen_blocks(fs[i].blocks, 0, st, out1, false);
        if let Ok((o, st2, has_ret)) = gen_blocks_spec(fs[i].blocks, 0, st, out1, false) {
            lemma_gen_functions(
                fs,
                i + 1,
                st2,
                if has_ret { o } else { o + "movl $0, %eax\nmovl %ebp, %esp\npop %rbp\nret\n"@ },
            );
        }
    }
}

/// The assembly text of a program begins with the directive that makes
/// `main` visible to the linker.
pub proof fn law_generate_starts_with_globl(p: SpecProgram)
    ensures
        generate_spec(p) matches Ok(t) ==> extends(t, ".globl main\n\n"@),
{
    lemma_gen_functions(p.functions, 0, initial_stack_info(), ".globl main\n\n"@);
}

/// The text that opens the code of a function: its label and the prologue
/// that sets up its stack frame.
pub open spec fn function_header(name: Seq<char>) -> Seq<char> {
    name + ":\npush %rbp\nmovl %esp, %ebp\n"@
}

/// Whether `t` holds `w` from position `k` on.
pub open spec fn occurs_at(t: Seq<char>, w: Seq<char>, k: int) -> bool {
    0 <= k && k + w.len() <= t.len() && t.subrange(k, k + w.len()) == w
}

/// Whether `ks` gives, for each function of `fs`, a position of `t` where
/// its header stands, each header ending no later than the next begins.
pub open spec fn headers_at(t: Seq<char>, fs: Seq<SpecFunction>, ks: Seq<int>) -> bool {
    &&& ks.len() == fs.len()
    &&& forall|j: int| 0 <= j < ks.len() ==> occurs_at(t, function_header(fs[j].name), #[trigger] ks[j])
    &&& forall|j: int|
        0 < j < ks.len() ==> ks[j - 1] + function_header(fs[j - 1].name).len() <= #[trigger] ks[j]
}

proof fn lemma_gen_functions_headers(fs: Seq<SpecFunction>, i: int, st: SpecStackInfo, out: Seq<char>) -> (ks: Seq<int>)
    requires
        0 <= i <= fs.len(),
    ensures
        gen_functions_spec(fs, i, st, out) matches Ok((o, _)) ==> {
            &&& ks.len() == fs.len() - i
            &&& ks.len() > 0 ==> ks[0] == out.len()
            &&& forall|j: int| 0 <= j < ks.len() ==> out.len() <= #[trigger] ks[j]
            &&& forall|j: int|
                0 <= j < ks.len() ==> occurs_at(o, function_header(fs[i + j].name), #[trigger] ks[j])
            &&& forall|j: int|
                0 < j < ks.len() ==> ks[j - 1] + function_header(fs[i + j - 1].name).len()
                    <= #[trigger] ks[j]
        },
    decreases fs.len() - i,
{
    if i >= fs.len() {
        Seq::empty()
    } else {
        let h = function_header(fs[i].name);
        let out1 = out + h;
        assert(out1 =~= out + fs[i].name + ":\npush %rbp\nmovl %esp, %ebp\n"@);
        lemma_gen_blocks(fs[i].blocks, 0, st, out1, false);
        match gen_blocks_spec(fs[i].blocks, 0, st, out1, false) {
            Ok((ob, st2, has_ret)) => {
                let out2 = if has_ret { ob } else { ob + "movl $0, %eax\nmovl %ebp, %esp\npop %rbp\nret\n"@ };
                assert(extends(out2, out1)) by {
                    assert forall|x: int| 0 <= x < out1.len() implies #[trigger] out2[x] == out1[x] by {
                        assert(ob[x] == out1[x]);
                    }
                }
                let rest = lemma_gen_functions_headers(fs, i + 1, st2, out2);
                lemma_gen_functions(fs, i + 1, st2, out2);
                let ks = seq![out.len() as int] + rest;
                if let Ok((o, _)) = gen_functions_spec(fs, i, st, out) {
                    assert(gen_functions_spec(fs, i, st, out) == gen_functions_spec(fs, i + 1, st2, out2));
                    assert(extends(o, out1)) by {
                        assert forall|x: int| 0 <= x < out1.len() implies #[trigger] o[x] == out1[x] by {
                            assert(o[x] == out2[x]);
                        }
                    }
                    assert(o.subrange(out.len() as int, (out.len() + h.len()) as int) =~= h) by {
                        assert forall|x: int| 0 <= x < h.len() implies #[trigger] o.subrange(
                            out.len() as int,
                            (out.len() + h.len()) as int,
                        )[x] == h[x] by {
                            assert(o[out.len() + x] == out1[out.len() + x]);
                        }
                    }
                    assert forall|j: int| 0 <= j < ks.len() implies out.len() <= #[trigger] ks[j] by {
                        if j > 0 {
                            assert(ks[j] == rest[j - 1]);
                        }
                    }
                    assert forall|j: int| 0 <= j < ks.len() implies occurs_at(
                        o,
                        function_header(fs[i + j].name),
                        #[trigger] ks[j],
                    ) by {
                        if j > 0 {
                            assert(ks[j] == rest[j - 1]);
                            assert(fs[i + j] == fs[(i + 1) + (j - 1)]);
                        }
                    }
                    assert forall|j: int| 0 < j < ks.len() implies ks[j - 1] + function_header(
                        fs[i + j - 1].name,
                    ).len() <= #[trigger] ks[j] by {
                        assert(ks[j] == rest[j - 1]);
                        if j > 1 {
                            assert(ks[j - 1] == rest[j - 2]);
                            assert(fs[i + j - 1] == fs[(i + 1) + (j - 1) - 1]);
                        }
                    }
                }
                ks
            },
            Err(_) => Seq::empty(),
        }
    }
}

/// The code of every function of a program begins with its label and the
/// prologue that sets up its stack frame, and these come in the order of
/// the functions; the first function's header follows the `.globl main`
/// directive directly.
pub proof fn law_generate_function_headers(p: SpecProgram)
    ensures
        generate_spec(p) matches Ok(t) ==> exists|ks: Seq<int>| headers_at(t, p.functions, ks),
        generate_spec(p) matches Ok(t) ==> p.functions.len() > 0 ==> occurs_at(
            t,
            ".globl main\n\n"@ + function_header(p.functions[0].name),
            0,
        ),
{
    let g = ".globl main\n\n"@;
    let ks = lemma_gen_functions_headers(p.functions, 0, initial_stack_info(), g);
    lemma_gen_functions(p.functions, 0, initial_stack_info(), g);
    if let Ok(t) = generate_spec(p) {
        if p.functions.len() > 0 {
            let h = function_header(p.functions[0].name);
            assert(occurs_at(t, h, ks[0]));
            assert(ks[0] == g.len());
            assert(t.subrange(0, (g.len() + h.len()) as int) =~= g + h) by {
                assert forall|x: int| 0 <= x < g.len() + h.len() implies #[trigger] t.subrange(
                    0,
                    (g.len() + h.len()) as int,
                )[x] == (g + h)[x] by {
                    if x >= g.len() {
                        assert(t.subrange(g.len() as int, (g.len() + h.len()) as int)[x - g.len()]
                            == h[x - g.len()]);
                    }
                }
            }
        }
        assert forall|j: int| 0 <= j < ks.len() implies occurs_at(
            t,
            function_header(p.functions[j].name),
            #[trigger] ks[j],
        ) by {
            assert(p.functions[0 + j] == p.functions[j]);
        }
        assert forall|j: int| 0 < j < ks.len() implies ks[j - 1] + function_header(
            p.functions[j - 1].name,
        ).len() <= #[trigger] ks[j] by {
            assert(p.functions[0 + j - 1] == p.functions[j - 1]);
        }
        assert(headers_at(t, p.functions, ks));
    }
}

proof fn lemma_extends_trans(a: Seq<char>, b: Seq<char>, c: Seq<char>)
    requires
        extends(b, a),
        extends(c, b),
    ensures
        extends(c, a),
{
    assert forall|i: int| 0 <= i < a.len() implies #[trigger] c[i] == a[i] by {
        assert(c[i] == b[i]);
    }
}

proof fn lemma_extends_append(a: Seq<char>, b: Seq<char>)
    ensures
        extends(a + b, a),
{
    assert forall|i: int| 0 <= i < a.len() implies #[trigger] (a + b)[i] == a[i] by {}
}

/// Whether `o` ends with `w`.
pub open spec fn ends_with(o: Seq<char>, w: Seq<char>) -> bool {
    w.len() <= o.len() && o.subrange(o.len() - w.len(), o.len() as int) == w
}

proof fn lemma_ends_with_append(a: Seq<char>, w: Seq<char>)
    ensures
        ends_with(a + w, w),
{
    assert((a + w).subrange(a.len() as int, (a + w).len() as int) =~= w);
}

proof fn lemma_occurs_in_prefix(o: Seq<char>, b: Seq<char>, w: Seq<char>)
    requires
        extends(o, b + w),
    ensures
        occurs_at(o, w, b.len() as int),
{
    assert(o.subrange(b.len() as int, (b.len() + w.len()) as int) =~= w) by {
        assert forall|x: int| 0 <= x < w.len() implies #[trigger] o.subrange(
            b.len() as int,
            (b.len() + w.len()) as int,
        )[x] == w[x] by {
            assert(o[b.len() + x] == (b + w)[b.len() + x]);
        }
    }
}

/// The test of a condition: its value compared with zero, then a jump to
/// `_e<n>` where it is zero.
pub open spec fn jump_if_zero(n: nat) -> Seq<char> {
    "cmpl $0, %eax\nje _e"@ + nat_decimal(n) + "\n"@
}

/// The end of the branch taken when a condition is not zero: a jump over
/// the other branch, then the label `_e<n>` where the other branch begins.
pub open spec fn skip_other_branch(n: nat) -> Seq<char> {
    "jmp _post_cond"@ + nat_decimal(n) + "\n_e"@ + nat_decimal(n) + ":\n"@
}

/// The text that closes a two-branch construct: the label `_post_cond<n>`.
pub open spec fn close_branches(n: nat) -> Seq<char> {
    "_post_cond"@ + nat_decimal(n) + ":\n"@
}

proof fn lemma_jump_text(o1: Seq<char>, n: nat)
    ensures
        o1 + "cmpl $0, %eax\nje _e"@ + nat_decimal(n) + "\n"@ == o1 + jump_if_zero(n),
{
    assert(o1 + "cmpl $0, %eax\nje _e"@ + nat_decimal(n) + "\n"@ =~= o1 + jump_if_zero(n));
}

proof fn lemma_skip_text(o2: Seq<char>, n: nat)
    ensures
        o2 + "jmp _post_cond"@ + nat_decimal(n) + "\n_e"@ + nat_decimal(n) + ":\n"@ == o2
            + skip_other_branch(n),
{
    assert(o2 + "jmp _post_cond"@ + nat_decimal(n) + "\n_e"@ + nat_decimal(n) + ":\n"@ =~= o2
        + skip_other_branch(n));
}

proof fn lemma_close_text(o3: Seq<char>, n: nat)
    ensures
        o3 + "_post_cond"@ + nat_decimal(n) + ":\n"@ == o3 + close_branches(n),
{
    assert(o3 + "_post_cond"@ + nat_decimal(n) + ":\n"@ =~= o3 + close_branches(n));
}

proof fn lemma_branches_text(o1: Seq<char>, n: nat, o2: Seq<char>, o3: Seq<char>)
    requires
        extends(o2, o1 + jump_if_zero(n)),
        extends(o3, o2 + skip_other_branch(n)),
    ensures
        extends(o3 + close_branches(n), o1 + jump_if_zero(n)),
        occurs_at(o3 + close_branches(n), skip_other_branch(n), o2.len() as int),
        (o1 + jump_if_zero(n)).len() <= o2.len(),
        ends_with(o3 + close_branches(n), close_branches(n)),
{
    let j = skip_other_branch(n);
    let l = close_branches(n);
    lemma_extends_append(o3, l);
    lemma_extends_trans(o2 + j, o3, o3 + l);
    lemma_extends_append(o2, j);
    lemma_extends_trans(o2, o2 + j, o3 + l);
    lemma_extends_trans(o1 + jump_if_zero(n), o2, o3 + l);
    lemma_occurs_in_prefix(o3 + l, o2, j);
    lemma_ends_with_append(o3, l);
}

/// The code of an `if` statement without `else` computes its condition,
/// compares it with zero and, where it is zero, jumps over the then branch to
/// the label `_e<n>` that closes the statement, `n` being the label number
/// that the statement takes.
pub proof fn law_if_skips_then_when_zero(
    e: SpecExpr,
    t: SpecStatement,
    vars: Map<Seq<char>, i32>,
    counter: int,
    out: Seq<char>,
)
    ensures
        gen_statement_spec(SpecStatement::If(e, Box::new(t)), vars, counter, out) matches Ok((o, _))
            ==> gen_expr_spec(e, vars, counter, out) matches Ok((o1, c1)) && extends(
            o,
            o1 + jump_if_zero(c1 as nat),
        ) && ends_with(o, "_e"@ + nat_decimal(c1 as nat) + ":\n"@),
{
    if let Ok((o1, c1)) = gen_expr_spec(e, vars, counter, out) {
        if c1 < u32::MAX {
            let n = nat_decimal(c1 as nat);
            let out2 = o1 + "cmpl $0, %eax\nje _e"@ + n + "\n"@;
            lemma_jump_text(o1, c1 as nat);
            law_gen_statement_appends(t, vars, c1 + 1, out2);
            if let Ok((o2, c2)) = gen_statement_spec(t, vars, c1 + 1, out2) {
                let l = "_e"@ + n + ":\n"@;
                assert(o2 + "_e"@ + n + ":\n"@ =~= o2 + l);
                lemma_extends_append(o2, l);
                lemma_extends_trans(out2, o2, o2 + l);
                lemma_ends_with_append(o2, l);
            }
        }
    }
}

/// The code of an `if` statement with `else` computes its condition,
/// compares it with zero and, where it is zero, jumps over the then branch to
/// the label `_e<n>` that begins the else branch; the then branch ends with a
/// jump over the else branch, and the statement closes with `_post_cond<n>`.
pub proof fn law_if_else_takes_else_when_zero(
    e: SpecExpr,
    t: SpecStatement,
    f: SpecStatement,
    vars: Map<Seq<char>, i32>,
    counter: int,
    out: Seq<char>,
)
    ensures
        gen_statement_spec(SpecStatement::IfElse(e, Box::new(t), Box::new(f)), vars, counter, out) matches Ok(
            (o, _),
        ) ==> gen_expr_spec(e, vars, counter, out) matches Ok((o1, c1)) && extends(
            o,
            o1 + jump_if_zero(c1 as nat),
        ) && (exists|k: int|
            (o1 + jump_if_zero(c1 as nat)).len() <= k && #[trigger] occurs_at(o, skip_other_branch(c1 as nat), k))
            && ends_with(o, close_branches(c1 as nat)),
{
    let s = SpecStatement::IfElse(e, Box::new(t), Box::new(f));
    if let Ok((o, _)) = gen_statement_spec(s, vars, counter, out) {
        let (o1, c1) = gen_expr_spec(e, vars, counter, out)->Ok_0;
        assert(gen_expr_spec(e, vars, counter, out) == Ok::<(Seq<char>, int), SpecGenError>((o1, c1)));
        let n = nat_decimal(c1 as nat);
        let out2 = o1 + "cmpl $0, %eax
je _e"@ + n + "
"@;
        lemma_jump_text(o1, c1 as nat);
        law_gen_statement_appends(t, vars, c1 + 1, out2);
        let (o2, c2) = gen_statement_spec(t, vars, c1 + 1, out2)->Ok_0;
        assert(gen_statement_spec(t, vars, c1 + 1, out2) == Ok::<(Seq<char>, int), SpecGenError>((o2, c2)));
        let out3 = o2 + "jmp _post_cond"@ + n + "
_e"@ + n + ":
"@;
        lemma_skip_text(o2, c1 as nat);
        law_gen_statement_appends(f, vars, c2, out3);
        let (o3, c3) = gen_statement_spec(f, vars, c2, out3)->Ok_0;
        assert(gen_statement_spec(f, vars, c2, out3) == Ok::<(Seq<char>, int), SpecGenError>((o3, c3)));
        lemma_close_text(o3, c1 as nat);
        lemma_branches_text(o1, c1 as nat, o2, o3);
    }
}

/// The code of a conditional expression `c ? a : b` computes `c`, compares
/// it with zero and, where it is zero, jumps over the code of `a` to the
/// label `_e<n>` that begins the code of `b`; the code of `a` ends with a
/// jump over that of `b`, and the expression closes with `_post_cond<n>`.
pub proof fn law_conditional_takes_second_when_zero(
    x: SpecExpr,
    a: SpecExpr,
    b: SpecExpr,
    vars: Map<Seq<char>, i32>,
    counter: int,
    out: Seq<char>,
)
    ensures
        gen_conditional_spec(SpecExpr::Ternary(Box::new(x), Box::new(a), Box::new(b)), vars, counter, out) matches Ok(
            (o, _),
        ) ==> gen_log_or_expr_spec(x, vars, counter, out) matches Ok((o1, c1)) && extends(
            o,
            o1 + jump_if_zero(c1 as nat),
        ) && (exists|k: int|
            (o1 + jump_if_zero(c1 as nat)).len() <= k && #[trigger] occurs_at(o, skip_other_branch(c1 as nat), k))
            && ends_with(o, close_branches(c1 as nat)),
{
    let s = SpecExpr::Ternary(Box::new(x), Box::new(a), Box::new(b));
    if let Ok((o, _)) = gen_conditional_spec(s, vars, counter, out) {
        let (o1, c1) = gen_log_or_expr_spec(x, vars, counter, out)->Ok_0;
        assert(gen_log_or_expr_spec(x, vars, counter, out) == Ok::<(Seq<char>, int), SpecGenError>((o1, c1)));
        let n = nat_decimal(c1 as nat);
        let out2 = o1 + "cmpl $0, %eax
je _e"@ + n + "
"@;
        lemma_jump_text(o1, c1 as nat);
        lemma_gen_expr(a, vars, c1 + 1, out2);
        let (o2, c2) = gen_expr_spec(a, vars, c1 + 1, out2)->Ok_0;
        assert(gen_expr_spec(a, vars, c1 + 1, out2) == Ok::<(Seq<char>, int), SpecGenError>((o2, c2)));
        let out3 = o2 + "jmp _post_cond"@ + n + "
_e"@ + n + ":
"@;
        lemma_skip_text(o2, c1 as nat);
        lemma_gen_conditional(b, vars, c2, out3);
        let (o3, c3) = gen_conditional_spec(b, vars, c2, out3)->Ok_0;
        assert(gen_conditional_spec(b, vars, c2, out3) == Ok::<(Seq<char>, int), SpecGenError>((o3, c3)));
        lemma_close_text(o3, c1 as nat);
        lemma_branches_text(o1, c1 as nat, o2, o3);
    }
}

/// The instructions that combine two values for each binary arithmetic,
/// shift, comparison and bitwise operator: the left value was pushed on the
/// stack, the right one is in `%eax`, and afterwards `%eax` holds
/// `left op right` (a comparison gives 1 or 0).
pub open spec fn combine_instructions(op: TokenType) -> Option<Seq<char>> {
    if op == TokenType::Multiplication {
        Some("pop %rcx\nimul %ecx, %eax\n"@)
    } else if op == TokenType::Division {
        Some("movl %eax, %ecx\npop %rax\ncdq\nidivl %ecx\n"@)
    } else if op == TokenType::Addition {
        Some("pop %rcx\naddl %ecx, %eax\n"@)
    } else if op == TokenType::Minus {
        Some("movl %eax, %ecx\npop %rax\nsubl %ecx, %eax\n"@)
    } else if op == TokenType::LBitShift {
        Some("movl %eax, %ecx\npop %rax\nsal %cl, %eax\n"@)
    } else if op == TokenType::RBitShift {
        Some("movl %eax, %ecx\npop %rax\nsar %cl, %eax\n"@)
    } else if op == TokenType::LessThan {
        Some("pop %rcx\ncmpl %eax, %ecx\nmovl $0, %eax\nsetl %al\n"@)
    } else if op == TokenType::LessThanEqual {
        Some("pop %rcx\ncmpl %eax, %ecx\nmovl $0, %eax\nsetle %al\n"@)
    } else if op == TokenType::GreaterThan {
        Some("pop %rcx\ncmpl %eax, %ecx\nmovl $0, %eax\nsetg %al\n"@)
    } else if op == TokenType::GreaterThanEqual {
        Some("pop %rcx\ncmpl %eax, %ecx\nmovl $0, %eax\nsetge %al\n"@)
    } else if op == TokenType::Equal {
        Some("pop %rcx\ncmpl %eax, %ecx\nmovl $0, %eax\nsete %al\n"@)
    } else if op == TokenType::NotEqual {
        Some("pop %rcx\ncmpl %eax, %ecx\nmovl $0, %eax\nsetne %al\n"@)
    } else if op == TokenType::BitAnd {
        Some("pop %rcx\nand %ecx, %eax\n"@)
    } else if op == TokenType::BitXOr {
        Some("pop %rcx\nxor %ecx, %eax\n"@)
    } else if op == TokenType::BitOr {
        Some("pop %rcx\nor %ecx, %eax\n"@)
    } else {
        None
    }
}

/// The instructions of each unary operator on the value in `%eax`:
/// negation, bitwise complement, and logical negation (1 where the value is
/// zero, else 0).
pub open spec fn unary_instructions(op: TokenType) -> Option<Seq<char>> {
    if op == TokenType::Minus {
        Some("neg %eax\n"@)
    } else if op == TokenType::BitComplement {
        Some("not %eax\n"@)
    } else if op == TokenType::LogicalNeg {
        Some("cmpl $0, %eax\nmovl $0, %eax\nsete %al\n"@)
    } else {
        None
    }
}

proof fn lemma_assoc(a: Seq<char>, b: Seq<char>, c: Seq<char>)
    ensures
        a + b + c == a + (b + c),
{
    assert(a + b + c =~= a + (b + c));
}

/// The code of a unary operator applied to a factor is the factor's code
/// followed by the operator's instructions from the table.
pub proof fn law_unary_operator_code(op: TokenType, x: SpecExpr, vars: Map<Seq<char>, i32>, counter: int, out: Seq<char>)
    ensures
        gen_factor_spec(SpecExpr::Unary(op, Box::new(x)), vars, counter, out) matches Ok((o, _))
            ==> gen_factor_spec(x, vars, counter, out) matches Ok((o1, _)) && unary_instructions(op)
            matches Some(ins) && o == o1 + ins,
{
}

/// In the code of a multiplicative expression, each further operand is preceded by
/// `push %rax`, which saves the value so far, and followed by the
/// instructions that the table gives for its operator.
pub proof fn law_term_operator_code(
    rest: Seq<(TokenType, SpecExpr)>,
    i: int,
    vars: Map<Seq<char>, i32>,
    counter: int,
    out: Seq<char>,
)
    requires
        0 <= i < rest.len(),
    ensures
        gen_term_rest(rest, i, vars, counter, out) matches Ok((o, _)) ==> gen_factor_spec(
            rest[i].1,
            vars,
            counter,
            out + "push %rax\n"@,
        ) matches Ok((o1, _)) && combine_instructions(rest[i].0) matches Some(ins) && extends(
            o,
            o1 + ins,
        ),
{
    if let Ok((o1, c1)) = gen_factor_spec(rest[i].1, vars, counter, out + "push %rax\n"@) {
        if rest[i].0 == TokenType::Multiplication {
            lemma_gen_term_rest(rest, i + 1, vars, c1, o1 + "pop %rcx\nimul %ecx, %eax\n"@);
            
        } else if rest[i].0 == TokenType::Division {
            lemma_gen_term_rest(rest, i + 1, vars, c1, o1 + "movl %eax, %ecx\npop %rax\ncdq\nidivl %ecx\n"@);
            
        }
    }
}

/// In the code of a additive expression, each further operand is preceded by
/// `push %rax`, which saves the value so far, and followed by the
/// instructions that the table gives for its operator.
pub proof fn law_add_expr_operator_code(
    rest: Seq<(TokenType, SpecExpr)>,
    i: int,
    vars: Map<Seq<char>, i32>,
    counter: int,
    out: Seq<char>,
)
    requires
        0 <= i < rest.len(),
    ensures
        gen_add_expr_rest(rest, i, vars, counter, out) matches Ok((o, _)) ==> gen_term_spec(
            rest[i].1,
            vars,
            counter,
            out + "push %rax\n"@,
        ) matches Ok((o1, _)) && combine_instructions(rest[i].0) matches Some(ins) && extends(
            o,
            o1 + ins,
        ),
{
    if let Ok((o1, c1)) = gen_term_spec(rest[i].1, vars, counter, out + "push %rax\n"@) {
        if rest[i].0 == TokenType::Addition {
            lemma_gen_add_expr_rest(rest, i + 1, vars, c1, o1 + "pop %rcx\naddl %ecx, %eax\n"@);
            
        } else if rest[i].0 == TokenType::Minus {
            lemma_gen_add_expr_rest(rest, i + 1, vars, c1, o1 + "movl %eax, %ecx\npop %rax\nsubl %ecx, %eax\n"@);
            
        }
    }
}

/// In the code of a shift expression, each further operand is preceded by
/// `push %rax`, which saves the value so far, and followed by the
/// instructions that the table gives for its operator.
pub proof fn law_shift_expr_operator_code(
    rest: Seq<(TokenType, SpecExpr)>,
    i: int,
    vars: Map<Seq<char>, i32>,
    counter: int,
    out: Seq<char>,
)
    requires
        0 <= i < rest.len(),
    ensures
        gen_shift_expr_rest(rest, i, vars, counter, out) matches Ok((o, _)) ==> gen_add_expr_spec(
            rest[i].1,
            vars,
            counter,
            out + "push %rax\n"@,
        ) matches Ok((o1, _)) && combine_instructions(rest[i].0) matches Some(ins) && extends(
            o,
            o1 + ins,
        ),
{
    if let Ok((o1, c1)) = gen_add_expr_spec(rest[i].1, vars, counter, out + "push %rax\n"@) {
        if rest[i].0 == TokenType::LBitShift {
            lemma_gen_shift_expr_rest(rest, i + 1, vars, c1, o1 + "movl %eax, %ecx\npop %rax\n"@ + "sal %cl, %eax\n"@);
            lemma_assoc(o1, "movl %eax, %ecx\npop %rax\n"@, "sal %cl, %eax\n"@);
            lemma_combine_text_LBitShift();
        } else if rest[i].0 == TokenType::RBitShift {
            lemma_gen_shift_expr_rest(rest, i + 1, vars, c1, o1 + "movl %eax, %ecx\npop %rax\n"@ + "sar %cl, %eax\n"@);
            lemma_assoc(o1, "movl %eax, %ecx\npop %rax\n"@, "sar %cl, %eax\n"@);
            lemma_combine_text_RBitShift();
        }
    }
}

/// In the code of a relational expression, each further operand is preceded by
/// `push %rax`, which saves the value so far, and followed by the
/// instructions that the table gives for its operator.
pub proof fn law_rel_expr_operator_code(
    rest: Seq<(TokenType, SpecExpr)>,
    i: int,
    vars: Map<Seq<char>, i32>,
    counter: int,
    out: Seq<char>,
)
    requires
        0 <= i < rest.len(),
    ensures
        gen_rel_expr_rest(rest, i, vars, counter, out) matches Ok((o, _)) ==> gen_shift_expr_spec(
            rest[i].1,
            vars,
            counter,
            out + "push %rax\n"@,
        ) matches Ok((o1, _)) && combine_instructions(rest[i].0) matches Some(ins) && extends(
            o,
            o1 + ins,
        ),
{
    if let Ok((o1, c1)) = gen_shift_expr_spec(rest[i].1, vars, counter, out + "push %rax\n"@) {
        if rest[i].0 == TokenType::LessThan {
            lemma_gen_rel_expr_rest(rest, i + 1, vars, c1, o1 + "pop %rcx\ncmpl %eax, %ecx\nmovl $0, %eax\n"@ + "setl %al\n"@);
            lemma_assoc(o1, "pop %rcx\ncmpl %eax, %ecx\nmovl $0, %eax\n"@, "setl %al\n"@);
            lemma_combine_text_LessThan();
        } else if rest[i].0 == TokenType::LessThanEqual {
            lemma_gen_rel_expr_rest(rest, i + 1, vars, c1, o1 + "pop %rcx\ncmpl %eax, %ecx\nmovl $0, %eax\n"@ + "setle %al\n"@);
            lemma_assoc(o1, "pop %rcx\ncmpl %eax, %ecx\nmovl $0, %eax\n"@, "setle %al\n"@);
            lemma_combine_text_LessThanEqual();
        } else if rest[i].0 == TokenType::GreaterThan {
            lemma_gen_rel_expr_rest(rest, i + 1, vars, c1, o1 + "pop %rcx\ncmpl %eax, %ecx\nmovl $0, %eax\n"@ + "setg %al\n"@);
            lemma_assoc(o1, "pop %rcx\ncmpl %eax, %ecx\nmovl $0, %eax\n"@, "setg %al\n"@);
            lemma_combine_text_GreaterThan();
        } else if rest[i].0 == TokenType::GreaterThanEqual {
            lemma_gen_rel_expr_rest(rest, i + 1, vars, c1, o1 + "pop %rcx\ncmpl %eax, %ecx\nmovl $0, %eax\n"@ + "setge %al\n"@);
            lemma_assoc(o1, "pop %rcx\ncmpl %eax, %ecx\nmovl $0, %eax\n"@, "setge %al\n"@);
            lemma_combine_text_GreaterThanEqual();
        }
    }
}

/// In the code of a equality expression, each further operand is preceded by
/// `push %rax`, which saves the value so far, and followed by the
/// instructions that the table gives for its operator.
pub proof fn law_eq_expr_operator_code(
    rest: Seq<(TokenType, SpecExpr)>,
    i: int,
    vars: Map<Seq<char>, i32>,
    counter: int,
    out: Seq<char>,
)
    requires
        0 <= i < rest.len(),
    ensures
        gen_eq_expr_rest(rest, i, vars, counter, out) matches Ok((o, _)) ==> gen_rel_expr_spec(
            rest[i].1,
            vars,
            counter,
            out + "push %rax\n"@,
        ) matches Ok((o1, _)) && combine_instructions(rest[i].0) matches Some(ins) && extends(
            o,
            o1 + ins,
        ),
{
    if let Ok((o1, c1)) = gen_rel_expr_spec(rest[i].1, vars, counter, out + "push %rax\n"@) {
        if rest[i].0 == TokenType::Equal {
            lemma_gen_eq_expr_rest(rest, i + 1, vars, c1, o1 + "pop %rcx\ncmpl %eax, %ecx\nmovl $0, %eax\n"@ + "sete %al\n"@);
            lemma_assoc(o1, "pop %rcx\ncmpl %eax, %ecx\nmovl $0, %eax\n"@, "sete %al\n"@);
            lemma_combine_text_Equal();
        } else if rest[i].0 == TokenType::NotEqual {
            lemma_gen_eq_expr_rest(rest, i + 1, vars, c1, o1 + "pop %rcx\ncmpl %eax, %ecx\nmovl $0, %eax\n"@ + "setne %al\n"@);
            lemma_assoc(o1, "pop %rcx\ncmpl %eax, %ecx\nmovl $0, %eax\n"@, "setne %al\n"@);
            lemma_combine_text_NotEqual();
        }
    }
}

/// In the code of a bitwise and expression, each further operand is preceded by
/// `push %rax`, which saves the value so far, and followed by the
/// instructions that the table gives for its operator.
pub proof fn law_bit_and_expr_operator_code(
    rest: Seq<(TokenType, SpecExpr)>,
    i: int,
    vars: Map<Seq<char>, i32>,
    counter: int,
    out: Seq<char>,
)
    requires
        0 <= i < rest.len(),
    ensures
        gen_bit_and_expr_rest(rest, i, vars, counter, out) matches Ok((o, _)) ==> gen_eq_expr_spec(
            rest[i].1,
            vars,
            counter,
            out + "push %rax\n"@,
        ) matches Ok((o1, _)) && combine_instructions(TokenType::BitAnd) matches Some(ins) && extends(
            o,
            o1 + ins,
        ),
{
    if let Ok((o1, c1)) = gen_eq_expr_spec(rest[i].1, vars, counter, out + "push %rax\n"@) {
        lemma_gen_bit_and_expr_rest(rest, i + 1, vars, c1, o1 + "pop %rcx\nand %ecx, %eax\n"@);
    }
}

/// In the code of a bitwise exclusive or expression, each further operand is preceded by
/// `push %rax`, which saves the value so far, and followed by the
/// instructions that the table gives for its operator.
pub proof fn law_bit_xor_expr_operator_code(
    rest: Seq<(TokenType, SpecExpr)>,
    i: int,
    vars: Map<Seq<char>, i32>,
    counter: int,
    out: Seq<char>,
)
    requires
        0 <= i < rest.len(),
    ensures
        gen_bit_xor_expr_rest(rest, i, vars, counter, out) matches Ok((o, _)) ==> gen_bit_and_expr_spec(
            rest[i].1,
            vars,
            counter,
            out + "push %rax\n"@,
        ) matches Ok((o1, _)) && combine_instructions(TokenType::BitXOr) matches Some(ins) && extends(
            o,
            o1 + ins,
        ),
{
    if let Ok((o1, c1)) = gen_bit_and_expr_spec(rest[i].1, vars, counter, out + "push %rax\n"@) {
        lemma_gen_bit_xor_expr_rest(rest, i + 1, vars, c1, o1 + "pop %rcx\nxor %ecx, %eax\n"@);
    }
}

/// In the code of a bitwise or expression, each further operand is preceded by
/// `push %rax`, which saves the value so far, and followed by the
/// instructions that the table gives for its operator.
pub proof fn law_bit_or_expr_operator_code(
    rest: Seq<(TokenType, SpecExpr)>,
    i: int,
    vars: Map<Seq<char>, i32>,
    counter: int,
    out: Seq<char>,
)
    requires
        0 <= i < rest.len(),
    ensures
        gen_bit_or_expr_rest(rest, i, vars, counter, out) matches Ok((o, _)) ==> gen_bit_xor_expr_spec(
            rest[i].1,
            vars,
            counter,
            out + "push %rax\n"@,
        ) matches Ok((o1, _)) && combine_instructions(TokenType::BitOr) matches Some(ins) && extends(
            o,
            o1 + ins,
        ),
{
    if let Ok((o1, c1)) = gen_bit_xor_expr_spec(rest[i].1, vars, counter, out + "push %rax\n"@) {
        lemma_gen_bit_or_expr_rest(rest, i + 1, vars, c1, o1 + "pop %rcx\nor %ecx, %eax\n"@);
    }
}

proof fn lemma_combine_text_LBitShift()
    ensures
        "movl %eax, %ecx\npop %rax\n"@ + "sal %cl, %eax\n"@ == "movl %eax, %ecx\npop %rax\nsal %cl, %eax\n"@,
{
    reveal_strlit("movl %eax, %ecx\npop %rax\n");
    reveal_strlit("sal %cl, %eax\n");
    reveal_strlit("movl %eax, %ecx\npop %rax\nsal %cl, %eax\n");
    assert("movl %eax, %ecx\npop %rax\n"@ + "sal %cl, %eax\n"@ =~= "movl %eax, %ecx\npop %rax\nsal %cl, %eax\n"@);
}

proof fn lemma_combine_text_RBitShift()
    ensures
        "movl %eax, %ecx\npop %rax\n"@ + "sar %cl, %eax\n"@ == "movl %eax, %ecx\npop %rax\nsar %cl, %eax\n"@,
{
    reveal_strlit("movl %eax, %ecx\npop %rax\n");
    reveal_strlit("sar %cl, %eax\n");
    reveal_strlit("movl %eax, %ecx\npop %rax\nsar %cl, %eax\n");
    assert("movl %eax, %ecx\npop %rax\n"@ + "sar %cl, %eax\n"@ =~= "movl %eax, %ecx\npop %rax\nsar %cl, %eax\n"@);
}

proof fn lemma_combine_text_LessThan()
    ensures
        "pop %rcx\ncmpl %eax, %ecx\nmovl $0, %eax\n"@ + "setl %al\n"@ == "pop %rcx\ncmpl %eax, %ecx\nmovl $0, %eax\nsetl %al\n"@,
{
    reveal_strlit("pop %rcx\ncmpl %eax, %ecx\nmovl $0, %eax\n");
    reveal_strlit("setl %al\n");
    reveal_strlit("pop %rcx\ncmpl %eax, %ecx\nmovl $0, %eax\nsetl %al\n");
    assert("pop %rcx\ncmpl %eax, %ecx\nmovl $0, %eax\n"@ + "setl %al\n"@ =~= "pop %rcx\ncmpl %eax, %ecx\nmovl $0, %eax\nsetl %al\n"@);
}

proof fn lemma_combine_text_LessThanEqual()
    ensures
        "pop %rcx\ncmpl %eax, %ecx\nmovl $0, %eax\n"@ + "setle %al\n"@ == "pop %rcx\ncmpl %eax, %ecx\nmovl $0, %eax\nsetle %al\n"@,
{
    reveal_strlit("pop %rcx\ncmpl %eax, %ecx\nmovl $0, %eax\n");
    reveal_strlit("setle %al\n");
    reveal_strlit("pop %rcx\ncmpl %eax, %ecx\nmovl $0, %eax\nsetle %al\n");
    assert("pop %rcx\ncmpl %eax, %ecx\nmovl $0, %eax\n"@ + "setle %al\n"@ =~= "pop %rcx\ncmpl %eax, %ecx\nmovl $0, %eax\nsetle %al\n"@);
}

proof fn lemma_combine_text_GreaterThan()
    ensures
        "pop %rcx\ncmpl %eax, %ecx\nmovl $0, %eax\n"@ + "setg %al\n"@ == "pop %rcx\ncmpl %eax, %ecx\nmovl $0, %eax\nsetg %al\n"@,
{
    reveal_strlit("pop %rcx\ncmpl %eax, %ecx\nmovl $0, %eax\n");
    reveal_strlit("setg %al\n");
    reveal_strlit("pop %rcx\ncmpl %eax, %ecx\nmovl $0, %eax\nsetg %al\n");
    assert("pop %rcx\ncmpl %eax, %ecx\nmovl $0, %eax\n"@ + "setg %al\n"@ =~= "pop %rcx\ncmpl %eax, %ecx\nmovl $0, %eax\nsetg %al\n"@);
}

proof fn lemma_combine_text_GreaterThanEqual()
    ensures
        "pop %rcx\ncmpl %eax, %ecx\nmovl $0, %eax\n"@ + "setge %al\n"@ == "pop %rcx\ncmpl %eax, %ecx\nmovl $0, %eax\nsetge %al\n"@,
{
    reveal_strlit("pop %rcx\ncmpl %eax, %ecx\nmovl $0, %eax\n");
    reveal_strlit("setge %al\n");
    reveal_strlit("pop %rcx\ncmpl %eax, %ecx\nmovl $0, %eax\nsetge %al\n");
    assert("pop %rcx\ncmpl %eax, %ecx\nmovl $0, %eax\n"@ + "setge %al\n"@ =~= "pop %rcx\ncmpl %eax, %ecx\nmovl $0, %eax\nsetge %al\n"@);
}

proof fn lemma_combine_text_Equal()
    ensures
        "pop %rcx\ncmpl %eax, %ecx\nmovl $0, %eax\n"@ + "sete %al\n"@ == "pop %rcx\ncmpl %eax, %ecx\nmovl $0, %eax\nsete %al\n"@,
{
    reveal_strlit("pop %rcx\ncmpl %eax, %ecx\nmovl $0, %eax\n");
    reveal_strlit("sete %al\n");
    reveal_strlit("pop %rcx\ncmpl %eax, %ecx\nmovl $0, %eax\nsete %al\n");
    assert("pop %rcx\ncmpl %eax, %ecx\nmovl $0, %eax\n"@ + "sete %al\n"@ =~= "pop %rcx\ncmpl %eax, %ecx\nmovl $0, %eax\nsete %al\n"@);
}

proof fn lemma_combine_text_NotEqual()
    ensures
        "pop %rcx\ncmpl %eax, %ecx\nmovl $0, %eax\n"@ + "setne %al\n"@ == "pop %rcx\ncmpl %eax, %ecx\nmovl $0, %eax\nsetne %al\n"@,
{
    reveal_strlit("pop %rcx\ncmpl %eax, %ecx\nmovl $0, %eax\n");
    reveal_strlit("setne %al\n");
    reveal_strlit("pop %rcx\ncmpl %eax, %ecx\nmovl $0, %eax\nsetne %al\n");
    assert("pop %rcx\ncmpl %eax, %ecx\nmovl $0, %eax\n"@ + "setne %al\n"@ =~= "pop %rcx\ncmpl %eax, %ecx\nmovl $0, %eax\nsetne %al\n"@);
}

/// The test before the right operand of `&&`: where the left value is zero
/// the result is that zero, so control jumps to `_end<n>`; else it goes on to
/// the right operand at `_clause<n>`.
pub open spec fn and_test(n: nat) -> Seq<char> {
    "cmpl $0, %eax\njne _clause"@ + nat_decimal(n) + "\njmp _end"@ + nat_decimal(n) + "\n_clause"@ + nat_decimal(n) + ":\n"@
}

/// The test before the right operand of `||`: where the left value is not
/// zero the result is 1 and control jumps to `_end<n>`; else it goes on to
/// the right operand at `_clause<n>`.
pub open spec fn or_test(n: nat) -> Seq<char> {
    "cmpl $0, %eax\nje _clause"@ + nat_decimal(n) + "\nmovl $1, %eax\njmp _end"@ + nat_decimal(n) + "\n_clause"@ + nat_decimal(n) + ":\n"@
}

/// What follows the right operand of `&&` or `||`: its value made 1 or 0,
/// then the label `_end<n>`.
pub open spec fn logic_end(n: nat) -> Seq<char> {
    "cmpl $0, %eax\nmovl $0, %eax\nsetne %al\n_end"@ + nat_decimal(n) + ":\n"@
}

proof fn lemma_and_test_text(out: Seq<char>, n: nat)
    ensures
        out + "cmpl $0, %eax\njne _clause"@ + nat_decimal(n) + "\njmp _end"@ + nat_decimal(n) + "\n_clause"@ + nat_decimal(n) + ":\n"@ == out + and_test(n),
{
    assert(out + "cmpl $0, %eax\njne _clause"@ + nat_decimal(n) + "\njmp _end"@ + nat_decimal(n) + "\n_clause"@ + nat_decimal(n) + ":\n"@ =~= out + and_test(n));
}

proof fn lemma_logic_end_text_and_test(out: Seq<char>, n: nat)
    ensures
        out + "cmpl $0, %eax\nmovl $0, %eax\nsetne %al\n_end"@ + nat_decimal(n) + ":\n"@ == out + logic_end(n),
{
    assert(out + "cmpl $0, %eax\nmovl $0, %eax\nsetne %al\n_end"@ + nat_decimal(n) + ":\n"@ =~= out + logic_end(n));
}

/// The code of each further operand of `&&` evaluates it only after the
/// short-circuit test, which takes the label number `n` (the counter), and
/// ends by making its value 1 or 0 and defining `_end<n>`.
pub proof fn law_log_and_expr_short_circuit(
    rest: Seq<(TokenType, SpecExpr)>,
    i: int,
    vars: Map<Seq<char>, i32>,
    counter: int,
    out: Seq<char>,
)
    requires
        0 <= i < rest.len(),
        counter >= 0,
    ensures
        gen_log_and_expr_rest(rest, i, vars, counter, out) matches Ok((o, _)) ==> gen_bit_or_expr_spec(
            rest[i].1,
            vars,
            counter + 1,
            out + and_test(counter as nat),
        ) matches Ok((o1, _)) && extends(o, o1 + logic_end(counter as nat)),
{
    lemma_and_test_text(out, counter as nat);
    if let Ok((o1, c1)) = gen_bit_or_expr_spec(rest[i].1, vars, counter + 1, out + and_test(counter as nat)) {
        lemma_logic_end_text_and_test(o1, counter as nat);
        lemma_gen_log_and_expr_rest(rest, i + 1, vars, c1, o1 + logic_end(counter as nat));
    }
}

proof fn lemma_or_test_text(out: Seq<char>, n: nat)
    ensures
        out + "cmpl $0, %eax\nje _clause"@ + nat_decimal(n) + "\nmovl $1, %eax\njmp _end"@ + nat_decimal(n) + "\n_clause"@ + nat_decimal(n) + ":\n"@ == out + or_test(n),
{
    assert(out + "cmpl $0, %eax\nje _clause"@ + nat_decimal(n) + "\nmovl $1, %eax\njmp _end"@ + nat_decimal(n) + "\n_clause"@ + nat_decimal(n) + ":\n"@ =~= out + or_test(n));
}

proof fn lemma_logic_end_text_or_test(out: Seq<char>, n: nat)
    ensures
        out + "cmpl $0, %eax\nmovl $0, %eax\nsetne %al\n_end"@ + nat_decimal(n) + ":\n"@ == out + logic_end(n),
{
    assert(out + "cmpl $0, %eax\nmovl $0, %eax\nsetne %al\n_end"@ + nat_decimal(n) + ":\n"@ =~= out + logic_end(n));
}

/// The code of each further operand of `||` evaluates it only after the
/// short-circuit test, which takes the label number `n` (the counter), and
/// ends by making its value 1 or 0 and defining `_end<n>`.
pub proof fn law_log_or_expr_short_circuit(
    rest: Seq<(TokenType, SpecExpr)>,
    i: int,
    vars: Map<Seq<char>, i32>,
    counter: int,
    out: Seq<char>,
)
    requires
        0 <= i < rest.len(),
        counter >= 0,
    ensures
        gen_log_or_expr_rest(rest, i, vars, counter, out) matches Ok((o, _)) ==> gen_log_and_expr_spec(
            rest[i].1,
            vars,
            counter + 1,
            out + or_test(counter as nat),
        ) matches Ok((o1, _)) && extends(o, o1 + logic_end(counter as nat)),
{
    lemma_or_test_text(out, counter as nat);
    if let Ok((o1, c1)) = gen_log_and_expr_spec(rest[i].1, vars, counter + 1, out + or_test(counter as nat)) {
        lemma_logic_end_text_or_test(o1, counter as nat);
        lemma_gen_log_or_expr_rest(rest, i + 1, vars, c1, o1 + logic_end(counter as nat));
    }
}


/// The code of a number is a move of its decimal value into `%eax`.
pub proof fn law_number_code(v: i32, vars: Map<Seq<char>, i32>, counter: int, out: Seq<char>)
    ensures
        gen_factor_spec(SpecExpr::Number(v), vars, counter, out) == Ok::<(Seq<char>, int), SpecGenError>(
            (out + "movl $"@ + decimal(v as int) + ", %eax\n"@, counter),
        ),
{
}

/// The code of a variable reads its stack slot into `%eax`; a variable
/// without a slot is an error.
pub proof fn law_variable_read_code(name: Seq<char>, vars: Map<Seq<char>, i32>, counter: int, out: Seq<char>)
    ensures
        vars.contains_key(name) ==> gen_factor_spec(SpecExpr::Ident(name), vars, counter, out) == Ok::<
            (Seq<char>, int),
            SpecGenError,
        >((out + "movl "@ + decimal(vars[name] as int) + "(%ebp), %eax\n"@, counter)),
        !vars.contains_key(name) ==> gen_factor_spec(SpecExpr::Ident(name), vars, counter, out)
            == Err::<(Seq<char>, int), SpecGenError>(SpecGenError::UndeclaredVariable(name)),
{
}

/// The code of an assignment computes the value and stores `%eax` into the
/// variable's stack slot; a variable without a slot is an error.
pub proof fn law_assignment_code(name: Seq<char>, x: SpecExpr, vars: Map<Seq<char>, i32>, counter: int, out: Seq<char>)
    ensures
        gen_expr_spec(SpecExpr::Assign(name, Box::new(x)), vars, counter, out) matches Ok((o, _))
            ==> (gen_expr_spec(x, vars, counter, out) matches Ok((o1, _)) && vars.contains_key(name)
            && o == o1 + "movl %eax, "@ + decimal(vars[name] as int) + "(%ebp)\n"@),
{
}

/// The code of `return e` computes `e` into `%eax`, then tears down the
/// stack frame and returns: `movl %ebp, %esp`, `pop %rbp`, `ret`.
pub proof fn law_return_code(e: SpecExpr, vars: Map<Seq<char>, i32>, counter: int, out: Seq<char>)
    ensures
        gen_statement_spec(SpecStatement::Return(e), vars, counter, out) matches Ok((o, _))
            ==> gen_expr_spec(e, vars, counter, out) matches Ok((o1, _)) && o == o1
            + "movl %ebp, %esp\npop %rbp\nret\n"@,
{
}

/// The code of an expression statement is the code of its expression: it
/// does not leave the function.
pub proof fn law_expression_statement_code(e: SpecExpr, vars: Map<Seq<char>, i32>, counter: int, out: Seq<char>)
    ensures
        gen_statement_spec(SpecStatement::Expr(e), vars, counter, out) == gen_expr_spec(e, vars, counter, out),
{
}

/// Whether the stack slots of a state are sound: the next free slot and
/// every variable's slot are multiples of 8 at or below -8 (below the saved
/// frame pointer), every variable's slot lies above the next free slot, and
/// no two variables share a slot.
pub open spec fn slots_sound(st: SpecStackInfo) -> bool {
    &&& st.stack_index <= -8
    &&& st.stack_index % 8 == 0
    &&& forall|v: Seq<char>|
        #[trigger] st.vars.contains_key(v) ==> st.stack_index < st.vars[v] <= -8 && st.vars[v] % 8
            == 0
    &&& forall|v: Seq<char>, u: Seq<char>|
        #[trigger] st.vars.contains_key(v) && #[trigger] st.vars.contains_key(u) && v != u
            ==> st.vars[v] != st.vars[u]
}

/// A program starts with sound slots and no variables.
pub proof fn law_initial_slots_sound()
    ensures
        slots_sound(initial_stack_info()),
        initial_stack_info().vars == Map::<Seq<char>, i32>::empty(),
{
}

/// A declaration gives its variable the next free slot, moves the next free
/// slot 8 bytes down, keeps every other variable's slot, and keeps the slots
/// sound; its code computes the value (zero where there is none) and pushes
/// it into that slot. A name that already has a slot is an error.
pub proof fn law_declaration_slots(d: SpecDeclaration, st: SpecStackInfo, out: Seq<char>)
    requires
        slots_sound(st),
    ensures
        st.vars.contains_key(d.identifier) ==> gen_declaration_spec(d, st, out) == Err::<
            (Seq<char>, SpecStackInfo),
            SpecGenError,
        >(SpecGenError::Redeclared(d.identifier)),
        gen_declaration_spec(d, st, out) matches Ok((o, st2)) ==> {
            &&& slots_sound(st2)
            &&& st2.vars.contains_key(d.identifier)
            &&& st2.vars[d.identifier] == st.stack_index
            &&& st2.stack_index == st.stack_index - 8
            &&& forall|v: Seq<char>|
                v != d.identifier ==> (#[trigger] st2.vars.contains_key(v) == st.vars.contains_key(v)
                    && (st.vars.contains_key(v) ==> st2.vars[v] == st.vars[v]))
            &&& (d.expr is None ==> o == out + "movl $0, %eax\n"@ + "push %rax\n"@)
            &&& (d.expr matches Some(e) ==> gen_expr_spec(e, st.vars, st.counter, out) matches Ok((o1, _))
                && o == o1 + "push %rax\n"@)
        },
{
    if let Ok((o, st2)) = gen_declaration_spec(d, st, out) {
        assert forall|v: Seq<char>|
            #[trigger] st2.vars.contains_key(v) implies st2.stack_index < st2.vars[v] <= -8
            && st2.vars[v] % 8 == 0 by {
            if v != d.identifier {
                assert(st.vars.contains_key(v));
            }
        }
        assert forall|v: Seq<char>, u: Seq<char>|
            #[trigger] st2.vars.contains_key(v) && #[trigger] st2.vars.contains_key(u) && v != u
            implies st2.vars[v] != st2.vars[u] by {
            if v != d.identifier && u != d.identifier {
                assert(st.vars.contains_key(v) && st.vars.contains_key(u));
            } else if v == d.identifier {
                assert(st.vars.contains_key(u));
            } else {
                assert(st.vars.contains_key(v));
            }
        }
    }
}


/// Whether a return statement stands directly among `blocks` from the
/// `i`-th on.
pub open spec fn returns_from(blocks: Seq<SpecBlock>, i: int) -> bool {
    exists|j: int|
        i <= j < blocks.len() && #[trigger] blocks[j] matches SpecBlock::Statement(SpecStatement::Return(_))
}

proof fn lemma_blocks_has_ret(blocks: Seq<SpecBlock>, i: int, st: SpecStackInfo, out: Seq<char>, h: bool)
    requires
        0 <= i <= blocks.len(),
    ensures
        gen_blocks_spec(blocks, i, st, out, h) matches Ok((_, _, h2)) ==> (h2 <==> h || returns_from(
            blocks,
            i,
        )),
    decreases blocks.len() - i,
{
    if i < blocks.len() {
        match blocks[i] {
            SpecBlock::Statement(s) => {
                if let Ok((o, c)) = gen_statement_spec(s, st.vars, st.counter, out) {
                    lemma_blocks_has_ret(
                        blocks,
                        i + 1,
                        SpecStackInfo { counter: c, stack_index: st.stack_index, vars: st.vars },
                        o,
                        h || s is Return,
                    );
                    if s is Return {
                        assert(blocks[i] matches SpecBlock::Statement(SpecStatement::Return(_)));
                    }
                }
            },
            SpecBlock::Declaration(d) => {
                if let Ok((o, st2)) = gen_declaration_spec(d, st, out) {
                    lemma_blocks_has_ret(blocks, i + 1, st2, o, h);
                }
            },
        }
        if returns_from(blocks, i) && !returns_from(blocks, i + 1) {
            let j = choose|j: int|
                i <= j < blocks.len() && #[trigger] blocks[j] matches SpecBlock::Statement(SpecStatement::Return(_));
            assert(j == i);
        }
    } else {
        assert(!returns_from(blocks, i));
    }
}

proof fn lemma_last_function_zero(fs: Seq<SpecFunction>, i: int, st: SpecStackInfo, out: Seq<char>)
    requires
        0 <= i < fs.len(),
        !returns_from(fs[fs.len() - 1].blocks, 0),
    ensures
        gen_functions_spec(fs, i, st, out) matches Ok((o, _)) ==> ends_with(
            o,
            "movl $0, %eax\nmovl %ebp, %esp\npop %rbp\nret\n"@,
        ),
    decreases fs.len() - i,
{
    let out1 = out + fs[i].name + ":\npush %rbp\nmovl %esp, %ebp\n"@;
    lemma_blocks_has_ret(fs[i].blocks, 0, st, out1, false);
    if let Ok((o, st2, has_ret)) = gen_blocks_spec(fs[i].blocks, 0, st, out1, false) {
        let next = if has_ret { o } else { o + "movl $0, %eax\nmovl %ebp, %esp\npop %rbp\nret\n"@ };
        if i + 1 < fs.len() {
            lemma_last_function_zero(fs, i + 1, st2, next);
        } else {
            lemma_ends_with_append(o, "movl $0, %eax\nmovl %ebp, %esp\npop %rbp\nret\n"@);
        }
    }
}

/// A program whose last function has no return statement among its items
/// ends by returning zero: it sets `%eax` to 0, tears down the stack frame
/// and returns.
pub proof fn law_generate_without_return_returns_zero(p: SpecProgram)
    requires
        p.functions.len() > 0,
        !returns_from(p.functions[p.functions.len() - 1].blocks, 0),
    ensures
        generate_spec(p) matches Ok(t) ==> ends_with(t, "movl $0, %eax\nmovl %ebp, %esp\npop %rbp\nret\n"@),
{
    lemma_last_function_zero(p.functions, 0, initial_stack_info(), ".globl main\n\n"@);
}

} // verus!

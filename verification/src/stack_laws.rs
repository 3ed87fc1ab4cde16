//! Laws on the stack discipline of the generated code: the code of an
//! expression pushes exactly as often as it pops, so it leaves the stack as
//! it found it.
use vstd::prelude::*;
use crate::generator::{
    gen_add_expr_rest, gen_add_expr_spec, gen_bit_and_expr_rest, gen_bit_and_expr_spec,
    gen_bit_or_expr_rest, gen_bit_or_expr_spec, gen_bit_xor_expr_rest, gen_bit_xor_expr_spec,
    gen_conditional_spec, gen_eq_expr_rest, gen_eq_expr_spec, gen_expr_spec, gen_factor_spec,
    gen_log_and_expr_rest, gen_log_and_expr_spec, gen_log_or_expr_rest, gen_log_or_expr_spec,
    gen_rel_expr_rest, gen_rel_expr_spec, gen_shift_expr_rest, gen_shift_expr_spec, gen_term_rest,
    gen_term_spec,
};
use crate::lexer::TokenType;
use crate::numbers::{decimal, is_ascii_digit, lemma_nat_decimal, nat_decimal};
use crate::parser::SpecExpr;

verus! {

/// Whether a `push ` instruction begins at position `i` of `s`.
pub open spec fn push_at(s: Seq<char>, i: int) -> bool {
    s[i] == 'p' && s[i + 1] == 'u' && s[i + 2] == 's' && s[i + 3] == 'h' && s[i + 4] == ' '
}

/// Whether a `pop ` instruction begins at position `i` of `s`.
pub open spec fn pop_at(s: Seq<char>, i: int) -> bool {
    s[i] == 'p' && s[i + 1] == 'o' && s[i + 2] == 'p' && s[i + 3] == ' '
}

/// The number of `push ` instructions in `s`.
pub open spec fn pushes(s: Seq<char>) -> nat
    decreases s.len(),
{
    if s.len() < 5 {
        0
    } else {
        pushes(s.drop_last()) + if push_at(s, s.len() - 5) { 1nat } else { 0nat }
    }
}

/// The number of `pop ` instructions in `s`.
pub open spec fn pops(s: Seq<char>) -> nat
    decreases s.len(),
{
    if s.len() < 4 {
        0
    } else {
        pops(s.drop_last()) + if pop_at(s, s.len() - 4) { 1nat } else { 0nat }
    }
}

/// Whether `s` does not end in the middle of the name `push` or `pop`, so
/// that no instruction name runs across its end.
pub open spec fn safe_end(s: Seq<char>) -> bool {
    s.len() == 0 || (s.last() != 'p' && s.last() != 'u' && s.last() != 's' && s.last() != 'h'
        && s.last() != 'o')
}

/// Whether `o` is `out` followed by text that does not end in the middle of
/// an instruction name.
pub open spec fn grows(out: Seq<char>, o: Seq<char>) -> bool {
    out.is_prefix_of(o) && safe_end(o.skip(out.len() as int))
}

/// The number of `push ` instructions that `o` holds after `out`.
pub open spec fn pushed(out: Seq<char>, o: Seq<char>) -> int {
    pushes(o.skip(out.len() as int)) as int
}

/// The number of `pop ` instructions that `o` holds after `out`.
pub open spec fn popped(out: Seq<char>, o: Seq<char>) -> int {
    pops(o.skip(out.len() as int)) as int
}

/// What generating an expression keeps: the text after `out` pushes as
/// often as it pops.
pub open spec fn balanced(r: Result<(Seq<char>, int), crate::generator::SpecGenError>, out: Seq<char>) -> bool {
    r matches Ok((o, _)) ==> grows(out, o) && pushed(out, o) == popped(out, o)
}

proof fn lemma_pushes_concat(a: Seq<char>, b: Seq<char>)
    requires
        safe_end(a),
    ensures
        pushes(a + b) == pushes(a) + pushes(b),
    decreases b.len(),
{
    let s = a + b;
    if b.len() == 0 {
        assert(s =~= a);
    } else {
        let b1 = b.drop_last();
        lemma_pushes_concat(a, b1);
        assert(s.drop_last() =~= a + b1);
        if s.len() >= 5 {
            let n = s.len() as int;
            if b.len() >= 5 {
                let m = b.len() as int;
                assert(s[n - 5] == b[m - 5] && s[n - 4] == b[m - 4] && s[n - 3] == b[m - 3] && s[n
                    - 2] == b[m - 2] && s[n - 1] == b[m - 1]);
            } else {
                assert(s[a.len() - 1] == a.last());
                assert(!push_at(s, n - 5));
            }
        }
    }
}

proof fn lemma_pops_concat(a: Seq<char>, b: Seq<char>)
    requires
        safe_end(a),
    ensures
        pops(a + b) == pops(a) + pops(b),
    decreases b.len(),
{
    let s = a + b;
    if b.len() == 0 {
        assert(s =~= a);
    } else {
        let b1 = b.drop_last();
        lemma_pops_concat(a, b1);
        assert(s.drop_last() =~= a + b1);
        if s.len() >= 4 {
            let n = s.len() as int;
            if b.len() >= 4 {
                let m = b.len() as int;
                assert(s[n - 4] == b[m - 4] && s[n - 3] == b[m - 3] && s[n - 2] == b[m - 2] && s[n
                    - 1] == b[m - 1]);
            } else {
                assert(s[a.len() - 1] == a.last());
                assert(!pop_at(s, n - 4));
            }
        }
    }
}

proof fn lemma_zero(out: Seq<char>)
    ensures
        grows(out, out),
        pushed(out, out) == 0,
        popped(out, out) == 0,
{
    assert(out.skip(out.len() as int) =~= Seq::<char>::empty());
    assert(out.is_prefix_of(out));
}

proof fn lemma_piece(out: Seq<char>, p: Seq<char>)
    requires
        safe_end(p),
    ensures
        grows(out, out + p),
        pushed(out, out + p) == pushes(p),
        popped(out, out + p) == pops(p),
{
    assert((out + p).skip(out.len() as int) =~= p);
    assert(out =~= (out + p).subrange(0, out.len() as int));
}

proof fn lemma_chain(a: Seq<char>, b: Seq<char>, c: Seq<char>)
    requires
        grows(a, b),
        grows(b, c),
    ensures
        grows(a, c),
        pushed(a, c) == pushed(a, b) + pushed(b, c),
        popped(a, c) == popped(a, b) + popped(b, c),
{
    let d1 = b.skip(a.len() as int);
    let d2 = c.skip(b.len() as int);
    assert forall|k: int| 0 <= k < b.len() implies #[trigger] b[k] == c[k] by {
        assert(b[k] == c.subrange(0, b.len() as int)[k]);
    }
    assert forall|k: int| 0 <= k < a.len() implies #[trigger] a[k] == c[k] by {
        assert(a[k] == b.subrange(0, a.len() as int)[k]);
        assert(b[k] == c[k]);
    }
    assert(c.skip(a.len() as int) =~= d1 + d2);
    assert(a =~= c.subrange(0, a.len() as int));
    lemma_pushes_concat(d1, d2);
    lemma_pops_concat(d1, d2);
    if d2.len() == 0 {
        assert(d1 + d2 =~= d1);
    } else {
        assert((d1 + d2).last() == d2.last());
    }
}

proof fn lemma_no_p(s: Seq<char>)
    requires
        forall|i: int| 0 <= i < s.len() ==> s[i] != 'p',
    ensures
        pushes(s) == 0,
        pops(s) == 0,
    decreases s.len(),
{
    if s.len() > 0 {
        lemma_no_p(s.drop_last());
        if s.len() >= 5 {
            assert(s[s.len() - 5] != 'p');
        }
        if s.len() >= 4 {
            assert(s[s.len() - 4] != 'p');
        }
    }
}

proof fn lemma_nat_decimal_quiet(m: nat)
    ensures
        pushes(nat_decimal(m)) == 0,
        pops(nat_decimal(m)) == 0,
        safe_end(nat_decimal(m)),
{
    lemma_nat_decimal(m);
    let s = nat_decimal(m);
    assert forall|i: int| 0 <= i < s.len() implies s[i] != 'p' by {
        assert(is_ascii_digit(s[i]));
    }
    lemma_no_p(s);
    assert(is_ascii_digit(s[s.len() - 1]));
}

proof fn lemma_decimal_quiet(x: int)
    ensures
        pushes(decimal(x)) == 0,
        pops(decimal(x)) == 0,
        safe_end(decimal(x)),
{
    if x < 0 {
        let m = (-x) as nat;
        lemma_nat_decimal(m);
        let s = decimal(x);
        let t = nat_decimal(m);
        assert(s == seq!['-'] + t);
        assert forall|i: int| 0 <= i < s.len() implies s[i] != 'p' by {
            if i > 0 {
                assert(s[i] == t[i - 1]);
                assert(is_ascii_digit(t[i - 1]));
            }
        }
        lemma_no_p(s);
        assert(s.last() == t.last());
        assert(is_ascii_digit(t[t.len() - 1]));
    } else {
        lemma_nat_decimal_quiet(x as nat);
    }
}

proof fn lemma_lit_0()
    ensures
        pushes("neg %eax\n"@) == 0,
        pops("neg %eax\n"@) == 0,
        safe_end("neg %eax\n"@),
{
    reveal_strlit("neg %eax\n");
    reveal_with_fuel(pushes, 11);
    reveal_with_fuel(pops, 11);
}

proof fn lemma_lit_1()
    ensures
        pushes("not %eax\n"@) == 0,
        pops("not %eax\n"@) == 0,
        safe_end("not %eax\n"@),
{
    reveal_strlit("not %eax\n");
    reveal_with_fuel(pushes, 11);
    reveal_with_fuel(pops, 11);
}

proof fn lemma_lit_2()
    ensures
        pushes("cmpl $0, %eax\nmovl $0, %eax\nsete %al\n"@) == 0,
        pops("cmpl $0, %eax\nmovl $0, %eax\nsete %al\n"@) == 0,
        safe_end("cmpl $0, %eax\nmovl $0, %eax\nsete %al\n"@),
{
    reveal_strlit("cmpl $0, %eax\nmovl $0, %eax\nsete %al\n");
    reveal_with_fuel(pushes, 39);
    reveal_with_fuel(pops, 39);
}

proof fn lemma_lit_3()
    ensures
        pushes("movl $"@) == 0,
        pops("movl $"@) == 0,
        safe_end("movl $"@),
{
    reveal_strlit("movl $");
    reveal_with_fuel(pushes, 8);
    reveal_with_fuel(pops, 8);
}

proof fn lemma_lit_4()
    ensures
        pushes(", %eax\n"@) == 0,
        pops(", %eax\n"@) == 0,
        safe_end(", %eax\n"@),
{
    reveal_strlit(", %eax\n");
    reveal_with_fuel(pushes, 9);
    reveal_with_fuel(pops, 9);
}

proof fn lemma_lit_5()
    ensures
        pushes("movl "@) == 0,
        pops("movl "@) == 0,
        safe_end("movl "@),
{
    reveal_strlit("movl ");
    reveal_with_fuel(pushes, 7);
    reveal_with_fuel(pops, 7);
}

proof fn lemma_lit_6()
    ensures
        pushes("(%ebp), %eax\n"@) == 0,
        pops("(%ebp), %eax\n"@) == 0,
        safe_end("(%ebp), %eax\n"@),
{
    reveal_strlit("(%ebp), %eax\n");
    reveal_with_fuel(pushes, 15);
    reveal_with_fuel(pops, 15);
}

proof fn lemma_lit_7()
    ensures
        pushes("push %rax\n"@) == 1,
        pops("push %rax\n"@) == 0,
        safe_end("push %rax\n"@),
{
    reveal_strlit("push %rax\n");
    reveal_with_fuel(pushes, 12);
    reveal_with_fuel(pops, 12);
}

proof fn lemma_lit_8()
    ensures
        pushes("cmpl $0, %eax\nje _e"@) == 0,
        pops("cmpl $0, %eax\nje _e"@) == 0,
        safe_end("cmpl $0, %eax\nje _e"@),
{
    reveal_strlit("cmpl $0, %eax\nje _e");
    reveal_with_fuel(pushes, 21);
    reveal_with_fuel(pops, 21);
}

proof fn lemma_lit_9()
    ensures
        pushes("\n"@) == 0,
        pops("\n"@) == 0,
        safe_end("\n"@),
{
    reveal_strlit("\n");
    reveal_with_fuel(pushes, 3);
    reveal_with_fuel(pops, 3);
}

proof fn lemma_lit_10()
    ensures
        pushes("jmp _post_cond"@) == 0,
        pops("jmp _post_cond"@) == 0,
        safe_end("jmp _post_cond"@),
{
    reveal_strlit("jmp _post_cond");
    reveal_with_fuel(pushes, 16);
    reveal_with_fuel(pops, 16);
}

proof fn lemma_lit_11()
    ensures
        pushes("\n_e"@) == 0,
        pops("\n_e"@) == 0,
        safe_end("\n_e"@),
{
    reveal_strlit("\n_e");
    reveal_with_fuel(pushes, 5);
    reveal_with_fuel(pops, 5);
}

proof fn lemma_lit_12()
    ensures
        pushes(":\n"@) == 0,
        pops(":\n"@) == 0,
        safe_end(":\n"@),
{
    reveal_strlit(":\n");
    reveal_with_fuel(pushes, 4);
    reveal_with_fuel(pops, 4);
}

proof fn lemma_lit_13()
    ensures
        pushes("_post_cond"@) == 0,
        pops("_post_cond"@) == 0,
        safe_end("_post_cond"@),
{
    reveal_strlit("_post_cond");
    reveal_with_fuel(pushes, 12);
    reveal_with_fuel(pops, 12);
}

proof fn lemma_lit_14()
    ensures
        pushes("movl %eax, "@) == 0,
        pops("movl %eax, "@) == 0,
        safe_end("movl %eax, "@),
{
    reveal_strlit("movl %eax, ");
    reveal_with_fuel(pushes, 13);
    reveal_with_fuel(pops, 13);
}

proof fn lemma_lit_15()
    ensures
        pushes("(%ebp)\n"@) == 0,
        pops("(%ebp)\n"@) == 0,
        safe_end("(%ebp)\n"@),
{
    reveal_strlit("(%ebp)\n");
    reveal_with_fuel(pushes, 9);
    reveal_with_fuel(pops, 9);
}

proof fn lemma_lit_16()
    ensures
        pushes("cmpl $0, %eax\nmovl $0, %eax\nsetne %al\n_end"@) == 0,
        pops("cmpl $0, %eax\nmovl $0, %eax\nsetne %al\n_end"@) == 0,
        safe_end("cmpl $0, %eax\nmovl $0, %eax\nsetne %al\n_end"@),
{
    reveal_strlit("cmpl $0, %eax\nmovl $0, %eax\nsetne %al\n_end");
    reveal_with_fuel(pushes, 44);
    reveal_with_fuel(pops, 44);
}

proof fn lemma_lit_17()
    ensures
        pushes("pop %rcx\nimul %ecx, %eax\n"@) == 0,
        pops("pop %rcx\nimul %ecx, %eax\n"@) == 1,
        safe_end("pop %rcx\nimul %ecx, %eax\n"@),
{
    reveal_strlit("pop %rcx\nimul %ecx, %eax\n");
    reveal_with_fuel(pushes, 27);
    reveal_with_fuel(pops, 27);
}

proof fn lemma_lit_18()
    ensures
        pushes("movl %eax, %ecx\npop %rax\ncdq\nidivl %ecx\n"@) == 0,
        pops("movl %eax, %ecx\npop %rax\ncdq\nidivl %ecx\n"@) == 1,
        safe_end("movl %eax, %ecx\npop %rax\ncdq\nidivl %ecx\n"@),
{
    reveal_strlit("movl %eax, %ecx\npop %rax\ncdq\nidivl %ecx\n");
    reveal_with_fuel(pushes, 42);
    reveal_with_fuel(pops, 42);
}

proof fn lemma_lit_19()
    ensures
        pushes("pop %rcx\naddl %ecx, %eax\n"@) == 0,
        pops("pop %rcx\naddl %ecx, %eax\n"@) == 1,
        safe_end("pop %rcx\naddl %ecx, %eax\n"@),
{
    reveal_strlit("pop %rcx\naddl %ecx, %eax\n");
    reveal_with_fuel(pushes, 27);
    reveal_with_fuel(pops, 27);
}

proof fn lemma_lit_20()
    ensures
        pushes("movl %eax, %ecx\npop %rax\nsubl %ecx, %eax\n"@) == 0,
        pops("movl %eax, %ecx\npop %rax\nsubl %ecx, %eax\n"@) == 1,
        safe_end("movl %eax, %ecx\npop %rax\nsubl %ecx, %eax\n"@),
{
    reveal_strlit("movl %eax, %ecx\npop %rax\nsubl %ecx, %eax\n");
    reveal_with_fuel(pushes, 43);
    reveal_with_fuel(pops, 43);
}

proof fn lemma_lit_21()
    ensures
        pushes("movl %eax, %ecx\npop %rax\n"@) == 0,
        pops("movl %eax, %ecx\npop %rax\n"@) == 1,
        safe_end("movl %eax, %ecx\npop %rax\n"@),
{
    reveal_strlit("movl %eax, %ecx\npop %rax\n");
    reveal_with_fuel(pushes, 27);
    reveal_with_fuel(pops, 27);
}

proof fn lemma_lit_22()
    ensures
        pushes("sal %cl, %eax\n"@) == 0,
        pops("sal %cl, %eax\n"@) == 0,
        safe_end("sal %cl, %eax\n"@),
{
    reveal_strlit("sal %cl, %eax\n");
    reveal_with_fuel(pushes, 16);
    reveal_with_fuel(pops, 16);
}

proof fn lemma_lit_23()
    ensures
        pushes("sar %cl, %eax\n"@) == 0,
        pops("sar %cl, %eax\n"@) == 0,
        safe_end("sar %cl, %eax\n"@),
{
    reveal_strlit("sar %cl, %eax\n");
    reveal_with_fuel(pushes, 16);
    reveal_with_fuel(pops, 16);
}

proof fn lemma_lit_24()
    ensures
        pushes("pop %rcx\ncmpl %eax, %ecx\nmovl $0, %eax\n"@) == 0,
        pops("pop %rcx\ncmpl %eax, %ecx\nmovl $0, %eax\n"@) == 1,
        safe_end("pop %rcx\ncmpl %eax, %ecx\nmovl $0, %eax\n"@),
{
    reveal_strlit("pop %rcx\ncmpl %eax, %ecx\nmovl $0, %eax\n");
    reveal_with_fuel(pushes, 41);
    reveal_with_fuel(pops, 41);
}

proof fn lemma_lit_25()
    ensures
        pushes("setl %al\n"@) == 0,
        pops("setl %al\n"@) == 0,
        safe_end("setl %al\n"@),
{
    reveal_strlit("setl %al\n");
    reveal_with_fuel(pushes, 11);
    reveal_with_fuel(pops, 11);
}

proof fn lemma_lit_26()
    ensures
        pushes("setle %al\n"@) == 0,
        pops("setle %al\n"@) == 0,
        safe_end("setle %al\n"@),
{
    reveal_strlit("setle %al\n");
    reveal_with_fuel(pushes, 12);
    reveal_with_fuel(pops, 12);
}

proof fn lemma_lit_27()
    ensures
        pushes("setg %al\n"@) == 0,
        pops("setg %al\n"@) == 0,
        safe_end("setg %al\n"@),
{
    reveal_strlit("setg %al\n");
    reveal_with_fuel(pushes, 11);
    reveal_with_fuel(pops, 11);
}

proof fn lemma_lit_28()
    ensures
        pushes("setge %al\n"@) == 0,
        pops("setge %al\n"@) == 0,
        safe_end("setge %al\n"@),
{
    reveal_strlit("setge %al\n");
    reveal_with_fuel(pushes, 12);
    reveal_with_fuel(pops, 12);
}

proof fn lemma_lit_29()
    ensures
        pushes("sete %al\n"@) == 0,
        pops("sete %al\n"@) == 0,
        safe_end("sete %al\n"@),
{
    reveal_strlit("sete %al\n");
    reveal_with_fuel(pushes, 11);
    reveal_with_fuel(pops, 11);
}

proof fn lemma_lit_30()
    ensures
        pushes("setne %al\n"@) == 0,
        pops("setne %al\n"@) == 0,
        safe_end("setne %al\n"@),
{
    reveal_strlit("setne %al\n");
    reveal_with_fuel(pushes, 12);
    reveal_with_fuel(pops, 12);
}

proof fn lemma_lit_31()
    ensures
        pushes("pop %rcx\nand %ecx, %eax\n"@) == 0,
        pops("pop %rcx\nand %ecx, %eax\n"@) == 1,
        safe_end("pop %rcx\nand %ecx, %eax\n"@),
{
    reveal_strlit("pop %rcx\nand %ecx, %eax\n");
    reveal_with_fuel(pushes, 26);
    reveal_with_fuel(pops, 26);
}

proof fn lemma_lit_32()
    ensures
        pushes("pop %rcx\nxor %ecx, %eax\n"@) == 0,
        pops("pop %rcx\nxor %ecx, %eax\n"@) == 1,
        safe_end("pop %rcx\nxor %ecx, %eax\n"@),
{
    reveal_strlit("pop %rcx\nxor %ecx, %eax\n");
    reveal_with_fuel(pushes, 26);
    reveal_with_fuel(pops, 26);
}

proof fn lemma_lit_33()
    ensures
        pushes("pop %rcx\nor %ecx, %eax\n"@) == 0,
        pops("pop %rcx\nor %ecx, %eax\n"@) == 1,
        safe_end("pop %rcx\nor %ecx, %eax\n"@),
{
    reveal_strlit("pop %rcx\nor %ecx, %eax\n");
    reveal_with_fuel(pushes, 25);
    reveal_with_fuel(pops, 25);
}

proof fn lemma_lit_34()
    ensures
        pushes("cmpl $0, %eax\njne _clause"@) == 0,
        pops("cmpl $0, %eax\njne _clause"@) == 0,
        safe_end("cmpl $0, %eax\njne _clause"@),
{
    reveal_strlit("cmpl $0, %eax\njne _clause");
    reveal_with_fuel(pushes, 27);
    reveal_with_fuel(pops, 27);
}

proof fn lemma_lit_35()
    ensures
        pushes("\njmp _end"@) == 0,
        pops("\njmp _end"@) == 0,
        safe_end("\njmp _end"@),
{
    reveal_strlit("\njmp _end");
    reveal_with_fuel(pushes, 11);
    reveal_with_fuel(pops, 11);
}

proof fn lemma_lit_36()
    ensures
        pushes("\n_clause"@) == 0,
        pops("\n_clause"@) == 0,
        safe_end("\n_clause"@),
{
    reveal_strlit("\n_clause");
    reveal_with_fuel(pushes, 10);
    reveal_with_fuel(pops, 10);
}

proof fn lemma_lit_37()
    ensures
        pushes("cmpl $0, %eax\nje _clause"@) == 0,
        pops("cmpl $0, %eax\nje _clause"@) == 0,
        safe_end("cmpl $0, %eax\nje _clause"@),
{
    reveal_strlit("cmpl $0, %eax\nje _clause");
    reveal_with_fuel(pushes, 26);
    reveal_with_fuel(pops, 26);
}

proof fn lemma_lit_38()
    ensures
        pushes("\nmovl $1, %eax\njmp _end"@) == 0,
        pops("\nmovl $1, %eax\njmp _end"@) == 0,
        safe_end("\nmovl $1, %eax\njmp _end"@),
{
    reveal_strlit("\nmovl $1, %eax\njmp _end");
    reveal_with_fuel(pushes, 25);
    reveal_with_fuel(pops, 25);
}

proof fn lemma_stack_factor(e: SpecExpr, vars: Map<Seq<char>, i32>, counter: int, out: Seq<char>)
    ensures
        balanced(gen_factor_spec(e, vars, counter, out), out),
    decreases e, 0nat, 0int,
{
    match e {
        SpecExpr::Paren(x) => {
            lemma_stack_expr(*x, vars, counter, out);
        },
        SpecExpr::Unary(op, x) => {
            lemma_stack_factor(*x, vars, counter, out);
            if let Ok((o, c)) = gen_factor_spec(*x, vars, counter, out) {
                if op == TokenType::Minus {
                lemma_lit_0();
                lemma_piece(o, "neg %eax\n"@);
                    lemma_chain(out, o, o + "neg %eax\n"@);
                } else if op == TokenType::BitComplement {
                lemma_lit_1();
                lemma_piece(o, "not %eax\n"@);
                    lemma_chain(out, o, o + "not %eax\n"@);
                } else if op == TokenType::LogicalNeg {
                lemma_lit_2();
                lemma_piece(o, "cmpl $0, %eax\nmovl $0, %eax\nsete %al\n"@);
                    lemma_chain(out, o, o + "cmpl $0, %eax\nmovl $0, %eax\nsete %al\n"@);
                }
            }
        },
        SpecExpr::Number(v) => {
            lemma_lit_3();
            lemma_piece(out, "movl $"@);
            lemma_decimal_quiet(v as int);
            lemma_piece(out + "movl $"@, decimal(v as int));
            lemma_chain(out, out + "movl $"@, out + "movl $"@ + decimal(v as int));
            lemma_lit_4();
            lemma_piece(out + "movl $"@ + decimal(v as int), ", %eax\n"@);
            lemma_chain(out, out + "movl $"@ + decimal(v as int), out + "movl $"@ + decimal(v as int) + ", %eax\n"@);
        },
        SpecExpr::Ident(name) => {
            if vars.contains_key(name) {
                lemma_lit_5();
                lemma_piece(out, "movl "@);
                lemma_decimal_quiet(vars[name] as int);
                lemma_piece(out + "movl "@, decimal(vars[name] as int));
                lemma_chain(out, out + "movl "@, out + "movl "@ + decimal(vars[name] as int));
                lemma_lit_6();
                lemma_piece(out + "movl "@ + decimal(vars[name] as int), "(%ebp), %eax\n"@);
                lemma_chain(out, out + "movl "@ + decimal(vars[name] as int), out + "movl "@ + decimal(vars[name] as int) + "(%ebp), %eax\n"@);
            }
        },
        _ => {
            lemma_zero(out);
        },
    }
}

proof fn lemma_stack_term(e: SpecExpr, vars: Map<Seq<char>, i32>, counter: int, out: Seq<char>)
    ensures
        balanced(gen_term_spec(e, vars, counter, out), out),
    decreases e, 1nat, 0int,
{
    match e {
        SpecExpr::Chain(first, rest) => {
            assert(decreases_to!(e => e->Chain_1));
            lemma_stack_factor(*first, vars, counter, out);
            if let Ok((o, c)) = gen_factor_spec(*first, vars, counter, out) {
                lemma_stack_term_rest(rest, 0, vars, c, o);
                if let Ok((o2, c2)) = gen_term_rest(rest, 0, vars, c, o) {
                    lemma_chain(out, o, o2);
                }
            }
        },
        _ => {
            lemma_zero(out);
        },
    }
}

proof fn lemma_stack_term_rest(
    rest: Seq<(TokenType, SpecExpr)>,
    i: int,
    vars: Map<Seq<char>, i32>,
    counter: int,
    out: Seq<char>,
)
    ensures
        balanced(gen_term_rest(rest, i, vars, counter, out), out),
    decreases rest, 1nat, rest.len() - i,
{
    if 0 <= i < rest.len() {
        assert(decreases_to!(rest => rest[i]));
        assert(decreases_to!(rest[i] => rest[i].1));
        lemma_lit_7();
        let out1 = out + "push %rax\n"@;
        lemma_piece(out, "push %rax\n"@);
        lemma_stack_factor(rest[i].1, vars, counter, out1);
        if let Ok((o, c)) = gen_factor_spec(rest[i].1, vars, counter, out1) {
            lemma_chain(out, out1, o);

            if rest[i].0 == TokenType::Multiplication {
                lemma_lit_17();
                lemma_piece(o, "pop %rcx\nimul %ecx, %eax\n"@);
                lemma_chain(out, o, o + "pop %rcx\nimul %ecx, %eax\n"@);
                lemma_stack_term_rest(rest, i + 1, vars, c, o + "pop %rcx\nimul %ecx, %eax\n"@);
                if let Ok((o4, c4)) = gen_term_rest(rest, i + 1, vars, c, o + "pop %rcx\nimul %ecx, %eax\n"@) {
                    lemma_chain(out, o + "pop %rcx\nimul %ecx, %eax\n"@, o4);
                }
            } else if rest[i].0 == TokenType::Division {
                lemma_lit_18();
                lemma_piece(o, "movl %eax, %ecx\npop %rax\ncdq\nidivl %ecx\n"@);
                lemma_chain(out, o, o + "movl %eax, %ecx\npop %rax\ncdq\nidivl %ecx\n"@);
                lemma_stack_term_rest(rest, i + 1, vars, c, o + "movl %eax, %ecx\npop %rax\ncdq\nidivl %ecx\n"@);
                if let Ok((o4, c4)) = gen_term_rest(rest, i + 1, vars, c, o + "movl %eax, %ecx\npop %rax\ncdq\nidivl %ecx\n"@) {
                    lemma_chain(out, o + "movl %eax, %ecx\npop %rax\ncdq\nidivl %ecx\n"@, o4);
                }
            }
        }
    } else {
        lemma_zero(out);
    }
}

proof fn lemma_stack_add_expr(e: SpecExpr, vars: Map<Seq<char>, i32>, counter: int, out: Seq<char>)
    ensures
        balanced(gen_add_expr_spec(e, vars, counter, out), out),
    decreases e, 2nat, 0int,
{
    match e {
        SpecExpr::Chain(first, rest) => {
            assert(decreases_to!(e => e->Chain_1));
            lemma_stack_term(*first, vars, counter, out);
            if let Ok((o, c)) = gen_term_spec(*first, vars, counter, out) {
                lemma_stack_add_expr_rest(rest, 0, vars, c, o);
                if let Ok((o2, c2)) = gen_add_expr_rest(rest, 0, vars, c, o) {
                    lemma_chain(out, o, o2);
                }
            }
        },
        _ => {
            lemma_zero(out);
        },
    }
}

proof fn lemma_stack_add_expr_rest(
    rest: Seq<(TokenType, SpecExpr)>,
    i: int,
    vars: Map<Seq<char>, i32>,
    counter: int,
    out: Seq<char>,
)
    ensures
        balanced(gen_add_expr_rest(rest, i, vars, counter, out), out),
    decreases rest, 2nat, rest.len() - i,
{
    if 0 <= i < rest.len() {
        assert(decreases_to!(rest => rest[i]));
        assert(decreases_to!(rest[i] => rest[i].1));
        lemma_lit_7();
        let out1 = out + "push %rax\n"@;
        lemma_piece(out, "push %rax\n"@);
        lemma_stack_term(rest[i].1, vars, counter, out1);
        if let Ok((o, c)) = gen_term_spec(rest[i].1, vars, counter, out1) {
            lemma_chain(out, out1, o);

            if rest[i].0 == TokenType::Addition {
                lemma_lit_19();
                lemma_piece(o, "pop %rcx\naddl %ecx, %eax\n"@);
                lemma_chain(out, o, o + "pop %rcx\naddl %ecx, %eax\n"@);
                lemma_stack_add_expr_rest(rest, i + 1, vars, c, o + "pop %rcx\naddl %ecx, %eax\n"@);
                if let Ok((o4, c4)) = gen_add_expr_rest(rest, i + 1, vars, c, o + "pop %rcx\naddl %ecx, %eax\n"@) {
                    lemma_chain(out, o + "pop %rcx\naddl %ecx, %eax\n"@, o4);
                }
            } else if rest[i].0 == TokenType::Minus {
                lemma_lit_20();
                lemma_piece(o, "movl %eax, %ecx\npop %rax\nsubl %ecx, %eax\n"@);
                lemma_chain(out, o, o + "movl %eax, %ecx\npop %rax\nsubl %ecx, %eax\n"@);
                lemma_stack_add_expr_rest(rest, i + 1, vars, c, o + "movl %eax, %ecx\npop %rax\nsubl %ecx, %eax\n"@);
                if let Ok((o4, c4)) = gen_add_expr_rest(rest, i + 1, vars, c, o + "movl %eax, %ecx\npop %rax\nsubl %ecx, %eax\n"@) {
                    lemma_chain(out, o + "movl %eax, %ecx\npop %rax\nsubl %ecx, %eax\n"@, o4);
                }
            }
        }
    } else {
        lemma_zero(out);
    }
}

proof fn lemma_stack_shift_expr(e: SpecExpr, vars: Map<Seq<char>, i32>, counter: int, out: Seq<char>)
    ensures
        balanced(gen_shift_expr_spec(e, vars, counter, out), out),
    decreases e, 3nat, 0int,
{
    match e {
        SpecExpr::Chain(first, rest) => {
            assert(decreases_to!(e => e->Chain_1));
            lemma_stack_add_expr(*first, vars, counter, out);
            if let Ok((o, c)) = gen_add_expr_spec(*first, vars, counter, out) {
                lemma_stack_shift_expr_rest(rest, 0, vars, c, o);
                if let Ok((o2, c2)) = gen_shift_expr_rest(rest, 0, vars, c, o) {
                    lemma_chain(out, o, o2);
                }
            }
        },
        _ => {
            lemma_zero(out);
        },
    }
}

proof fn lemma_stack_shift_expr_rest(
    rest: Seq<(TokenType, SpecExpr)>,
    i: int,
    vars: Map<Seq<char>, i32>,
    counter: int,
    out: Seq<char>,
)
    ensures
        balanced(gen_shift_expr_rest(rest, i, vars, counter, out), out),
    decreases rest, 3nat, rest.len() - i,
{
    if 0 <= i < rest.len() {
        assert(decreases_to!(rest => rest[i]));
        assert(decreases_to!(rest[i] => rest[i].1));
        lemma_lit_7();
        let out1 = out + "push %rax\n"@;
        lemma_piece(out, "push %rax\n"@);
        lemma_stack_add_expr(rest[i].1, vars, counter, out1);
        if let Ok((o, c)) = gen_add_expr_spec(rest[i].1, vars, counter, out1) {
            lemma_chain(out, out1, o);
            lemma_lit_21();
            lemma_piece(o, "movl %eax, %ecx\npop %rax\n"@);
            lemma_chain(out, o, o + "movl %eax, %ecx\npop %rax\n"@);
            if rest[i].0 == TokenType::LBitShift {
                lemma_lit_22();
                lemma_piece(o + "movl %eax, %ecx\npop %rax\n"@, "sal %cl, %eax\n"@);
                lemma_chain(out, o + "movl %eax, %ecx\npop %rax\n"@, o + "movl %eax, %ecx\npop %rax\n"@ + "sal %cl, %eax\n"@);
                lemma_stack_shift_expr_rest(rest, i + 1, vars, c, o + "movl %eax, %ecx\npop %rax\n"@ + "sal %cl, %eax\n"@);
                if let Ok((o4, c4)) = gen_shift_expr_rest(rest, i + 1, vars, c, o + "movl %eax, %ecx\npop %rax\n"@ + "sal %cl, %eax\n"@) {
                    lemma_chain(out, o + "movl %eax, %ecx\npop %rax\n"@ + "sal %cl, %eax\n"@, o4);
                }
            } else if rest[i].0 == TokenType::RBitShift {
                lemma_lit_23();
                lemma_piece(o + "movl %eax, %ecx\npop %rax\n"@, "sar %cl, %eax\n"@);
                lemma_chain(out, o + "movl %eax, %ecx\npop %rax\n"@, o + "movl %eax, %ecx\npop %rax\n"@ + "sar %cl, %eax\n"@);
                lemma_stack_shift_expr_rest(rest, i + 1, vars, c, o + "movl %eax, %ecx\npop %rax\n"@ + "sar %cl, %eax\n"@);
                if let Ok((o4, c4)) = gen_shift_expr_rest(rest, i + 1, vars, c, o + "movl %eax, %ecx\npop %rax\n"@ + "sar %cl, %eax\n"@) {
                    lemma_chain(out, o + "movl %eax, %ecx\npop %rax\n"@ + "sar %cl, %eax\n"@, o4);
                }
            }
        }
    } else {
        lemma_zero(out);
    }
}

proof fn lemma_stack_rel_expr(e: SpecExpr, vars: Map<Seq<char>, i32>, counter: int, out: Seq<char>)
    ensures
        balanced(gen_rel_expr_spec(e, vars, counter, out), out),
    decreases e, 4nat, 0int,
{
    match e {
        SpecExpr::Chain(first, rest) => {
            assert(decreases_to!(e => e->Chain_1));
            lemma_stack_shift_expr(*first, vars, counter, out);
            if let Ok((o, c)) = gen_shift_expr_spec(*first, vars, counter, out) {
                lemma_stack_rel_expr_rest(rest, 0, vars, c, o);
                if let Ok((o2, c2)) = gen_rel_expr_rest(rest, 0, vars, c, o) {
                    lemma_chain(out, o, o2);
                }
            }
        },
        _ => {
            lemma_zero(out);
        },
    }
}

proof fn lemma_stack_rel_expr_rest(
    rest: Seq<(TokenType, SpecExpr)>,
    i: int,
    vars: Map<Seq<char>, i32>,
    counter: int,
    out: Seq<char>,
)
    ensures
        balanced(gen_rel_expr_rest(rest, i, vars, counter, out), out),
    decreases rest, 4nat, rest.len() - i,
{
    if 0 <= i < rest.len() {
        assert(decreases_to!(rest => rest[i]));
        assert(decreases_to!(rest[i] => rest[i].1));
        lemma_lit_7();
        let out1 = out + "push %rax\n"@;
        lemma_piece(out, "push %rax\n"@);
        lemma_stack_shift_expr(rest[i].1, vars, counter, out1);
        if let Ok((o, c)) = gen_shift_expr_spec(rest[i].1, vars, counter, out1) {
            lemma_chain(out, out1, o);
            lemma_lit_24();
            lemma_piece(o, "pop %rcx\ncmpl %eax, %ecx\nmovl $0, %eax\n"@);
            lemma_chain(out, o, o + "pop %rcx\ncmpl %eax, %ecx\nmovl $0, %eax\n"@);
            if rest[i].0 == TokenType::LessThan {
                lemma_lit_25();
                lemma_piece(o + "pop %rcx\ncmpl %eax, %ecx\nmovl $0, %eax\n"@, "setl %al\n"@);
                lemma_chain(out, o + "pop %rcx\ncmpl %eax, %ecx\nmovl $0, %eax\n"@, o + "pop %rcx\ncmpl %eax, %ecx\nmovl $0, %eax\n"@ + "setl %al\n"@);
                lemma_stack_rel_expr_rest(rest, i + 1, vars, c, o + "pop %rcx\ncmpl %eax, %ecx\nmovl $0, %eax\n"@ + "setl %al\n"@);
                if let Ok((o4, c4)) = gen_rel_expr_rest(rest, i + 1, vars, c, o + "pop %rcx\ncmpl %eax, %ecx\nmovl $0, %eax\n"@ + "setl %al\n"@) {
                    lemma_chain(out, o + "pop %rcx\ncmpl %eax, %ecx\nmovl $0, %eax\n"@ + "setl %al\n"@, o4);
                }
            } else if rest[i].0 == TokenType::LessThanEqual {
                lemma_lit_26();
                lemma_piece(o + "pop %rcx\ncmpl %eax, %ecx\nmovl $0, %eax\n"@, "setle %al\n"@);
                lemma_chain(out, o + "pop %rcx\ncmpl %eax, %ecx\nmovl $0, %eax\n"@, o + "pop %rcx\ncmpl %eax, %ecx\nmovl $0, %eax\n"@ + "setle %al\n"@);
                lemma_stack_rel_expr_rest(rest, i + 1, vars, c, o + "pop %rcx\ncmpl %eax, %ecx\nmovl $0, %eax\n"@ + "setle %al\n"@);
                if let Ok((o4, c4)) = gen_rel_expr_rest(rest, i + 1, vars, c, o + "pop %rcx\ncmpl %eax, %ecx\nmovl $0, %eax\n"@ + "setle %al\n"@) {
                    lemma_chain(out, o + "pop %rcx\ncmpl %eax, %ecx\nmovl $0, %eax\n"@ + "setle %al\n"@, o4);
                }
            } else if rest[i].0 == TokenType::GreaterThan {
                lemma_lit_27();
                lemma_piece(o + "pop %rcx\ncmpl %eax, %ecx\nmovl $0, %eax\n"@, "setg %al\n"@);
                lemma_chain(out, o + "pop %rcx\ncmpl %eax, %ecx\nmovl $0, %eax\n"@, o + "pop %rcx\ncmpl %eax, %ecx\nmovl $0, %eax\n"@ + "setg %al\n"@);
                lemma_stack_rel_expr_rest(rest, i + 1, vars, c, o + "pop %rcx\ncmpl %eax, %ecx\nmovl $0, %eax\n"@ + "setg %al\n"@);
                if let Ok((o4, c4)) = gen_rel_expr_rest(rest, i + 1, vars, c, o + "pop %rcx\ncmpl %eax, %ecx\nmovl $0, %eax\n"@ + "setg %al\n"@) {
                    lemma_chain(out, o + "pop %rcx\ncmpl %eax, %ecx\nmovl $0, %eax\n"@ + "setg %al\n"@, o4);
                }
            } else if rest[i].0 == TokenType::GreaterThanEqual {
                lemma_lit_28();
                lemma_piece(o + "pop %rcx\ncmpl %eax, %ecx\nmovl $0, %eax\n"@, "setge %al\n"@);
                lemma_chain(out, o + "pop %rcx\ncmpl %eax, %ecx\nmovl $0, %eax\n"@, o + "pop %rcx\ncmpl %eax, %ecx\nmovl $0, %eax\n"@ + "setge %al\n"@);
                lemma_stack_rel_expr_rest(rest, i + 1, vars, c, o + "pop %rcx\ncmpl %eax, %ecx\nmovl $0, %eax\n"@ + "setge %al\n"@);
                if let Ok((o4, c4)) = gen_rel_expr_rest(rest, i + 1, vars, c, o + "pop %rcx\ncmpl %eax, %ecx\nmovl $0, %eax\n"@ + "setge %al\n"@) {
                    lemma_chain(out, o + "pop %rcx\ncmpl %eax, %ecx\nmovl $0, %eax\n"@ + "setge %al\n"@, o4);
                }
            }
        }
    } else {
        lemma_zero(out);
    }
}

proof fn lemma_stack_eq_expr(e: SpecExpr, vars: Map<Seq<char>, i32>, counter: int, out: Seq<char>)
    ensures
        balanced(gen_eq_expr_spec(e, vars, counter, out), out),
    decreases e, 5nat, 0int,
{
    match e {
        SpecExpr::Chain(first, rest) => {
            assert(decreases_to!(e => e->Chain_1));
            lemma_stack_rel_expr(*first, vars, counter, out);
            if let Ok((o, c)) = gen_rel_expr_spec(*first, vars, counter, out) {
                lemma_stack_eq_expr_rest(rest, 0, vars, c, o);
                if let Ok((o2, c2)) = gen_eq_expr_rest(rest, 0, vars, c, o) {
                    lemma_chain(out, o, o2);
                }
            }
        },
        _ => {
            lemma_zero(out);
        },
    }
}

proof fn lemma_stack_eq_expr_rest(
    rest: Seq<(TokenType, SpecExpr)>,
    i: int,
    vars: Map<Seq<char>, i32>,
    counter: int,
    out: Seq<char>,
)
    ensures
        balanced(gen_eq_expr_rest(rest, i, vars, counter, out), out),
    decreases rest, 5nat, rest.len() - i,
{
    if 0 <= i < rest.len() {
        assert(decreases_to!(rest => rest[i]));
        assert(decreases_to!(rest[i] => rest[i].1));
        lemma_lit_7();
        let out1 = out + "push %rax\n"@;
        lemma_piece(out, "push %rax\n"@);
        lemma_stack_rel_expr(rest[i].1, vars, counter, out1);
        if let Ok((o, c)) = gen_rel_expr_spec(rest[i].1, vars, counter, out1) {
            lemma_chain(out, out1, o);
            lemma_lit_24();
            lemma_piece(o, "pop %rcx\ncmpl %eax, %ecx\nmovl $0, %eax\n"@);
            lemma_chain(out, o, o + "pop %rcx\ncmpl %eax, %ecx\nmovl $0, %eax\n"@);
            if rest[i].0 == TokenType::Equal {
                lemma_lit_29();
                lemma_piece(o + "pop %rcx\ncmpl %eax, %ecx\nmovl $0, %eax\n"@, "sete %al\n"@);
                lemma_chain(out, o + "pop %rcx\ncmpl %eax, %ecx\nmovl $0, %eax\n"@, o + "pop %rcx\ncmpl %eax, %ecx\nmovl $0, %eax\n"@ + "sete %al\n"@);
                lemma_stack_eq_expr_rest(rest, i + 1, vars, c, o + "pop %rcx\ncmpl %eax, %ecx\nmovl $0, %eax\n"@ + "sete %al\n"@);
                if let Ok((o4, c4)) = gen_eq_expr_rest(rest, i + 1, vars, c, o + "pop %rcx\ncmpl %eax, %ecx\nmovl $0, %eax\n"@ + "sete %al\n"@) {
                    lemma_chain(out, o + "pop %rcx\ncmpl %eax, %ecx\nmovl $0, %eax\n"@ + "sete %al\n"@, o4);
                }
            } else if rest[i].0 == TokenType::NotEqual {
                lemma_lit_30();
                lemma_piece(o + "pop %rcx\ncmpl %eax, %ecx\nmovl $0, %eax\n"@, "setne %al\n"@);
                lemma_chain(out, o + "pop %rcx\ncmpl %eax, %ecx\nmovl $0, %eax\n"@, o + "pop %rcx\ncmpl %eax, %ecx\nmovl $0, %eax\n"@ + "setne %al\n"@);
                lemma_stack_eq_expr_rest(rest, i + 1, vars, c, o + "pop %rcx\ncmpl %eax, %ecx\nmovl $0, %eax\n"@ + "setne %al\n"@);
                if let Ok((o4, c4)) = gen_eq_expr_rest(rest, i + 1, vars, c, o + "pop %rcx\ncmpl %eax, %ecx\nmovl $0, %eax\n"@ + "setne %al\n"@) {
                    lemma_chain(out, o + "pop %rcx\ncmpl %eax, %ecx\nmovl $0, %eax\n"@ + "setne %al\n"@, o4);
                }
            }
        }
    } else {
        lemma_zero(out);
    }
}

proof fn lemma_stack_bit_and_expr(e: SpecExpr, vars: Map<Seq<char>, i32>, counter: int, out: Seq<char>)
    ensures
        balanced(gen_bit_and_expr_spec(e, vars, counter, out), out),
    decreases e, 6nat, 0int,
{
    match e {
        SpecExpr::Chain(first, rest) => {
            assert(decreases_to!(e => e->Chain_1));
            lemma_stack_eq_expr(*first, vars, counter, out);
            if let Ok((o, c)) = gen_eq_expr_spec(*first, vars, counter, out) {
                lemma_stack_bit_and_expr_rest(rest, 0, vars, c, o);
                if let Ok((o2, c2)) = gen_bit_and_expr_rest(rest, 0, vars, c, o) {
                    lemma_chain(out, o, o2);
                }
            }
        },
        _ => {
            lemma_zero(out);
        },
    }
}

proof fn lemma_stack_bit_and_expr_rest(
    rest: Seq<(TokenType, SpecExpr)>,
    i: int,
    vars: Map<Seq<char>, i32>,
    counter: int,
    out: Seq<char>,
)
    ensures
        balanced(gen_bit_and_expr_rest(rest, i, vars, counter, out), out),
    decreases rest, 6nat, rest.len() - i,
{
    if 0 <= i < rest.len() {
        assert(decreases_to!(rest => rest[i]));
        assert(decreases_to!(rest[i] => rest[i].1));
        lemma_lit_7();
        let out1 = out + "push %rax\n"@;
        lemma_piece(out, "push %rax\n"@);
        lemma_stack_eq_expr(rest[i].1, vars, counter, out1);
        if let Ok((o, c)) = gen_eq_expr_spec(rest[i].1, vars, counter, out1) {
            lemma_chain(out, out1, o);

                lemma_lit_31();
                lemma_piece(o, "pop %rcx\nand %ecx, %eax\n"@);
                lemma_chain(out, o, o + "pop %rcx\nand %ecx, %eax\n"@);
                lemma_stack_bit_and_expr_rest(rest, i + 1, vars, c, o + "pop %rcx\nand %ecx, %eax\n"@);
                if let Ok((o4, c4)) = gen_bit_and_expr_rest(rest, i + 1, vars, c, o + "pop %rcx\nand %ecx, %eax\n"@) {
                    lemma_chain(out, o + "pop %rcx\nand %ecx, %eax\n"@, o4);
                }
        }
    } else {
        lemma_zero(out);
    }
}

proof fn lemma_stack_bit_xor_expr(e: SpecExpr, vars: Map<Seq<char>, i32>, counter: int, out: Seq<char>)
    ensures
        balanced(gen_bit_xor_expr_spec(e, vars, counter, out), out),
    decreases e, 7nat, 0int,
{
    match e {
        SpecExpr::Chain(first, rest) => {
            assert(decreases_to!(e => e->Chain_1));
            lemma_stack_bit_and_expr(*first, vars, counter, out);
            if let Ok((o, c)) = gen_bit_and_expr_spec(*first, vars, counter, out) {
                lemma_stack_bit_xor_expr_rest(rest, 0, vars, c, o);
                if let Ok((o2, c2)) = gen_bit_xor_expr_rest(rest, 0, vars, c, o) {
                    lemma_chain(out, o, o2);
                }
            }
        },
        _ => {
            lemma_zero(out);
        },
    }
}

proof fn lemma_stack_bit_xor_expr_rest(
    rest: Seq<(TokenType, SpecExpr)>,
    i: int,
    vars: Map<Seq<char>, i32>,
    counter: int,
    out: Seq<char>,
)
    ensures
        balanced(gen_bit_xor_expr_rest(rest, i, vars, counter, out), out),
    decreases rest, 7nat, rest.len() - i,
{
    if 0 <= i < rest.len() {
        assert(decreases_to!(rest => rest[i]));
        assert(decreases_to!(rest[i] => rest[i].1));
        lemma_lit_7();
        let out1 = out + "push %rax\n"@;
        lemma_piece(out, "push %rax\n"@);
        lemma_stack_bit_and_expr(rest[i].1, vars, counter, out1);
        if let Ok((o, c)) = gen_bit_and_expr_spec(rest[i].1, vars, counter, out1) {
            lemma_chain(out, out1, o);

                lemma_lit_32();
                lemma_piece(o, "pop %rcx\nxor %ecx, %eax\n"@);
                lemma_chain(out, o, o + "pop %rcx\nxor %ecx, %eax\n"@);
                lemma_stack_bit_xor_expr_rest(rest, i + 1, vars, c, o + "pop %rcx\nxor %ecx, %eax\n"@);
                if let Ok((o4, c4)) = gen_bit_xor_expr_rest(rest, i + 1, vars, c, o + "pop %rcx\nxor %ecx, %eax\n"@) {
                    lemma_chain(out, o + "pop %rcx\nxor %ecx, %eax\n"@, o4);
                }
        }
    } else {
        lemma_zero(out);
    }
}

proof fn lemma_stack_bit_or_expr(e: SpecExpr, vars: Map<Seq<char>, i32>, counter: int, out: Seq<char>)
    ensures
        balanced(gen_bit_or_expr_spec(e, vars, counter, out), out),
    decreases e, 8nat, 0int,
{
    match e {
        SpecExpr::Chain(first, rest) => {
            assert(decreases_to!(e => e->Chain_1));
            lemma_stack_bit_xor_expr(*first, vars, counter, out);
            if let Ok((o, c)) = gen_bit_xor_expr_spec(*first, vars, counter, out) {
                lemma_stack_bit_or_expr_rest(rest, 0, vars, c, o);
                if let Ok((o2, c2)) = gen_bit_or_expr_rest(rest, 0, vars, c, o) {
                    lemma_chain(out, o, o2);
                }
            }
        },
        _ => {
            lemma_zero(out);
        },
    }
}

proof fn lemma_stack_bit_or_expr_rest(
    rest: Seq<(TokenType, SpecExpr)>,
    i: int,
    vars: Map<Seq<char>, i32>,
    counter: int,
    out: Seq<char>,
)
    ensures
        balanced(gen_bit_or_expr_rest(rest, i, vars, counter, out), out),
    decreases rest, 8nat, rest.len() - i,
{
    if 0 <= i < rest.len() {
        assert(decreases_to!(rest => rest[i]));
        assert(decreases_to!(rest[i] => rest[i].1));
        lemma_lit_7();
        let out1 = out + "push %rax\n"@;
        lemma_piece(out, "push %rax\n"@);
        lemma_stack_bit_xor_expr(rest[i].1, vars, counter, out1);
        if let Ok((o, c)) = gen_bit_xor_expr_spec(rest[i].1, vars, counter, out1) {
            lemma_chain(out, out1, o);

                lemma_lit_33();
                lemma_piece(o, "pop %rcx\nor %ecx, %eax\n"@);
                lemma_chain(out, o, o + "pop %rcx\nor %ecx, %eax\n"@);
                lemma_stack_bit_or_expr_rest(rest, i + 1, vars, c, o + "pop %rcx\nor %ecx, %eax\n"@);
                if let Ok((o4, c4)) = gen_bit_or_expr_rest(rest, i + 1, vars, c, o + "pop %rcx\nor %ecx, %eax\n"@) {
                    lemma_chain(out, o + "pop %rcx\nor %ecx, %eax\n"@, o4);
                }
        }
    } else {
        lemma_zero(out);
    }
}

proof fn lemma_stack_log_and_expr(e: SpecExpr, vars: Map<Seq<char>, i32>, counter: int, out: Seq<char>)
    ensures
        balanced(gen_log_and_expr_spec(e, vars, counter, out), out),
    decreases e, 9nat, 0int,
{
    match e {
        SpecExpr::Chain(first, rest) => {
            assert(decreases_to!(e => e->Chain_1));
            lemma_stack_bit_or_expr(*first, vars, counter, out);
            if let Ok((o, c)) = gen_bit_or_expr_spec(*first, vars, counter, out) {
                lemma_stack_log_and_expr_rest(rest, 0, vars, c, o);
                if let Ok((o2, c2)) = gen_log_and_expr_rest(rest, 0, vars, c, o) {
                    lemma_chain(out, o, o2);
                }
            }
        },
        _ => {
            lemma_zero(out);
        },
    }
}

proof fn lemma_stack_log_and_expr_rest(
    rest: Seq<(TokenType, SpecExpr)>,
    i: int,
    vars: Map<Seq<char>, i32>,
    counter: int,
    out: Seq<char>,
)
    ensures
        balanced(gen_log_and_expr_rest(rest, i, vars, counter, out), out),
    decreases rest, 9nat, rest.len() - i,
{
    if 0 <= i < rest.len() {
        assert(decreases_to!(rest => rest[i]));
        assert(decreases_to!(rest[i] => rest[i].1));
        if counter < u32::MAX {
            lemma_lit_34();
            lemma_piece(out, "cmpl $0, %eax\njne _clause"@);
            lemma_nat_decimal_quiet(counter as nat);
            lemma_piece(out + "cmpl $0, %eax\njne _clause"@, nat_decimal(counter as nat));
            lemma_chain(out, out + "cmpl $0, %eax\njne _clause"@, out + "cmpl $0, %eax\njne _clause"@ + nat_decimal(counter as nat));
            lemma_lit_35();
            lemma_piece(out + "cmpl $0, %eax\njne _clause"@ + nat_decimal(counter as nat), "\njmp _end"@);
            lemma_chain(out, out + "cmpl $0, %eax\njne _clause"@ + nat_decimal(counter as nat), out + "cmpl $0, %eax\njne _clause"@ + nat_decimal(counter as nat) + "\njmp _end"@);
            lemma_nat_decimal_quiet(counter as nat);
            lemma_piece(out + "cmpl $0, %eax\njne _clause"@ + nat_decimal(counter as nat) + "\njmp _end"@, nat_decimal(counter as nat));
            lemma_chain(out, out + "cmpl $0, %eax\njne _clause"@ + nat_decimal(counter as nat) + "\njmp _end"@, out + "cmpl $0, %eax\njne _clause"@ + nat_decimal(counter as nat) + "\njmp _end"@ + nat_decimal(counter as nat));
            lemma_lit_36();
            lemma_piece(out + "cmpl $0, %eax\njne _clause"@ + nat_decimal(counter as nat) + "\njmp _end"@ + nat_decimal(counter as nat), "\n_clause"@);
            lemma_chain(out, out + "cmpl $0, %eax\njne _clause"@ + nat_decimal(counter as nat) + "\njmp _end"@ + nat_decimal(counter as nat), out + "cmpl $0, %eax\njne _clause"@ + nat_decimal(counter as nat) + "\njmp _end"@ + nat_decimal(counter as nat) + "\n_clause"@);
            lemma_nat_decimal_quiet(counter as nat);
            lemma_piece(out + "cmpl $0, %eax\njne _clause"@ + nat_decimal(counter as nat) + "\njmp _end"@ + nat_decimal(counter as nat) + "\n_clause"@, nat_decimal(counter as nat));
            lemma_chain(out, out + "cmpl $0, %eax\njne _clause"@ + nat_decimal(counter as nat) + "\njmp _end"@ + nat_decimal(counter as nat) + "\n_clause"@, out + "cmpl $0, %eax\njne _clause"@ + nat_decimal(counter as nat) + "\njmp _end"@ + nat_decimal(counter as nat) + "\n_clause"@ + nat_decimal(counter as nat));
            lemma_lit_12();
            lemma_piece(out + "cmpl $0, %eax\njne _clause"@ + nat_decimal(counter as nat) + "\njmp _end"@ + nat_decimal(counter as nat) + "\n_clause"@ + nat_decimal(counter as nat), ":\n"@);
            lemma_chain(out, out + "cmpl $0, %eax\njne _clause"@ + nat_decimal(counter as nat) + "\njmp _end"@ + nat_decimal(counter as nat) + "\n_clause"@ + nat_decimal(counter as nat), out + "cmpl $0, %eax\njne _clause"@ + nat_decimal(counter as nat) + "\njmp _end"@ + nat_decimal(counter as nat) + "\n_clause"@ + nat_decimal(counter as nat) + ":\n"@);
            lemma_stack_bit_or_expr(rest[i].1, vars, counter + 1, out + "cmpl $0, %eax\njne _clause"@ + nat_decimal(counter as nat) + "\njmp _end"@ + nat_decimal(counter as nat) + "\n_clause"@ + nat_decimal(counter as nat) + ":\n"@);
            if let Ok((o, c)) = gen_bit_or_expr_spec(rest[i].1, vars, counter + 1, out + "cmpl $0, %eax\njne _clause"@ + nat_decimal(counter as nat) + "\njmp _end"@ + nat_decimal(counter as nat) + "\n_clause"@ + nat_decimal(counter as nat) + ":\n"@) {
                lemma_chain(out, out + "cmpl $0, %eax\njne _clause"@ + nat_decimal(counter as nat) + "\njmp _end"@ + nat_decimal(counter as nat) + "\n_clause"@ + nat_decimal(counter as nat) + ":\n"@, o);
                lemma_lit_16();
                lemma_piece(o, "cmpl $0, %eax\nmovl $0, %eax\nsetne %al\n_end"@);
                lemma_nat_decimal_quiet(counter as nat);
                lemma_piece(o + "cmpl $0, %eax\nmovl $0, %eax\nsetne %al\n_end"@, nat_decimal(counter as nat));
                lemma_chain(o, o + "cmpl $0, %eax\nmovl $0, %eax\nsetne %al\n_end"@, o + "cmpl $0, %eax\nmovl $0, %eax\nsetne %al\n_end"@ + nat_decimal(counter as nat));
                lemma_lit_12();
                lemma_piece(o + "cmpl $0, %eax\nmovl $0, %eax\nsetne %al\n_end"@ + nat_decimal(counter as nat), ":\n"@);
                lemma_chain(o, o + "cmpl $0, %eax\nmovl $0, %eax\nsetne %al\n_end"@ + nat_decimal(counter as nat), o + "cmpl $0, %eax\nmovl $0, %eax\nsetne %al\n_end"@ + nat_decimal(counter as nat) + ":\n"@);
                lemma_chain(out, o, o + "cmpl $0, %eax\nmovl $0, %eax\nsetne %al\n_end"@ + nat_decimal(counter as nat) + ":\n"@);
                lemma_stack_log_and_expr_rest(rest, i + 1, vars, c, o + "cmpl $0, %eax\nmovl $0, %eax\nsetne %al\n_end"@ + nat_decimal(counter as nat) + ":\n"@);
                if let Ok((o4, c4)) = gen_log_and_expr_rest(rest, i + 1, vars, c, o + "cmpl $0, %eax\nmovl $0, %eax\nsetne %al\n_end"@ + nat_decimal(counter as nat) + ":\n"@) {
                    lemma_chain(out, o + "cmpl $0, %eax\nmovl $0, %eax\nsetne %al\n_end"@ + nat_decimal(counter as nat) + ":\n"@, o4);
                }
            }
        }
    } else {
        lemma_zero(out);
    }
}

proof fn lemma_stack_log_or_expr(e: SpecExpr, vars: Map<Seq<char>, i32>, counter: int, out: Seq<char>)
    ensures
        balanced(gen_log_or_expr_spec(e, vars, counter, out), out),
    decreases e, 10nat, 0int,
{
    match e {
        SpecExpr::Chain(first, rest) => {
            assert(decreases_to!(e => e->Chain_1));
            lemma_stack_log_and_expr(*first, vars, counter, out);
            if let Ok((o, c)) = gen_log_and_expr_spec(*first, vars, counter, out) {
                lemma_stack_log_or_expr_rest(rest, 0, vars, c, o);
                if let Ok((o2, c2)) = gen_log_or_expr_rest(rest, 0, vars, c, o) {
                    lemma_chain(out, o, o2);
                }
            }
        },
        _ => {
            lemma_zero(out);
        },
    }
}

proof fn lemma_stack_log_or_expr_rest(
    rest: Seq<(TokenType, SpecExpr)>,
    i: int,
    vars: Map<Seq<char>, i32>,
    counter: int,
    out: Seq<char>,
)
    ensures
        balanced(gen_log_or_expr_rest(rest, i, vars, counter, out), out),
    decreases rest, 10nat, rest.len() - i,
{
    if 0 <= i < rest.len() {
        assert(decreases_to!(rest => rest[i]));
        assert(decreases_to!(rest[i] => rest[i].1));
        if counter < u32::MAX {
            lemma_lit_37();
            lemma_piece(out, "cmpl $0, %eax\nje _clause"@);
            lemma_nat_decimal_quiet(counter as nat);
            lemma_piece(out + "cmpl $0, %eax\nje _clause"@, nat_decimal(counter as nat));
            lemma_chain(out, out + "cmpl $0, %eax\nje _clause"@, out + "cmpl $0, %eax\nje _clause"@ + nat_decimal(counter as nat));
            lemma_lit_38();
            lemma_piece(out + "cmpl $0, %eax\nje _clause"@ + nat_decimal(counter as nat), "\nmovl $1, %eax\njmp _end"@);
            lemma_chain(out, out + "cmpl $0, %eax\nje _clause"@ + nat_decimal(counter as nat), out + "cmpl $0, %eax\nje _clause"@ + nat_decimal(counter as nat) + "\nmovl $1, %eax\njmp _end"@);
            lemma_nat_decimal_quiet(counter as nat);
            lemma_piece(out + "cmpl $0, %eax\nje _clause"@ + nat_decimal(counter as nat) + "\nmovl $1, %eax\njmp _end"@, nat_decimal(counter as nat));
            lemma_chain(out, out + "cmpl $0, %eax\nje _clause"@ + nat_decimal(counter as nat) + "\nmovl $1, %eax\njmp _end"@, out + "cmpl $0, %eax\nje _clause"@ + nat_decimal(counter as nat) + "\nmovl $1, %eax\njmp _end"@ + nat_decimal(counter as nat));
            lemma_lit_36();
            lemma_piece(out + "cmpl $0, %eax\nje _clause"@ + nat_decimal(counter as nat) + "\nmovl $1, %eax\njmp _end"@ + nat_decimal(counter as nat), "\n_clause"@);
            lemma_chain(out, out + "cmpl $0, %eax\nje _clause"@ + nat_decimal(counter as nat) + "\nmovl $1, %eax\njmp _end"@ + nat_decimal(counter as nat), out + "cmpl $0, %eax\nje _clause"@ + nat_decimal(counter as nat) + "\nmovl $1, %eax\njmp _end"@ + nat_decimal(counter as nat) + "\n_clause"@);
            lemma_nat_decimal_quiet(counter as nat);
            lemma_piece(out + "cmpl $0, %eax\nje _clause"@ + nat_decimal(counter as nat) + "\nmovl $1, %eax\njmp _end"@ + nat_decimal(counter as nat) + "\n_clause"@, nat_decimal(counter as nat));
            lemma_chain(out, out + "cmpl $0, %eax\nje _clause"@ + nat_decimal(counter as nat) + "\nmovl $1, %eax\njmp _end"@ + nat_decimal(counter as nat) + "\n_clause"@, out + "cmpl $0, %eax\nje _clause"@ + nat_decimal(counter as nat) + "\nmovl $1, %eax\njmp _end"@ + nat_decimal(counter as nat) + "\n_clause"@ + nat_decimal(counter as nat));
            lemma_lit_12();
            lemma_piece(out + "cmpl $0, %eax\nje _clause"@ + nat_decimal(counter as nat) + "\nmovl $1, %eax\njmp _end"@ + nat_decimal(counter as nat) + "\n_clause"@ + nat_decimal(counter as nat), ":\n"@);
            lemma_chain(out, out + "cmpl $0, %eax\nje _clause"@ + nat_decimal(counter as nat) + "\nmovl $1, %eax\njmp _end"@ + nat_decimal(counter as nat) + "\n_clause"@ + nat_decimal(counter as nat), out + "cmpl $0, %eax\nje _clause"@ + nat_decimal(counter as nat) + "\nmovl $1, %eax\njmp _end"@ + nat_decimal(counter as nat) + "\n_clause"@ + nat_decimal(counter as nat) + ":\n"@);
            lemma_stack_log_and_expr(rest[i].1, vars, counter + 1, out + "cmpl $0, %eax\nje _clause"@ + nat_decimal(counter as nat) + "\nmovl $1, %eax\njmp _end"@ + nat_decimal(counter as nat) + "\n_clause"@ + nat_decimal(counter as nat) + ":\n"@);
            if let Ok((o, c)) = gen_log_and_expr_spec(rest[i].1, vars, counter + 1, out + "cmpl $0, %eax\nje _clause"@ + nat_decimal(counter as nat) + "\nmovl $1, %eax\njmp _end"@ + nat_decimal(counter as nat) + "\n_clause"@ + nat_decimal(counter as nat) + ":\n"@) {
                lemma_chain(out, out + "cmpl $0, %eax\nje _clause"@ + nat_decimal(counter as nat) + "\nmovl $1, %eax\njmp _end"@ + nat_decimal(counter as nat) + "\n_clause"@ + nat_decimal(counter as nat) + ":\n"@, o);
                lemma_lit_16();
                lemma_piece(o, "cmpl $0, %eax\nmovl $0, %eax\nsetne %al\n_end"@);
                lemma_nat_decimal_quiet(counter as nat);
                lemma_piece(o + "cmpl $0, %eax\nmovl $0, %eax\nsetne %al\n_end"@, nat_decimal(counter as nat));
                lemma_chain(o, o + "cmpl $0, %eax\nmovl $0, %eax\nsetne %al\n_end"@, o + "cmpl $0, %eax\nmovl $0, %eax\nsetne %al\n_end"@ + nat_decimal(counter as nat));
                lemma_lit_12();
                lemma_piece(o + "cmpl $0, %eax\nmovl $0, %eax\nsetne %al\n_end"@ + nat_decimal(counter as nat), ":\n"@);
                lemma_chain(o, o + "cmpl $0, %eax\nmovl $0, %eax\nsetne %al\n_end"@ + nat_decimal(counter as nat), o + "cmpl $0, %eax\nmovl $0, %eax\nsetne %al\n_end"@ + nat_decimal(counter as nat) + ":\n"@);
                lemma_chain(out, o, o + "cmpl $0, %eax\nmovl $0, %eax\nsetne %al\n_end"@ + nat_decimal(counter as nat) + ":\n"@);
                lemma_stack_log_or_expr_rest(rest, i + 1, vars, c, o + "cmpl $0, %eax\nmovl $0, %eax\nsetne %al\n_end"@ + nat_decimal(counter as nat) + ":\n"@);
                if let Ok((o4, c4)) = gen_log_or_expr_rest(rest, i + 1, vars, c, o + "cmpl $0, %eax\nmovl $0, %eax\nsetne %al\n_end"@ + nat_decimal(counter as nat) + ":\n"@) {
                    lemma_chain(out, o + "cmpl $0, %eax\nmovl $0, %eax\nsetne %al\n_end"@ + nat_decimal(counter as nat) + ":\n"@, o4);
                }
            }
        }
    } else {
        lemma_zero(out);
    }
}

proof fn lemma_stack_conditional(e: SpecExpr, vars: Map<Seq<char>, i32>, counter: int, out: Seq<char>)
    ensures
        balanced(gen_conditional_spec(e, vars, counter, out), out),
    decreases e, 11nat, 0int,
{
    match e {
        SpecExpr::Cond(x) => {
            lemma_stack_log_or_expr(*x, vars, counter, out);
        },
        SpecExpr::Ternary(x, a, b) => {
            lemma_stack_log_or_expr(*x, vars, counter, out);
            if let Ok((o1, c1)) = gen_log_or_expr_spec(*x, vars, counter, out) {
                if c1 < u32::MAX {
                lemma_lit_8();
                lemma_piece(o1, "cmpl $0, %eax\nje _e"@);
                lemma_nat_decimal_quiet(c1 as nat);
                lemma_piece(o1 + "cmpl $0, %eax\nje _e"@, nat_decimal(c1 as nat));
                lemma_chain(o1, o1 + "cmpl $0, %eax\nje _e"@, o1 + "cmpl $0, %eax\nje _e"@ + nat_decimal(c1 as nat));
                lemma_lit_9();
                lemma_piece(o1 + "cmpl $0, %eax\nje _e"@ + nat_decimal(c1 as nat), "\n"@);
                lemma_chain(o1, o1 + "cmpl $0, %eax\nje _e"@ + nat_decimal(c1 as nat), o1 + "cmpl $0, %eax\nje _e"@ + nat_decimal(c1 as nat) + "\n"@);
                    lemma_chain(out, o1, o1 + "cmpl $0, %eax\nje _e"@ + nat_decimal(c1 as nat) + "\n"@);
                    lemma_stack_expr(*a, vars, c1 + 1, o1 + "cmpl $0, %eax\nje _e"@ + nat_decimal(c1 as nat) + "\n"@);
                    if let Ok((o2, c2)) = gen_expr_spec(*a, vars, c1 + 1, o1 + "cmpl $0, %eax\nje _e"@ + nat_decimal(c1 as nat) + "\n"@) {
                        lemma_chain(out, o1 + "cmpl $0, %eax\nje _e"@ + nat_decimal(c1 as nat) + "\n"@, o2);
                    lemma_lit_10();
                    lemma_piece(o2, "jmp _post_cond"@);
                    lemma_nat_decimal_quiet(c1 as nat);
                    lemma_piece(o2 + "jmp _post_cond"@, nat_decimal(c1 as nat));
                    lemma_chain(o2, o2 + "jmp _post_cond"@, o2 + "jmp _post_cond"@ + nat_decimal(c1 as nat));
                    lemma_lit_11();
                    lemma_piece(o2 + "jmp _post_cond"@ + nat_decimal(c1 as nat), "\n_e"@);
                    lemma_chain(o2, o2 + "jmp _post_cond"@ + nat_decimal(c1 as nat), o2 + "jmp _post_cond"@ + nat_decimal(c1 as nat) + "\n_e"@);
                    lemma_nat_decimal_quiet(c1 as nat);
                    lemma_piece(o2 + "jmp _post_cond"@ + nat_decimal(c1 as nat) + "\n_e"@, nat_decimal(c1 as nat));
                    lemma_chain(o2, o2 + "jmp _post_cond"@ + nat_decimal(c1 as nat) + "\n_e"@, o2 + "jmp _post_cond"@ + nat_decimal(c1 as nat) + "\n_e"@ + nat_decimal(c1 as nat));
                    lemma_lit_12();
                    lemma_piece(o2 + "jmp _post_cond"@ + nat_decimal(c1 as nat) + "\n_e"@ + nat_decimal(c1 as nat), ":\n"@);
                    lemma_chain(o2, o2 + "jmp _post_cond"@ + nat_decimal(c1 as nat) + "\n_e"@ + nat_decimal(c1 as nat), o2 + "jmp _post_cond"@ + nat_decimal(c1 as nat) + "\n_e"@ + nat_decimal(c1 as nat) + ":\n"@);
                        lemma_chain(out, o2, o2 + "jmp _post_cond"@ + nat_decimal(c1 as nat) + "\n_e"@ + nat_decimal(c1 as nat) + ":\n"@);
                        lemma_stack_conditional(*b, vars, c2, o2 + "jmp _post_cond"@ + nat_decimal(c1 as nat) + "\n_e"@ + nat_decimal(c1 as nat) + ":\n"@);
                        if let Ok((o3, c3)) = gen_conditional_spec(*b, vars, c2, o2 + "jmp _post_cond"@ + nat_decimal(c1 as nat) + "\n_e"@ + nat_decimal(c1 as nat) + ":\n"@) {
                            lemma_chain(out, o2 + "jmp _post_cond"@ + nat_decimal(c1 as nat) + "\n_e"@ + nat_decimal(c1 as nat) + ":\n"@, o3);
                        lemma_lit_13();
                        lemma_piece(o3, "_post_cond"@);
                        lemma_nat_decimal_quiet(c1 as nat);
                        lemma_piece(o3 + "_post_cond"@, nat_decimal(c1 as nat));
                        lemma_chain(o3, o3 + "_post_cond"@, o3 + "_post_cond"@ + nat_decimal(c1 as nat));
                        lemma_lit_12();
                        lemma_piece(o3 + "_post_cond"@ + nat_decimal(c1 as nat), ":\n"@);
                        lemma_chain(o3, o3 + "_post_cond"@ + nat_decimal(c1 as nat), o3 + "_post_cond"@ + nat_decimal(c1 as nat) + ":\n"@);
                            lemma_chain(out, o3, o3 + "_post_cond"@ + nat_decimal(c1 as nat) + ":\n"@);
                        }
                    }
                }
            }
        },
        _ => {
            lemma_zero(out);
        },
    }
}

proof fn lemma_stack_expr(e: SpecExpr, vars: Map<Seq<char>, i32>, counter: int, out: Seq<char>)
    ensures
        balanced(gen_expr_spec(e, vars, counter, out), out),
    decreases e, 12nat, 0int,
{
    match e {
        SpecExpr::Assign(name, x) => {
            lemma_stack_expr(*x, vars, counter, out);
            if let Ok((o, c)) = gen_expr_spec(*x, vars, counter, out) {
                if vars.contains_key(name) {
                    lemma_lit_14();
                    lemma_piece(o, "movl %eax, "@);
                    lemma_decimal_quiet(vars[name] as int);
                    lemma_piece(o + "movl %eax, "@, decimal(vars[name] as int));
                    lemma_chain(o, o + "movl %eax, "@, o + "movl %eax, "@ + decimal(vars[name] as int));
                    lemma_lit_15();
                    lemma_piece(o + "movl %eax, "@ + decimal(vars[name] as int), "(%ebp)\n"@);
                    lemma_chain(o, o + "movl %eax, "@ + decimal(vars[name] as int), o + "movl %eax, "@ + decimal(vars[name] as int) + "(%ebp)\n"@);
                    lemma_chain(out, o, o + "movl %eax, "@ + decimal(vars[name] as int) + "(%ebp)\n"@);
                }
            }
        },
        _ => {
            lemma_stack_conditional(e, vars, counter, out);
        },
    }
}

/// The code of an expression leaves the stack as it found it: the text that
/// it appends holds as many `push` instructions as `pop` instructions.
pub proof fn law_gen_expr_balanced(e: SpecExpr, vars: Map<Seq<char>, i32>, counter: int, out: Seq<char>)
    ensures
        gen_expr_spec(e, vars, counter, out) matches Ok((o, _)) ==> out.is_prefix_of(o) && pushes(
            o.skip(out.len() as int),
        ) == pops(o.skip(out.len() as int)),
{
    lemma_stack_expr(e, vars, counter, out);
}

} // verus!

//! Decimal text of 32-bit integers: the formatting that the code generator
//! emits and the parsing that the parser applies to literal tokens.
use vstd::prelude::*;

verus! {

/// Whether `c` is one of the ASCII digits `0` to `9`.
pub open spec fn is_ascii_digit(c: char) -> bool {
    '0' <= c && c <= '9'
}

/// The value of an ASCII digit.
pub open spec fn digit_value(c: char) -> int {
    c as int - '0' as int
}

/// The ASCII digit of a value in `0..10`.
pub open spec fn digit_char(d: int) -> char {
    (d + '0' as int) as char
}

/// Whether every character of `s` is an ASCII digit.
pub open spec fn all_ascii_digits(s: Seq<char>) -> bool {
    forall|i: int| 0 <= i < s.len() ==> #[trigger] is_ascii_digit(s[i])
}

/// The value of a sequence of decimal digits, most significant first.
pub open spec fn digits_value(s: Seq<char>) -> int
    decreases s.len(),
{
    if s.len() == 0 {
        0
    } else {
        digits_value(s.drop_last()) * 10 + digit_value(s.last())
    }
}

/// What `str::parse::<i32>` gives back: an optional sign, then at least one
/// ASCII digit and nothing else, with a value in the range of `i32`.
pub open spec fn parse_i32_spec(s: Seq<char>) -> Option<i32> {
    if s.len() == 0 {
        None
    } else {
        let digits = if s[0] == '-' || s[0] == '+' { s.skip(1) } else { s };
        if digits.len() == 0 || !all_ascii_digits(digits) {
            None
        } else {
            let v = if s[0] == '-' { -digits_value(digits) } else { digits_value(digits) };
            if i32::MIN <= v <= i32::MAX { Some(v as i32) } else { None }
        }
    }
}

/// The decimal digits of a natural number, without leading zeros.
pub open spec fn nat_decimal(n: nat) -> Seq<char>
    decreases n,
{
    if n < 10 {
        seq![digit_char(n as int)]
    } else {
        nat_decimal(n / 10) + seq![digit_char((n % 10) as int)]
    }
}

/// The decimal text of an integer, with a leading `-` when it is negative.
pub open spec fn decimal(n: int) -> Seq<char> {
    if n < 0 {
        seq!['-'] + nat_decimal((-n) as nat)
    } else {
        nat_decimal(n as nat)
    }
}

proof fn lemma_digits_value_nonneg(s: Seq<char>)
    requires
        all_ascii_digits(s),
    ensures
        digits_value(s) >= 0,
    decreases s.len(),
{
    if s.len() > 0 {
        assert(is_ascii_digit(s[s.len() - 1]));
        assert(all_ascii_digits(s.drop_last())) by {
            assert forall|i: int| 0 <= i < s.drop_last().len() implies #[trigger] is_ascii_digit(
                s.drop_last()[i],
            ) by {
                assert(is_ascii_digit(s[i]));
            }
        }
        lemma_digits_value_nonneg(s.drop_last());
    }
}

proof fn lemma_digit_char(d: int)
    requires
        0 <= d < 10,
    ensures
        is_ascii_digit(digit_char(d)),
        digit_value(digit_char(d)) == d,
{
}

pub(crate) proof fn lemma_nat_decimal(n: nat)
    ensures
        nat_decimal(n).len() >= 1,
        all_ascii_digits(nat_decimal(n)),
        digits_value(nat_decimal(n)) == n,
    decreases n,
{
    if n < 10 {
        let s = nat_decimal(n);
        assert(s.drop_last() =~= Seq::<char>::empty());
        lemma_digit_char(n as int);
        assert(s.last() == digit_char(n as int));
        assert(digits_value(s) == digits_value(s.drop_last()) * 10 + digit_value(s.last()));
    } else {
        lemma_nat_decimal(n / 10);
        let s = nat_decimal(n);
        let p = nat_decimal(n / 10);
        assert(s.drop_last() =~= p);
        lemma_digit_char((n % 10) as int);
        assert(n == (n / 10) * 10 + n % 10);
        assert(s.last() == digit_char((n % 10) as int));
        assert(digits_value(s) == digits_value(s.drop_last()) * 10 + digit_value(s.last()));
        assert forall|i: int| 0 <= i < s.len() implies #[trigger] is_ascii_digit(s[i]) by {
            if i < p.len() {
                assert(s[i] == p[i]);
                assert(is_ascii_digit(p[i]));
            }
        }
    }
}

/// The decimal text of every `i32` parses back to the same value.
pub proof fn law_parse_decimal_roundtrip(n: i32)
    ensures
        parse_i32_spec(decimal(n as int)) == Some(n),
{
    if n < 0 {
        let m = (-n) as nat;
        lemma_nat_decimal(m);
        let s = decimal(n as int);
        assert(s.skip(1) =~= nat_decimal(m));
        assert(s[0] == '-');
    } else {
        let m = n as nat;
        lemma_nat_decimal(m);
        let s = nat_decimal(m);
        assert(is_ascii_digit(s[0]));
    }
}

/// The text of a single decimal digit.
fn digit_str(d: u32) -> (s: &'static str)
    requires
        d < 10,
    ensures
        s@ == seq![digit_char(d as int)],
{
    proof {
        reveal_strlit("0");
        reveal_strlit("1");
        reveal_strlit("2");
        reveal_strlit("3");
        reveal_strlit("4");
        reveal_strlit("5");
        reveal_strlit("6");
        reveal_strlit("7");
        reveal_strlit("8");
        reveal_strlit("9");
    }
    match d {
        0 => "0",
        1 => "1",
        2 => "2",
        3 => "3",
        4 => "4",
        5 => "5",
        6 => "6",
        7 => "7",
        8 => "8",
        _ => "9",
    }
}

fn append_nat_decimal(s: &mut String, n: u32)
    ensures
        final(s)@ == old(s)@ + nat_decimal(n as nat),
    decreases n,
{
    if n >= 10 {
        append_nat_decimal(s, n / 10);
    }
    s.append(digit_str(n % 10));
    proof {
        if n < 10 {
            assert(n % 10 == n);
        }
    }
}

/// Appends the decimal text of `n` to `s`.
pub fn append_decimal_u32(s: &mut String, n: u32)
    ensures
        final(s)@ == old(s)@ + nat_decimal(n as nat),
{
    append_nat_decimal(s, n);
}

/// Appends the decimal text of `n` to `s`.
pub fn append_decimal(s: &mut String, n: i32)
    ensures
        final(s)@ == old(s)@ + decimal(n as int),
{
    if n < 0 {
        proof {
            reveal_strlit("-");
        }
        s.append("-");
        let m: u32 = (-(n as i64)) as u32;
        append_nat_decimal(s, m);
    } else {
        append_nat_decimal(s, n as u32);
    }
}

/// Parses a decimal integer as `str::parse::<i32>` does: `None` where
/// that gives back an error.
pub fn parse_i32(s: &str) -> (r: Option<i32>)
    ensures
        r == parse_i32_spec(s@),
{
    let n = s.unicode_len();
    if n == 0 {
        return None;
    }
    let c0 = s.get_char(0);
    let start: usize = if c0 == '-' || c0 == '+' { 1 } else { 0 };
    if start == n {
        proof {
            assert(s@.skip(1).len() == 0);
        }
        return None;
    }
    let ghost digits = if c0 == '-' || c0 == '+' { s@.skip(1) } else { s@ };
    assert(digits =~= s@.subrange(start as int, n as int));
    let mut acc: i64 = 0;
    let mut big = false;
    let mut i: usize = start;
    while i < n
        invariant
            n == s@.len(),
            c0 == s@[0],
            digits == (if s@[0] == '-' || s@[0] == '+' { s@.skip(1) } else { s@ }),
            start <= i <= n,
            digits == s@.subrange(start as int, n as int),
            all_ascii_digits(s@.subrange(start as int, i as int)),
            !big ==> acc == digits_value(s@.subrange(start as int, i as int)),
            !big ==> 0 <= acc <= 2147483648,
            big ==> digits_value(s@.subrange(start as int, i as int)) > 2147483648,
        decreases n - i,
    {
        let c = s.get_char(i);
        let ghost prev = s@.subrange(start as int, i as int);
        let ghost next = s@.subrange(start as int, i + 1);
        assert(next.drop_last() =~= prev);
        assert(next.last() == c);
        if !('0' <= c && c <= '9') {
            proof {
                assert(digits[i - start] == c);
                assert(!is_ascii_digit(digits[i - start]));
                assert(!all_ascii_digits(digits));
                assert(s@[0] == c0);
            }
            return None;
        }
        assert(all_ascii_digits(next)) by {
            assert forall|j: int| 0 <= j < next.len() implies #[trigger] is_ascii_digit(next[j]) by {
                if j < prev.len() {
                    assert(next[j] == prev[j]);
                }
            }
        }
        proof {
            lemma_digits_value_nonneg(prev);
        }
        if !big {
            let d: i64 = (c as u32 - '0' as u32) as i64;
            acc = acc * 10 + d;
            if acc > 2147483648 {
                big = true;
            }
        }
        i += 1;
    }
    assert(s@.subrange(start as int, n as int) =~= digits);
    if big {
        return None;
    }
    if c0 == '-' {
        Some((-acc) as i32)
    } else if acc <= 2147483647 {
        Some(acc as i32)
    } else {
        None
    }
}

/// A text that `parse_i32` accepts is an optional sign followed by at least
/// one ASCII digit and nothing else, and its value is the digits' value with
/// that sign.
pub proof fn law_parse_i32_shape(s: Seq<char>)
    ensures
        parse_i32_spec(s) matches Some(v) ==> {
            let body = if s[0] == '-' || s[0] == '+' { s.skip(1) } else { s };
            &&& s.len() > 0
            &&& body.len() > 0
            &&& forall|i: int| 0 <= i < body.len() ==> '0' <= #[trigger] body[i] && body[i] <= '9'
            &&& v == if s[0] == '-' { -digits_value(body) } else { digits_value(body) }
        },
{
    if let Some(v) = parse_i32_spec(s) {
        let body = if s[0] == '-' || s[0] == '+' { s.skip(1) } else { s };
        assert forall|i: int| 0 <= i < body.len() implies '0' <= #[trigger] body[i] && body[i] <= '9' by {
            assert(is_ascii_digit(body[i]));
        }
    }
}

} // verus!

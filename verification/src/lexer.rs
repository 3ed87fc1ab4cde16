//! The lexer: splits C source text into tokens.
//!
//! It tries a fixed list of regular expressions in order; a match becomes a
//! token unless one of its bytes is already covered by an earlier token.
//! The tokens come out ordered by where they start.
use vstd::prelude::*;
use std::collections::HashSet;
use vstd::utf8::is_ascii_chars;
use crate::numbers::{all_ascii_digits, is_ascii_digit};
use crate::pattern::{
    RawMatch, char_is_numeric, compile_pattern, find_matches, is_numeric_char,
    pattern_compiles, regex_find_all,
};

verus! {

/// The kinds of token that the lexer produces.
#[derive(Debug, PartialEq, Eq, Structural, Copy, Clone)]
pub enum TokenType {
    LBrace,
    RBrace,
    LParen,
    RParen,
    Semicolon,
    Integer,
    Return,
    Identifier,
    Literal,
    Minus,
    BitComplement,
    LogicalNeg,
    Addition,
    Multiplication,
    Division,
    And,
    Or,
    Equal,
    NotEqual,
    LessThan,
    LessThanEqual,
    GreaterThan,
    GreaterThanEqual,
    Modulo,
    LBitShift,
    RBitShift,
    BitAnd,
    BitOr,
    BitXOr,
    Assign,
    AssignPlus,
    AssignMinus,
    AssignDivide,
    AssignMult,
    AssignMod,
    AssignLBitShift,
    AssignRBitShift,
    AssignBitAnd,
    AssignBitOr,
    AssignBitXOr,
    If,
    Else,
    Colon,
    QuestionMark,
}

/// A token: its text, its kind, and the byte range `start..end` of the
/// source text that it covers.
#[derive(Debug)]
pub struct Token {
    pub text: String,
    pub token_type: TokenType,
    pub start: u64,
    pub end: u64,
}

/// A token as a mathematical value.
pub struct SpecToken {
    pub text: Seq<char>,
    pub token_type: TokenType,
    pub start: u64,
    pub end: u64,
}

impl View for Token {
    type V = SpecToken;

    open spec fn view(&self) -> SpecToken {
        SpecToken {
            text: self.text@,
            token_type: self.token_type,
            start: self.start,
            end: self.end,
        }
    }
}

/// The tokens of a sequence, each as a mathematical value.
pub open spec fn token_views(ts: Seq<Token>) -> Seq<SpecToken> {
    ts.map_values(|t: Token| t@)
}


/// The number of patterns that the lexer tries.
pub const NUM_PATTERNS: usize = 44;

/// The `k`-th pattern that the lexer tries: punctuation, the keywords
/// `int`, `return`, `if` and `else` (each only as a whole word), identifiers,
/// numbers, then the operators, longer ones before shorter ones.
pub open spec fn lex_pattern(k: int) -> Seq<char> {
    if k == 0 {
        "\\{"@
    } else if k == 1 {
        "\\}"@
    } else if k == 2 {
        "\\("@
    } else if k == 3 {
        "\\)"@
    } else if k == 4 {
        ";"@
    } else if k == 5 {
        ":"@
    } else if k == 6 {
        "\\?"@
    } else if k == 7 {
        "\\bint\\b"@
    } else if k == 8 {
        "\\breturn\\b"@
    } else if k == 9 {
        "\\bif\\b"@
    } else if k == 10 {
        "\\belse\\b"@
    } else if k == 11 {
        "[a-zA-Z_]\\w*"@
    } else if k == 12 {
        "[0-9]+"@
    } else if k == 13 {
        "=="@
    } else if k == 14 {
        "<="@
    } else if k == 15 {
        ">="@
    } else if k == 16 {
        "!="@
    } else if k == 17 {
        "\\+="@
    } else if k == 18 {
        "-="@
    } else if k == 19 {
        "\\*="@
    } else if k == 20 {
        "/="@
    } else if k == 21 {
        "%="@
    } else if k == 22 {
        "<<="@
    } else if k == 23 {
        ">>="@
    } else if k == 24 {
        "&="@
    } else if k == 25 {
        "\\|="@
    } else if k == 26 {
        "^="@
    } else if k == 27 {
        "~"@
    } else if k == 28 {
        "!"@
    } else if k == 29 {
        "\\+"@
    } else if k == 30 {
        "-"@
    } else if k == 31 {
        "\\*"@
    } else if k == 32 {
        "/"@
    } else if k == 33 {
        "%"@
    } else if k == 34 {
        "<<"@
    } else if k == 35 {
        ">>"@
    } else if k == 36 {
        "&&"@
    } else if k == 37 {
        "\\|\\|"@
    } else if k == 38 {
        "="@
    } else if k == 39 {
        "<"@
    } else if k == 40 {
        ">"@
    } else if k == 41 {
        "&"@
    } else if k == 42 {
        "\\|"@
    } else {
        "\\^"@
    }
}

/// The `k`-th pattern that the lexer tries.
pub fn pattern_at(k: usize) -> (p: &'static str)
    requires
        k < NUM_PATTERNS,
    ensures
        p@ == lex_pattern(k as int),
{
    if k == 0 {
        "\\{"
    } else if k == 1 {
        "\\}"
    } else if k == 2 {
        "\\("
    } else if k == 3 {
        "\\)"
    } else if k == 4 {
        ";"
    } else if k == 5 {
        ":"
    } else if k == 6 {
        "\\?"
    } else if k == 7 {
        "\\bint\\b"
    } else if k == 8 {
        "\\breturn\\b"
    } else if k == 9 {
        "\\bif\\b"
    } else if k == 10 {
        "\\belse\\b"
    } else if k == 11 {
        "[a-zA-Z_]\\w*"
    } else if k == 12 {
        "[0-9]+"
    } else if k == 13 {
        "=="
    } else if k == 14 {
        "<="
    } else if k == 15 {
        ">="
    } else if k == 16 {
        "!="
    } else if k == 17 {
        "\\+="
    } else if k == 18 {
        "-="
    } else if k == 19 {
        "\\*="
    } else if k == 20 {
        "/="
    } else if k == 21 {
        "%="
    } else if k == 22 {
        "<<="
    } else if k == 23 {
        ">>="
    } else if k == 24 {
        "&="
    } else if k == 25 {
        "\\|="
    } else if k == 26 {
        "^="
    } else if k == 27 {
        "~"
    } else if k == 28 {
        "!"
    } else if k == 29 {
        "\\+"
    } else if k == 30 {
        "-"
    } else if k == 31 {
        "\\*"
    } else if k == 32 {
        "/"
    } else if k == 33 {
        "%"
    } else if k == 34 {
        "<<"
    } else if k == 35 {
        ">>"
    } else if k == 36 {
        "&&"
    } else if k == 37 {
        "\\|\\|"
    } else if k == 38 {
        "="
    } else if k == 39 {
        "<"
    } else if k == 40 {
        ">"
    } else if k == 41 {
        "&"
    } else if k == 42 {
        "\\|"
    } else {
        "\\^"
    }
}

/// The kind of a one-character token.
pub open spec fn one_char_type(c: char) -> TokenType {
    if c == '{' {
        TokenType::LBrace
    } else if c == '}' {
        TokenType::RBrace
    } else if c == '(' {
        TokenType::LParen
    } else if c == ')' {
        TokenType::RParen
    } else if c == ';' {
        TokenType::Semicolon
    } else if c == '~' {
        TokenType::BitComplement
    } else if c == '!' {
        TokenType::LogicalNeg
    } else if c == '+' {
        TokenType::Addition
    } else if c == '-' {
        TokenType::Minus
    } else if c == '*' {
        TokenType::Multiplication
    } else if c == '/' {
        TokenType::Division
    } else if c == '%' {
        TokenType::Modulo
    } else if c == '<' {
        TokenType::LessThan
    } else if c == '>' {
        TokenType::GreaterThan
    } else if c == '&' {
        TokenType::BitAnd
    } else if c == '|' {
        TokenType::BitOr
    } else if c == '^' {
        TokenType::BitXOr
    } else if c == '=' {
        TokenType::Assign
    } else if c == '?' {
        TokenType::QuestionMark
    } else if c == ':' {
        TokenType::Colon
    } else {
        TokenType::Identifier
    }
}

/// The kind of a two-character token.
pub open spec fn two_char_type(a: char, b: char) -> TokenType {
    if a == '&' && b == '&' {
        TokenType::And
    } else if a == '|' && b == '|' {
        TokenType::Or
    } else if a == '=' && b == '=' {
        TokenType::Equal
    } else if a == '!' && b == '=' {
        TokenType::NotEqual
    } else if a == '<' && b == '=' {
        TokenType::LessThanEqual
    } else if a == '>' && b == '=' {
        TokenType::GreaterThanEqual
    } else if a == '<' && b == '<' {
        TokenType::LBitShift
    } else if a == '>' && b == '>' {
        TokenType::RBitShift
    } else if a == '+' && b == '=' {
        TokenType::AssignPlus
    } else if a == '-' && b == '=' {
        TokenType::AssignMinus
    } else if a == '*' && b == '=' {
        TokenType::AssignMult
    } else if a == '/' && b == '=' {
        TokenType::AssignDivide
    } else if a == '%' && b == '=' {
        TokenType::AssignMod
    } else if a == '&' && b == '=' {
        TokenType::AssignBitAnd
    } else if a == '|' && b == '=' {
        TokenType::AssignBitOr
    } else if a == '^' && b == '=' {
        TokenType::AssignBitXOr
    } else if a == 'i' && b == 'f' {
        TokenType::If
    } else {
        TokenType::Identifier
    }
}

/// The kind of a token by its text: the punctuation, operators and
/// keywords that the lexer knows, and an identifier for any other text.
pub open spec fn keyword_type(s: Seq<char>) -> TokenType {
    if s.len() == 1 {
        one_char_type(s[0])
    } else if s.len() == 2 {
        two_char_type(s[0], s[1])
    } else if s.len() == 3 && s[0] == '<' && s[1] == '<' && s[2] == '=' {
        TokenType::AssignLBitShift
    } else if s.len() == 3 && s[0] == '>' && s[1] == '>' && s[2] == '=' {
        TokenType::AssignRBitShift
    } else if s.len() == 3 && s[0] == 'i' && s[1] == 'n' && s[2] == 't' {
        TokenType::Integer
    } else if s.len() == 4 && s[0] == 'e' && s[1] == 'l' && s[2] == 's' && s[3] == 'e' {
        TokenType::Else
    } else if s.len() == 6 && s[0] == 'r' && s[1] == 'e' && s[2] == 't' && s[3] == 'u' && s[4]
        == 'r' && s[5] == 'n' {
        TokenType::Return
    } else {
        TokenType::Identifier
    }
}

/// Whether every character of `s` is numeric in the sense of `char::is_numeric`.
pub open spec fn all_numeric(s: Seq<char>) -> bool {
    forall|i: int| 0 <= i < s.len() ==> #[trigger] is_numeric_char(s[i])
}

/// The kind of a token: a literal where all its characters are numeric,
/// else its kind by its text.
pub open spec fn token_type_of(s: Seq<char>) -> TokenType {
    if all_numeric(s) {
        TokenType::Literal
    } else {
        keyword_type(s)
    }
}

fn one_char_type_exec(c: char) -> (t: TokenType)
    ensures
        t == one_char_type(c),
{
    match c {
        '{' => TokenType::LBrace,
        '}' => TokenType::RBrace,
        '(' => TokenType::LParen,
        ')' => TokenType::RParen,
        ';' => TokenType::Semicolon,
        '~' => TokenType::BitComplement,
        '!' => TokenType::LogicalNeg,
        '+' => TokenType::Addition,
        '-' => TokenType::Minus,
        '*' => TokenType::Multiplication,
        '/' => TokenType::Division,
        '%' => TokenType::Modulo,
        '<' => TokenType::LessThan,
        '>' => TokenType::GreaterThan,
        '&' => TokenType::BitAnd,
        '|' => TokenType::BitOr,
        '^' => TokenType::BitXOr,
        '=' => TokenType::Assign,
        '?' => TokenType::QuestionMark,
        ':' => TokenType::Colon,
        _ => TokenType::Identifier,
    }
}

fn two_char_type_exec(a: char, b: char) -> (t: TokenType)
    ensures
        t == two_char_type(a, b),
{
    match (a, b) {
        ('&', '&') => TokenType::And,
        ('|', '|') => TokenType::Or,
        ('=', '=') => TokenType::Equal,
        ('!', '=') => TokenType::NotEqual,
        ('<', '=') => TokenType::LessThanEqual,
        ('>', '=') => TokenType::GreaterThanEqual,
        ('<', '<') => TokenType::LBitShift,
        ('>', '>') => TokenType::RBitShift,
        ('+', '=') => TokenType::AssignPlus,
        ('-', '=') => TokenType::AssignMinus,
        ('*', '=') => TokenType::AssignMult,
        ('/', '=') => TokenType::AssignDivide,
        ('%', '=') => TokenType::AssignMod,
        ('&', '=') => TokenType::AssignBitAnd,
        ('|', '=') => TokenType::AssignBitOr,
        ('^', '=') => TokenType::AssignBitXOr,
        ('i', 'f') => TokenType::If,
        _ => TokenType::Identifier,
    }
}

/// The kind of a token by its text.
pub fn keyword_type_exec(s: &str) -> (t: TokenType)
    ensures
        t == keyword_type(s@),
{
    let n = s.unicode_len();
    if n == 1 {
        one_char_type_exec(s.get_char(0))
    } else if n == 2 {
        two_char_type_exec(s.get_char(0), s.get_char(1))
    } else if n == 3 {
        let a = s.get_char(0);
        let b = s.get_char(1);
        let c = s.get_char(2);
        if a == '<' && b == '<' && c == '=' {
            TokenType::AssignLBitShift
        } else if a == '>' && b == '>' && c == '=' {
            TokenType::AssignRBitShift
        } else if a == 'i' && b == 'n' && c == 't' {
            TokenType::Integer
        } else {
            TokenType::Identifier
        }
    } else if n == 4 {
        if s.get_char(0) == 'e' && s.get_char(1) == 'l' && s.get_char(2) == 's' && s.get_char(3)
            == 'e' {
            TokenType::Else
        } else {
            TokenType::Identifier
        }
    } else if n == 6 {
        if s.get_char(0) == 'r' && s.get_char(1) == 'e' && s.get_char(2) == 't' && s.get_char(3)
            == 'u' && s.get_char(4) == 'r' && s.get_char(5) == 'n' {
            TokenType::Return
        } else {
            TokenType::Identifier
        }
    } else {
        TokenType::Identifier
    }
}

/// Whether every character of `s` is numeric.
pub fn all_numeric_exec(s: &str) -> (b: bool)
    ensures
        b == all_numeric(s@),
        numeric_is_digits(s@),
{
    let n = s.unicode_len();
    let mut i: usize = 0;
    while i < n
        invariant
            n == s@.len(),
            0 <= i <= n,
            forall|j: int| 0 <= j < i ==> #[trigger] is_numeric_char(s@[j]),
            forall|j: int| 0 <= j < i ==> #[trigger] s@[j] <= '\x7f' ==> '0' <= s@[j] && s@[j] <= '9',
        decreases n - i,
    {
        let c = s.get_char(i);
        let numeric = char_is_numeric(c);
        if !numeric {
            assert(!all_numeric(s@) && (is_ascii_chars(s@) ==> !all_ascii_digits(s@))) by {
                assert(s@[i as int] == c);
                assert(!is_numeric_char(s@[i as int]));
                if is_ascii_chars(s@) {
                    assert(s@[i as int] <= '\x7f');
                    assert(!is_ascii_digit(s@[i as int]));
                }
            }
            return false;
        }
        i += 1;
    }
    true
}

/// The kind of a token with text `s`.
pub fn token_type_exec(s: &str) -> (t: TokenType)
    ensures
        t == token_type_of(s@),
        numeric_is_digits(s@),
{
    if all_numeric_exec(s) {
        TokenType::Literal
    } else {
        keyword_type_exec(s)
    }
}

/// Whether the closed interval `interval` meets one of `intervals`.
pub fn in_interval_set(interval: (u64, u64), intervals: &Vec<(u64, u64)>) -> (r: bool)
    ensures
        r == exists|j: int|
            0 <= j < intervals@.len() && interval.0 <= (#[trigger] intervals@[j]).1 && interval.1
                >= intervals@[j].0,
{
    let mut j: usize = 0;
    while j < intervals.len()
        invariant
            0 <= j <= intervals.len(),
            forall|q: int|
                0 <= q < j ==> !(interval.0 <= (#[trigger] intervals@[q]).1 && interval.1
                    >= intervals@[q].0),
        decreases intervals.len() - j,
    {
        let other = intervals[j];
        if interval.0 <= other.1 && interval.1 >= other.0 {
            return true;
        }
        j += 1;
    }
    false
}

/// The matches of a list, each as a mathematical value.
pub open spec fn matches_view(ms: Seq<RawMatch>) -> Seq<(usize, usize, Seq<char>)> {
    ms.map_values(|m: RawMatch| m@)
}

/// The matches of each pattern, as mathematical values.
pub open spec fn all_matches_view(rs: Seq<Vec<RawMatch>>) -> Seq<Seq<(usize, usize, Seq<char>)>> {
    rs.map_values(|v: Vec<RawMatch>| matches_view(v@))
}

/// Whether one of the bytes that a match covers is in `claimed`.
pub open spec fn span_claimed(claimed: Set<u64>, m: (usize, usize, Seq<char>)) -> bool {
    exists|i: int| m.0 <= i < m.1 && #[trigger] claimed.contains(i as u64)
}

/// The bytes that a match covers.
pub open spec fn span_set(m: (usize, usize, Seq<char>)) -> Set<u64> {
    Set::new(|i: u64| m.0 <= i < m.1)
}

/// The matches of `ms` that cover no byte of `claimed`, in their order.
pub open spec fn unclaimed_matches(ms: Seq<(usize, usize, Seq<char>)>, claimed: Set<u64>) -> Seq<
    (usize, usize, Seq<char>),
>
    decreases ms.len(),
{
    if ms.len() == 0 {
        Seq::empty()
    } else {
        let r = unclaimed_matches(ms.drop_last(), claimed);
        if span_claimed(claimed, ms.last()) {
            r
        } else {
            r.push(ms.last())
        }
    }
}

/// `claimed` and the bytes that the matches of `kept` cover.
pub open spec fn claim_all(claimed: Set<u64>, kept: Seq<(usize, usize, Seq<char>)>) -> Set<u64>
    decreases kept.len(),
{
    if kept.len() == 0 {
        claimed
    } else {
        claim_all(claimed, kept.drop_last()).union(span_set(kept.last()))
    }
}

/// The token that a match becomes.
pub open spec fn token_of_match(m: (usize, usize, Seq<char>)) -> SpecToken {
    SpecToken { text: m.2, token_type: token_type_of(m.2), start: m.0 as u64, end: m.1 as u64 }
}

/// The tokens of a list of matches.
pub open spec fn tokens_of_matches(ms: Seq<(usize, usize, Seq<char>)>) -> Seq<SpecToken> {
    ms.map_values(|m: (usize, usize, Seq<char>)| token_of_match(m))
}

/// After the matches of the first `k` patterns: the bytes covered by tokens
/// and the tokens, in the order in which they were made.
pub open spec fn lex_state(rs: Seq<Seq<(usize, usize, Seq<char>)>>, k: int) -> (
    Set<u64>,
    Seq<SpecToken>,
)
    decreases k,
{
    if k <= 0 {
        (Set::empty(), Seq::empty())
    } else {
        let (claimed, toks) = lex_state(rs, k - 1);
        let kept = unclaimed_matches(rs[k - 1], claimed);
        (claim_all(claimed, kept), toks + tokens_of_matches(kept))
    }
}

/// `s` with `t` put after every token that does not start after it.
pub open spec fn insert_by_start(s: Seq<SpecToken>, t: SpecToken) -> Seq<SpecToken>
    decreases s.len(),
{
    if s.len() == 0 || s.last().start <= t.start {
        s.push(t)
    } else {
        insert_by_start(s.drop_last(), t).push(s.last())
    }
}

/// The stable sort of tokens by their start.
pub open spec fn sort_by_start(s: Seq<SpecToken>) -> Seq<SpecToken>
    decreases s.len(),
{
    if s.len() == 0 {
        s
    } else {
        insert_by_start(sort_by_start(s.drop_last()), s.last())
    }
}

/// The tokens that the matches of all patterns give, ordered by start.
pub open spec fn lex_spec(rs: Seq<Seq<(usize, usize, Seq<char>)>>) -> Seq<SpecToken> {
    sort_by_start(lex_state(rs, rs.len() as int).1)
}

/// The matches of every pattern in `text`, where there are.
pub open spec fn pattern_results(text: Seq<char>) -> Seq<Seq<(usize, usize, Seq<char>)>> {
    Seq::new(
        NUM_PATTERNS as nat,
        |k: int|
            match regex_find_all(lex_pattern(k), text) {
                Some(ms) => ms,
                None => Seq::empty(),
            },
    )
}

/// Whether every pattern compiles and can be searched for in `text`.
pub open spec fn lexable(text: Seq<char>) -> bool {
    forall|k: int|
        0 <= k < NUM_PATTERNS ==> pattern_compiles(#[trigger] lex_pattern(k)) && regex_find_all(
            lex_pattern(k),
            text,
        ) is Some
}

proof fn lemma_insert_by_start(s: Seq<SpecToken>, t: SpecToken, j: int)
    requires
        0 <= j <= s.len(),
        forall|q: int| j <= q < s.len() ==> (#[trigger] s[q]).start > t.start,
        j == 0 || s[j - 1].start <= t.start,
    ensures
        insert_by_start(s, t) == s.insert(j, t),
    decreases s.len(),
{
    if s.len() == 0 || s.last().start <= t.start {
        if j < s.len() {
            assert(s[s.len() - 1].start > t.start);
        }
        assert(s.insert(j, t) =~= s.push(t));
    } else {
        lemma_insert_by_start(s.drop_last(), t, j);
        assert(s.drop_last().insert(j, t).push(s.last()) =~= s.insert(j, t));
    }
}

/// Puts `t` into `tokens` after every token that does not start after it.
fn insert_token(tokens: &mut Vec<Token>, t: Token)
    ensures
        token_views(final(tokens)@) == insert_by_start(token_views(old(tokens)@), t@),
        final(tokens)@.len() == old(tokens)@.len() + 1,
        forall|q: int|
            0 <= q < final(tokens)@.len() ==> #[trigger] final(tokens)@[q] == t || old(
                tokens,
            )@.contains(final(tokens)@[q]),
{
    let mut j = tokens.len();
    while j > 0 && tokens[j - 1].start > t.start
        invariant
            j <= tokens.len(),
            forall|q: int| j <= q < tokens.len() ==> (#[trigger] tokens@[q]).start > t.start,
        decreases j,
    {
        j -= 1;
    }
    proof {
        lemma_insert_by_start(token_views(tokens@), t@, j as int);
    }
    let ghost before = tokens@;
    let ghost tv = t;
    tokens.insert(j, t);
    assert(token_views(tokens@) =~= token_views(before).insert(j as int, tv@));
    assert forall|q: int| 0 <= q < tokens@.len() implies #[trigger] tokens@[q] == tv || before.contains(
        tokens@[q],
    ) by {
        if q < j {
            assert(tokens@[q] == before[q]);
        } else if q > j {
            assert(tokens@[q] == before[q - 1]);
        }
    }
}

/// Whether one of the bytes `start..end` is in `claimed`.
fn span_is_claimed(claimed: &HashSet<u64>, start: usize, end: usize) -> (r: bool)
    ensures
        r == (exists|i: int| start <= i < end && #[trigger] claimed@.contains(i as u64)),
{
    broadcast use vstd::std_specs::hash::group_hash_axioms;

    let mut i = start;
    while i < end
        invariant
            start <= i,
            forall|q: int| start <= q < i ==> !(#[trigger] claimed@.contains(q as u64)),
        decreases end - i,
    {
        if claimed.contains(&(i as u64)) {
            return true;
        }
        i += 1;
    }
    false
}

/// Adds the bytes `start..end` to `claimed`.
fn claim_span(claimed: &mut HashSet<u64>, start: usize, end: usize)
    ensures
        final(claimed)@ == old(claimed)@.union(Set::new(|i: u64| start <= i < end)),
{
    broadcast use vstd::std_specs::hash::group_hash_axioms;

    let ghost first = claimed@;
    let mut i = start;
    while i < end
        invariant
            start <= i,
            start < end ==> i <= end,
            start >= end ==> i == start,
            claimed@ == first.union(Set::new(|q: u64| start <= q < i)),
        decreases end - i,
    {
        claimed.insert(i as u64);
        i += 1;
        assert(claimed@ =~= first.union(Set::new(|q: u64| start <= q < i)));
    }
    if start < end {
        assert(i == end);
    } else {
        assert(Set::new(|q: u64| start <= q < i) =~= Set::new(|q: u64| start <= q < end));
    }
}

/// The token that a match becomes.
fn make_token(m: &RawMatch) -> (t: Token)
    ensures
        t@ == token_of_match(m@),
        numeric_is_digits(m.text@),
{
    Token {
        text: m.text.clone(),
        token_type: token_type_exec(m.text.as_str()),
        start: m.start as u64,
        end: m.end as u64,
    }
}

/// Makes the tokens from the matches of each pattern, in the order of the
/// patterns: a match becomes a token unless a byte that it covers is covered
/// by a token of an earlier pattern. The tokens come out ordered by start,
/// those with the same start in the order in which they were made.
pub fn lex_matches(results: &Vec<Vec<RawMatch>>) -> (tokens: Vec<Token>)
    ensures
        token_views(tokens@) == lex_spec(all_matches_view(results@)),
        forall|i: int| 0 <= i < tokens@.len() ==> numeric_is_digits(#[trigger] tokens@[i].text@),
{
    let ghost rs = all_matches_view(results@);
    let mut claimed: HashSet<u64> = HashSet::new();
    let mut tokens: Vec<Token> = Vec::new();
    proof {
        broadcast use vstd::std_specs::hash::group_hash_axioms;

        assert(claimed@ =~= Set::<u64>::empty());
        assert(token_views(tokens@) =~= Seq::<SpecToken>::empty());
    }
    let mut k: usize = 0;
    while k < results.len()
        invariant
            0 <= k <= results.len(),
            rs == all_matches_view(results@),
            rs.len() == results.len(),
            claimed@ == lex_state(rs, k as int).0,
            token_views(tokens@) == sort_by_start(lex_state(rs, k as int).1),
            forall|q: int| 0 <= q < tokens@.len() ==> numeric_is_digits(#[trigger] tokens@[q].text@),
        decreases results.len() - k,
    {
        let ms = &results[k];
        let ghost msv = matches_view(ms@);
        assert(rs[k as int] == msv);
        let ghost claimed0 = claimed@;
        let ghost toks0 = lex_state(rs, k as int).1;
        let mut kept: Vec<RawMatch> = Vec::new();
        let mut i: usize = 0;
        assert(msv.take(0) =~= Seq::<(usize, usize, Seq<char>)>::empty());
        assert(matches_view(kept@) =~= Seq::<(usize, usize, Seq<char>)>::empty());
        while i < ms.len()
            invariant
                0 <= i <= ms.len(),
                msv == matches_view(ms@),
                claimed@ == claimed0,
                matches_view(kept@) == unclaimed_matches(msv.take(i as int), claimed0),
                forall|q: int| 0 <= q < tokens@.len() ==> numeric_is_digits(#[trigger] tokens@[q].text@),
            decreases ms.len() - i,
        {
            let m = &ms[i];
            assert(msv.take(i + 1).drop_last() =~= msv.take(i as int));
            assert(msv.take(i + 1).last() == m@);
            if !span_is_claimed(&claimed, m.start, m.end) {
                let ghost before = kept@;
                kept.push(RawMatch { start: m.start, end: m.end, text: m.text.clone() });
                assert(matches_view(kept@) =~= matches_view(before).push(m@));
            }
            i += 1;
        }
        assert(msv.take(ms.len() as int) =~= msv);
        let ghost keptv = matches_view(kept@);
        let mut j: usize = 0;
        assert(keptv.take(0) =~= Seq::<(usize, usize, Seq<char>)>::empty());
        assert(toks0 + tokens_of_matches(keptv.take(0)) =~= toks0);
        while j < kept.len()
            invariant
                0 <= j <= kept.len(),
                keptv == matches_view(kept@),
                claimed@ == claim_all(claimed0, keptv.take(j as int)),
                token_views(tokens@) == sort_by_start(toks0 + tokens_of_matches(keptv.take(j as int))),
                forall|q: int| 0 <= q < tokens@.len() ==> numeric_is_digits(#[trigger] tokens@[q].text@),
            decreases kept.len() - j,
        {
            let m = &kept[j];
            assert(keptv.take(j + 1).drop_last() =~= keptv.take(j as int));
            assert(keptv.take(j + 1).last() == m@);
            claim_span(&mut claimed, m.start, m.end);
            assert(Set::new(|q: u64| m.start <= q < m.end) =~= span_set(m@));
            let t = make_token(m);
            let ghost before = tokens@;
            let ghost tv = t;
            insert_token(&mut tokens, t);
            assert forall|q: int| 0 <= q < tokens@.len() implies numeric_is_digits(
                #[trigger] tokens@[q].text@,
            ) by {
                if tokens@[q] != tv {
                    let r = choose|r: int| 0 <= r < before.len() && before[r] == tokens@[q];
                    assert(numeric_is_digits(before[r].text@));
                }
            }
            proof {
                let prev = toks0 + tokens_of_matches(keptv.take(j as int));
                let next = toks0 + tokens_of_matches(keptv.take(j + 1));
                assert(next.drop_last() =~= prev);
                assert(next.last() == token_of_match(m@));
            }
            j += 1;
        }
        assert(keptv.take(kept.len() as int) =~= keptv);
        k += 1;
    }
    tokens
}

/// What `find_matches` states of the matches it found, read as the
/// mathematical values of the matches.
proof fn lemma_found_matches(ms: Seq<RawMatch>, file: Seq<char>)
    requires
        forall|k: int| 0 <= k < ms.len() ==> (#[trigger] ms[k]).start <= ms[k].end,
        forall|k: int| 0 <= k < ms.len() - 1 ==> (#[trigger] ms[k]).end <= ms[k + 1].start,
        is_ascii_chars(file) ==> forall|k: int|
            0 <= k < ms.len() ==> (#[trigger] ms[k]).end <= file.len() && ms[k].text@
                == file.subrange(ms[k].start as int, ms[k].end as int),
    ensures
        successive_matches(ms.map_values(|m: RawMatch| m@)),
        is_ascii_chars(file) ==> matches_from(ms.map_values(|m: RawMatch| m@), file),
{
    let mv = ms.map_values(|m: RawMatch| m@);
    assert forall|j: int| 0 <= j < mv.len() implies (#[trigger] mv[j]).0 <= mv[j].1 by {
        assert(mv[j] == ms[j]@);
    }
    assert forall|j: int| 0 <= j < mv.len() - 1 implies (#[trigger] mv[j]).1 <= mv[j + 1].0 by {
        assert(mv[j] == ms[j]@);
        assert(mv[j + 1] == ms[j + 1]@);
    }
    if is_ascii_chars(file) {
        assert forall|j: int| 0 <= j < mv.len() implies (#[trigger] mv[j]).0 <= mv[j].1 <= file.len()
            && mv[j].2 == file.subrange(mv[j].0 as int, mv[j].1 as int) by {
            assert(mv[j] == ms[j]@);
        }
    }
}

/// Lexes source text: the tokens of `lex_matches` for the matches of each
/// pattern in `text`, or `None` where a pattern does not compile or its
/// search fails.
#[verifier::rlimit(30)]
pub fn lex(file: &str) -> (r: Option<Vec<Token>>)
    ensures
        r is Some <==> lexable(file@),
        r matches Some(ts) ==> token_views(ts@) == lex_spec(pattern_results(file@)),
        r is Some ==> forall|q: int|
            0 <= q < NUM_PATTERNS ==> successive_matches(#[trigger] pattern_results(file@)[q]),
        r matches Some(ts) ==> sorted_by_start(token_views(ts@)) && pairwise_disjoint(
            token_views(ts@),
        ) && kinds_follow_text(token_views(ts@)),
        r matches Some(ts) ==> nonempty_in_order(token_views(ts@)) && literals_are_digits(
            token_views(ts@),
        ),
        r matches Some(ts) ==> is_ascii_chars(file@) ==> texts_from(token_views(ts@), file@),
        r matches Some(ts) ==> forall|i: int|
            0 <= i < ts@.len() ==> (spelled_kind(#[trigger] ts@[i].text@) matches Some(k)
                ==> ts@[i].token_type == k),
{
    let ghost pr = pattern_results(file@);
    let mut results: Vec<Vec<RawMatch>> = Vec::new();
    let mut k: usize = 0;
    while k < NUM_PATTERNS
        invariant
            0 <= k <= NUM_PATTERNS,
            pr == pattern_results(file@),
            results.len() == k,
            all_matches_view(results@) =~= pr.take(k as int),
            forall|q: int|
                0 <= q < k ==> pattern_compiles(#[trigger] lex_pattern(q)) && regex_find_all(
                    lex_pattern(q),
                    file@,
                ) is Some,
            forall|q: int| 0 <= q < k ==> successive_matches(#[trigger] pr[q]),
            is_ascii_chars(file@) ==> forall|q: int| 0 <= q < k ==> matches_from(#[trigger] pr[q], file@),
        decreases NUM_PATTERNS - k,
    {
        let pattern = pattern_at(k);
        let compiled = match compile_pattern(pattern) {
            Ok(c) => c,
            Err(_) => return None,
        };
        let ms = match find_matches(&compiled, file) {
            Ok(v) => v,
            Err(_) => return None,
        };
        proof {
            assert(pr[k as int] == ms@.map_values(|m: RawMatch| m@));
            lemma_found_matches(ms@, file@);
        }
        let ghost before = results@;
        results.push(ms);
        assert(all_matches_view(results@) =~= all_matches_view(before).push(pr[k as int]));
        assert(pr.take(k + 1) =~= pr.take(k as int).push(pr[k as int]));
        k += 1;
    }
    assert(pr.take(NUM_PATTERNS as int) =~= pr);
    let tokens = lex_matches(&results);
    proof {
        law_lex_sorted(pr);
        law_lex_tokens_disjoint(pr);
        law_lex_token_kinds(pr);
        let tv = token_views(tokens@);
        lemma_nonempty_in_order(tv);
        assert forall|i: int| 0 <= i < tv.len() && is_ascii_chars(tv[i].text) implies ((
        #[trigger] tv[i]).token_type == TokenType::Literal <==> all_ascii_digits(tv[i].text)) by {
            assert(tv[i] == tokens@[i]@);
            assert(numeric_is_digits(tokens@[i].text@));
            lemma_keyword_not_literal(tv[i].text);
        }
        if is_ascii_chars(file@) {
            law_lex_texts(pr, file@);
        }
        assert forall|i: int| 0 <= i < tokens@.len() implies (spelled_kind(
            #[trigger] tokens@[i].text@,
        ) matches Some(k) ==> tokens@[i].token_type == k) by {
            let t = tokens@[i].text@;
            if spelled_kind(t) is Some {
                assert(tv[i] == tokens@[i]@);
                assert(numeric_is_digits(t));
                lemma_spelled_not_digits(t);
                law_spelled_kinds(t);
            }
        }
    }
    Some(tokens)
}


/// Whether the tokens are ordered by their start.
pub open spec fn sorted_by_start(s: Seq<SpecToken>) -> bool {
    forall|i: int, j: int| 0 <= i < j < s.len() ==> s[i].start <= s[j].start
}

proof fn lemma_insert_sorted(s: Seq<SpecToken>, t: SpecToken)
    requires
        sorted_by_start(s),
    ensures
        sorted_by_start(insert_by_start(s, t)),
        insert_by_start(s, t).to_multiset() == s.to_multiset().insert(t),
        forall|k: int|
            0 <= k < insert_by_start(s, t).len() ==> #[trigger] insert_by_start(s, t)[k] == t
                || s.contains(insert_by_start(s, t)[k]),
    decreases s.len(),
{
    broadcast use vstd::seq_lib::to_multiset_build;

    let r = insert_by_start(s, t);
    if s.len() == 0 || s.last().start <= t.start {
        assert(r == s.push(t));
        assert forall|k: int| 0 <= k < r.len() implies #[trigger] r[k] == t || s.contains(r[k]) by {
            if k < s.len() {
                assert(r[k] == s[k]);
            }
        }
    } else {
        let d = s.drop_last();
        let last = s.last();
        lemma_insert_sorted(d, t);
        let r1 = insert_by_start(d, t);
        assert(r == r1.push(last));
        assert(s =~= d.push(last));
        assert forall|k: int| 0 <= k < r1.len() implies (#[trigger] r1[k]).start <= last.start by {
            if r1[k] != t {
                assert(d.contains(r1[k]));
                let q = choose|q: int| 0 <= q < d.len() && d[q] == r1[k];
                assert(s[q] == d[q]);
            }
        }
        assert forall|k: int| 0 <= k < r.len() implies #[trigger] r[k] == t || s.contains(r[k]) by {
            if k < r1.len() {
                assert(r[k] == r1[k]);
                if r1[k] != t {
                    let q = choose|q: int| 0 <= q < d.len() && d[q] == r1[k];
                    assert(s[q] == d[q]);
                }
            } else {
                assert(r[k] == s[s.len() - 1]);
            }
        }
        assert(r.to_multiset() =~= s.to_multiset().insert(t));
    }
}

/// Sorting by start gives back tokens ordered by their start, and exactly
/// the tokens that it was given.
pub proof fn law_sort_by_start(s: Seq<SpecToken>)
    ensures
        sorted_by_start(sort_by_start(s)),
        sort_by_start(s).to_multiset() == s.to_multiset(),
    decreases s.len(),
{
    broadcast use vstd::seq_lib::to_multiset_build;

    if s.len() > 0 {
        law_sort_by_start(s.drop_last());
        lemma_insert_sorted(sort_by_start(s.drop_last()), s.last());
        assert(s =~= s.drop_last().push(s.last()));
    }
}

/// The tokens that the lexer gives back are ordered by their start, and are
/// exactly the tokens that it made from the matches of the patterns.
pub proof fn law_lex_sorted(rs: Seq<Seq<(usize, usize, Seq<char>)>>)
    ensures
        sorted_by_start(lex_spec(rs)),
        lex_spec(rs).to_multiset() == lex_state(rs, rs.len() as int).1.to_multiset(),
{
    law_sort_by_start(lex_state(rs, rs.len() as int).1);
}


/// Whether the matches of one pattern come as `find_iter` gives them: each
/// starts no later than it ends, and ends no later than the next starts.
pub open spec fn successive_matches(ms: Seq<(usize, usize, Seq<char>)>) -> bool {
    &&& forall|k: int| 0 <= k < ms.len() ==> (#[trigger] ms[k]).0 <= ms[k].1
    &&& forall|k: int| 0 <= k < ms.len() - 1 ==> (#[trigger] ms[k]).1 <= ms[k + 1].0
}

/// Whether each match ends no later than every later match starts.
pub open spec fn ordered_matches(ms: Seq<(usize, usize, Seq<char>)>) -> bool {
    forall|a: int, b: int| 0 <= a < b < ms.len() ==> ms[a].1 <= ms[b].0
}

/// Whether two tokens cover no byte in common.
pub open spec fn tokens_disjoint(a: SpecToken, b: SpecToken) -> bool {
    a.end <= a.start || b.end <= b.start || a.end <= b.start || b.end <= a.start
}

/// Whether no two tokens of the sequence cover a byte in common.
pub open spec fn pairwise_disjoint(s: Seq<SpecToken>) -> bool {
    forall|i: int, j: int| 0 <= i < j < s.len() ==> tokens_disjoint(s[i], s[j])
}

proof fn lemma_successive_pair(ms: Seq<(usize, usize, Seq<char>)>, a: int, b: int)
    requires
        successive_matches(ms),
        0 <= a < b < ms.len(),
    ensures
        ms[a].1 <= ms[b].0,
    decreases b - a,
{
    if b > a + 1 {
        lemma_successive_pair(ms, a, b - 1);
        assert(ms[b - 1].0 <= ms[b - 1].1);
        assert(ms[b - 1].1 <= ms[b].0);
    } else {
        assert(ms[a].1 <= ms[a + 1].0);
    }
}

proof fn lemma_successive_ordered(ms: Seq<(usize, usize, Seq<char>)>)
    requires
        successive_matches(ms),
    ensures
        ordered_matches(ms),
{
    assert forall|a: int, b: int| 0 <= a < b < ms.len() implies ms[a].1 <= ms[b].0 by {
        lemma_successive_pair(ms, a, b);
    }
}

proof fn lemma_unclaimed(ms: Seq<(usize, usize, Seq<char>)>, claimed: Set<u64>)
    ensures
        forall|k: int|
            0 <= k < unclaimed_matches(ms, claimed).len() ==> ms.contains(
                #[trigger] unclaimed_matches(ms, claimed)[k],
            ) && !span_claimed(claimed, unclaimed_matches(ms, claimed)[k]),
        ordered_matches(ms) ==> ordered_matches(unclaimed_matches(ms, claimed)),
    decreases ms.len(),
{
    if ms.len() > 0 {
        let d = ms.drop_last();
        let last = ms.last();
        lemma_unclaimed(d, claimed);
        let u1 = unclaimed_matches(d, claimed);
        let u = unclaimed_matches(ms, claimed);
        assert forall|k: int| 0 <= k < u.len() implies ms.contains(#[trigger] u[k]) && !span_claimed(
            claimed,
            u[k],
        ) by {
            if k < u1.len() {
                assert(u[k] == u1[k]);
                let q = choose|q: int| 0 <= q < d.len() && d[q] == u1[k];
                assert(ms[q] == d[q]);
            } else {
                assert(u[k] == ms[ms.len() - 1]);
            }
        }
        if ordered_matches(ms) {
            assert(ordered_matches(d)) by {
                assert forall|a: int, b: int| 0 <= a < b < d.len() implies d[a].1 <= d[b].0 by {
                    assert(d[a] == ms[a] && d[b] == ms[b]);
                }
            }
            assert forall|a: int, b: int| 0 <= a < b < u.len() implies u[a].1 <= u[b].0 by {
                assert(u[a] == u1[a]);
                let q = choose|q: int| 0 <= q < d.len() && d[q] == u1[a];
                assert(ms[q] == d[q]);
                if b < u1.len() {
                    assert(u[b] == u1[b]);
                } else {
                    assert(u[b] == ms[ms.len() - 1]);
                }
            }
        }
    }
}

proof fn lemma_claim_all(claimed: Set<u64>, kept: Seq<(usize, usize, Seq<char>)>)
    ensures
        forall|x: u64| claimed.contains(x) ==> #[trigger] claim_all(claimed, kept).contains(x),
        forall|k: int, x: u64|
            0 <= k < kept.len() && kept[k].0 <= x < kept[k].1 ==> #[trigger] claim_all(
                claimed,
                kept,
            ).contains(x) && #[trigger] kept[k] == kept[k],
    decreases kept.len(),
{
    if kept.len() > 0 {
        let d = kept.drop_last();
        lemma_claim_all(claimed, d);
        assert forall|x: u64| claimed.contains(x) implies #[trigger] claim_all(claimed, kept).contains(
            x,
        ) by {
            assert(claim_all(claimed, d).contains(x));
        }
        assert forall|k: int, x: u64|
            0 <= k < kept.len() && kept[k].0 <= x < kept[k].1 implies #[trigger] claim_all(
            claimed,
            kept,
        ).contains(x) && #[trigger] kept[k] == kept[k] by {
            if k < d.len() {
                assert(d[k] == kept[k]);
                assert(claim_all(claimed, d).contains(x));
            } else {
                assert(span_set(kept.last()).contains(x));
            }
        }
    }
}

/// What holds after the matches of the first `k` patterns: no two tokens
/// share a byte, and every byte of a token is claimed.
proof fn lemma_lex_state_disjoint(rs: Seq<Seq<(usize, usize, Seq<char>)>>, k: int)
    requires
        forall|q: int| 0 <= q < rs.len() ==> successive_matches(#[trigger] rs[q]),
        k <= rs.len(),
    ensures
        pairwise_disjoint(lex_state(rs, k).1),
        forall|i: int, x: u64|
            0 <= i < lex_state(rs, k).1.len() && lex_state(rs, k).1[i].start <= x
                < lex_state(rs, k).1[i].end ==> #[trigger] lex_state(rs, k).0.contains(x)
                && #[trigger] lex_state(rs, k).1[i] == lex_state(rs, k).1[i],
    decreases k,
{
    if k > 0 {
        lemma_lex_state_disjoint(rs, k - 1);
        let (claimed, toks) = lex_state(rs, k - 1);
        let ms = rs[k - 1];
        lemma_successive_ordered(ms);
        lemma_unclaimed(ms, claimed);
        let kept = unclaimed_matches(ms, claimed);
        lemma_claim_all(claimed, kept);
        let claimed2 = claim_all(claimed, kept);
        let new_toks = tokens_of_matches(kept);
        let toks2 = toks + new_toks;
        assert(lex_state(rs, k) == (claimed2, toks2));
        assert forall|i: int, x: u64|
            0 <= i < toks2.len() && toks2[i].start <= x < toks2[i].end implies #[trigger] claimed2.contains(
            x,
        ) && #[trigger] toks2[i] == toks2[i] by {
            if i < toks.len() {
                assert(toks2[i] == toks[i]);
                assert(claimed.contains(x));
            } else {
                let m = kept[i - toks.len()];
                assert(toks2[i] == token_of_match(m));
                assert(kept[i - toks.len()].0 <= x < kept[i - toks.len()].1);
            }
        }
        assert forall|i: int, j: int| 0 <= i < j < toks2.len() implies tokens_disjoint(
            toks2[i],
            toks2[j],
        ) by {
            if j < toks.len() {
                assert(toks2[i] == toks[i] && toks2[j] == toks[j]);
            } else if i < toks.len() {
                let a = toks[i];
                let m = kept[j - toks.len()];
                let b = token_of_match(m);
                assert(toks2[i] == a && toks2[j] == b);
                if !tokens_disjoint(a, b) {
                    let x: u64 = if a.start < b.start { b.start } else { a.start };
                    assert(toks[i].start <= x < toks[i].end);
                    assert(claimed.contains(x));
                    assert(m.0 <= x as int && (x as int) < m.1);
                    assert(claimed.contains((x as int) as u64));
                    assert(span_claimed(claimed, m));
                }
            } else {
                let ma = kept[i - toks.len()];
                let mb = kept[j - toks.len()];
                assert(toks2[i] == token_of_match(ma) && toks2[j] == token_of_match(mb));
                assert(ma.1 <= mb.0);
            }
        }
    }
}

proof fn lemma_insert_disjoint(s: Seq<SpecToken>, t: SpecToken)
    requires
        pairwise_disjoint(s),
        forall|k: int| 0 <= k < s.len() ==> tokens_disjoint(#[trigger] s[k], t),
    ensures
        pairwise_disjoint(insert_by_start(s, t)),
        forall|k: int|
            0 <= k < insert_by_start(s, t).len() ==> #[trigger] insert_by_start(s, t)[k] == t
                || s.contains(insert_by_start(s, t)[k]),
    decreases s.len(),
{
    let r = insert_by_start(s, t);
    if s.len() == 0 || s.last().start <= t.start {
        assert forall|k: int| 0 <= k < r.len() implies #[trigger] r[k] == t || s.contains(r[k]) by {
            if k < s.len() {
                assert(r[k] == s[k]);
            }
        }
        assert forall|i: int, j: int| 0 <= i < j < r.len() implies tokens_disjoint(r[i], r[j]) by {
            if j < s.len() {
                assert(r[i] == s[i] && r[j] == s[j]);
            } else {
                assert(r[i] == s[i] && r[j] == t);
            }
        }
    } else {
        let d = s.drop_last();
        let last = s.last();
        assert forall|k: int| 0 <= k < d.len() implies tokens_disjoint(#[trigger] d[k], t) by {
            assert(d[k] == s[k]);
        }
        lemma_insert_disjoint(d, t);
        let r1 = insert_by_start(d, t);
        assert(r == r1.push(last));
        assert forall|k: int| 0 <= k < r1.len() implies tokens_disjoint(#[trigger] r1[k], last) by {
            if r1[k] == t {
                assert(tokens_disjoint(s[s.len() - 1], t));
            } else {
                let q = choose|q: int| 0 <= q < d.len() && d[q] == r1[k];
                assert(s[q] == d[q]);
                assert(tokens_disjoint(s[q], s[s.len() - 1]));
            }
        }
        assert forall|k: int| 0 <= k < r.len() implies #[trigger] r[k] == t || s.contains(r[k]) by {
            if k < r1.len() {
                assert(r[k] == r1[k]);
                if r1[k] != t {
                    let q = choose|q: int| 0 <= q < d.len() && d[q] == r1[k];
                    assert(s[q] == d[q]);
                }
            } else {
                assert(r[k] == s[s.len() - 1]);
            }
        }
        assert forall|i: int, j: int| 0 <= i < j < r.len() implies tokens_disjoint(r[i], r[j]) by {
            if j < r1.len() {
                assert(r[i] == r1[i] && r[j] == r1[j]);
            } else {
                assert(r[i] == r1[i] && r[j] == last);
            }
        }
    }
}

proof fn lemma_sort_disjoint(s: Seq<SpecToken>)
    requires
        pairwise_disjoint(s),
    ensures
        pairwise_disjoint(sort_by_start(s)),
        forall|k: int| 0 <= k < sort_by_start(s).len() ==> s.contains(#[trigger] sort_by_start(s)[k]),
    decreases s.len(),
{
    if s.len() > 0 {
        let d = s.drop_last();
        let last = s.last();
        assert(pairwise_disjoint(d)) by {
            assert forall|i: int, j: int| 0 <= i < j < d.len() implies tokens_disjoint(d[i], d[j]) by {
                assert(d[i] == s[i] && d[j] == s[j]);
            }
        }
        lemma_sort_disjoint(d);
        let sd = sort_by_start(d);
        assert forall|k: int| 0 <= k < sd.len() implies tokens_disjoint(#[trigger] sd[k], last) by {
            let q = choose|q: int| 0 <= q < d.len() && d[q] == sd[k];
            assert(s[q] == d[q]);
            assert(tokens_disjoint(s[q], s[s.len() - 1]));
        }
        lemma_insert_disjoint(sd, last);
        let r = sort_by_start(s);
        assert forall|k: int| 0 <= k < r.len() implies s.contains(#[trigger] r[k]) by {
            if r[k] == last {
                assert(s[s.len() - 1] == last);
            } else {
                let q = choose|q: int| 0 <= q < sd.len() && sd[q] == r[k];
                let q2 = choose|q2: int| 0 <= q2 < d.len() && d[q2] == sd[q];
                assert(s[q2] == d[q2]);
            }
        }
    }
}

/// Where the matches of each pattern come as `find_iter` gives them
/// (each ends no later than the next starts), no two tokens that the lexer
/// gives back cover a byte in common.
pub proof fn law_lex_tokens_disjoint(rs: Seq<Seq<(usize, usize, Seq<char>)>>)
    requires
        forall|q: int| 0 <= q < rs.len() ==> successive_matches(#[trigger] rs[q]),
    ensures
        pairwise_disjoint(lex_spec(rs)),
{
    lemma_lex_state_disjoint(rs, rs.len() as int);
    lemma_sort_disjoint(lex_state(rs, rs.len() as int).1);
}

/// Whether each token has the kind that its text gives.
pub open spec fn kinds_follow_text(s: Seq<SpecToken>) -> bool {
    forall|i: int| 0 <= i < s.len() ==> (#[trigger] s[i]).token_type == token_type_of(s[i].text)
}

proof fn lemma_lex_state_kinds(rs: Seq<Seq<(usize, usize, Seq<char>)>>, k: int)
    ensures
        kinds_follow_text(lex_state(rs, k).1),
    decreases k,
{
    if k > 0 {
        lemma_lex_state_kinds(rs, k - 1);
        let (claimed, toks) = lex_state(rs, k - 1);
        let kept = unclaimed_matches(rs[k - 1], claimed);
        let toks2 = toks + tokens_of_matches(kept);
        assert(lex_state(rs, k).1 == toks2);
        assert forall|i: int| 0 <= i < toks2.len() implies (#[trigger] toks2[i]).token_type
            == token_type_of(toks2[i].text) by {
            if i < toks.len() {
                assert(toks2[i] == toks[i]);
            } else {
                assert(toks2[i] == token_of_match(kept[i - toks.len()]));
            }
        }
    }
}

proof fn lemma_sort_kinds(s: Seq<SpecToken>)
    requires
        kinds_follow_text(s),
    ensures
        kinds_follow_text(sort_by_start(s)),
    decreases s.len(),
{
    if s.len() > 0 {
        let d = s.drop_last();
        assert forall|i: int| 0 <= i < d.len() implies (#[trigger] d[i]).token_type == token_type_of(
            d[i].text,
        ) by {
            assert(d[i] == s[i]);
        }
        lemma_sort_kinds(d);
        law_sort_by_start(d);
        let u = sort_by_start(d);
        lemma_insert_sorted(u, s.last());
        let r = insert_by_start(u, s.last());
        assert(sort_by_start(s) == r);
        assert forall|k: int| 0 <= k < r.len() implies (#[trigger] r[k]).token_type == token_type_of(
            r[k].text,
        ) by {
            if r[k] != s.last() {
                assert(u.contains(r[k]));
                let q = choose|q: int| 0 <= q < u.len() && u[q] == r[k];
                assert(u[q].token_type == token_type_of(u[q].text));
            }
        }
    }
}

/// Each token that the lexer gives back has the kind that its text gives:
/// a literal where every character is numeric, else the kind of the
/// keyword, punctuation or operator that the text spells, or an
/// identifier.
pub proof fn law_lex_token_kinds(rs: Seq<Seq<(usize, usize, Seq<char>)>>)
    ensures
        kinds_follow_text(lex_spec(rs)),
{
    lemma_lex_state_kinds(rs, rs.len() as int);
    lemma_sort_kinds(lex_state(rs, rs.len() as int).1);
}

/// Whether, where `s` is ASCII text, it is numeric exactly where it is all
/// ASCII digits.
pub open spec fn numeric_is_digits(s: Seq<char>) -> bool {
    is_ascii_chars(s) ==> (all_numeric(s) <==> all_ascii_digits(s))
}

/// Whether each token with ASCII text is a literal exactly where its text
/// is all ASCII digits.
pub open spec fn literals_are_digits(s: Seq<SpecToken>) -> bool {
    forall|i: int|
        0 <= i < s.len() && is_ascii_chars(s[i].text) ==> ((#[trigger] s[i]).token_type
            == TokenType::Literal <==> all_ascii_digits(s[i].text))
}

/// Whether each token that covers a byte ends no later than every later
/// such token starts.
pub open spec fn nonempty_in_order(s: Seq<SpecToken>) -> bool {
    forall|i: int, j: int|
        0 <= i < j < s.len() && s[i].start < s[i].end && s[j].start < s[j].end ==> #[trigger] s[i].end
            <= #[trigger] s[j].start
}

/// Whether each match lies within `file` and its text is the characters of
/// `file` between its offsets.
pub open spec fn matches_from(ms: Seq<(usize, usize, Seq<char>)>, file: Seq<char>) -> bool {
    forall|k: int|
        0 <= k < ms.len() ==> (#[trigger] ms[k]).0 <= ms[k].1 <= file.len() && ms[k].2
            == file.subrange(ms[k].0 as int, ms[k].1 as int)
}

/// Whether each token lies within `file` and its text is the characters of
/// `file` between its offsets.
pub open spec fn texts_from(s: Seq<SpecToken>, file: Seq<char>) -> bool {
    forall|i: int|
        0 <= i < s.len() ==> (#[trigger] s[i]).start <= s[i].end <= file.len() && s[i].text
            == file.subrange(s[i].start as int, s[i].end as int)
}

proof fn lemma_keyword_not_literal(s: Seq<char>)
    ensures
        keyword_type(s) != TokenType::Literal,
{
    if s.len() == 1 {
        assert(one_char_type(s[0]) != TokenType::Literal);
    } else if s.len() == 2 {
        assert(two_char_type(s[0], s[1]) != TokenType::Literal);
    }
}

proof fn lemma_nonempty_in_order(s: Seq<SpecToken>)
    requires
        sorted_by_start(s),
        pairwise_disjoint(s),
    ensures
        nonempty_in_order(s),
{
    assert forall|i: int, j: int|
        0 <= i < j < s.len() && s[i].start < s[i].end && s[j].start < s[j].end implies #[trigger] s[i].end
        <= #[trigger] s[j].start by {
        assert(tokens_disjoint(s[i], s[j]));
        assert(s[i].start <= s[j].start);
    }
}

/// Whether `t` is the token of a match of one of the patterns.
pub open spec fn from_matches(t: SpecToken, rs: Seq<Seq<(usize, usize, Seq<char>)>>) -> bool {
    exists|q: int, k: int|
        0 <= q < rs.len() && 0 <= k < rs[q].len() && t == token_of_match(#[trigger] rs[q][k])
}

proof fn lemma_lex_state_from(rs: Seq<Seq<(usize, usize, Seq<char>)>>, k: int)
    requires
        k <= rs.len(),
    ensures
        forall|i: int|
            0 <= i < lex_state(rs, k).1.len() ==> from_matches(#[trigger] lex_state(rs, k).1[i], rs),
    decreases k,
{
    if k > 0 {
        lemma_lex_state_from(rs, k - 1);
        let (claimed, toks) = lex_state(rs, k - 1);
        let ms = rs[k - 1];
        lemma_unclaimed(ms, claimed);
        let kept = unclaimed_matches(ms, claimed);
        let toks2 = toks + tokens_of_matches(kept);
        assert(lex_state(rs, k).1 == toks2);
        assert forall|i: int| 0 <= i < toks2.len() implies from_matches(#[trigger] toks2[i], rs) by {
            if i < toks.len() {
                assert(toks2[i] == toks[i]);
            } else {
                let x = i - toks.len();
                assert(toks2[i] == token_of_match(kept[x]));
                assert(ms.contains(kept[x]));
                let w = choose|w: int| 0 <= w < ms.len() && ms[w] == kept[x];
                assert(toks2[i] == token_of_match(rs[k - 1][w]));
            }
        }
    }
}

proof fn lemma_sort_keeps(s: Seq<SpecToken>, p: spec_fn(SpecToken) -> bool)
    requires
        forall|i: int| 0 <= i < s.len() ==> p(#[trigger] s[i]),
    ensures
        forall|i: int| 0 <= i < sort_by_start(s).len() ==> p(#[trigger] sort_by_start(s)[i]),
    decreases s.len(),
{
    if s.len() > 0 {
        let d = s.drop_last();
        assert forall|i: int| 0 <= i < d.len() implies p(#[trigger] d[i]) by {
            assert(d[i] == s[i]);
        }
        lemma_sort_keeps(d, p);
        law_sort_by_start(d);
        let u = sort_by_start(d);
        lemma_insert_sorted(u, s.last());
        let r = insert_by_start(u, s.last());
        assert(sort_by_start(s) == r);
        assert(p(s[s.len() - 1]));
        assert forall|k: int| 0 <= k < r.len() implies p(#[trigger] r[k]) by {
            if r[k] != s.last() {
                assert(u.contains(r[k]));
                let q = choose|q: int| 0 <= q < u.len() && u[q] == r[k];
                assert(p(u[q]));
            }
        }
    }
}

/// Where every match of every pattern is the text of `file` between its
/// offsets, so is every token that the lexer gives back.
pub proof fn law_lex_texts(rs: Seq<Seq<(usize, usize, Seq<char>)>>, file: Seq<char>)
    requires
        forall|q: int| 0 <= q < rs.len() ==> matches_from(#[trigger] rs[q], file),
    ensures
        texts_from(lex_spec(rs), file),
{
    let st = lex_state(rs, rs.len() as int).1;
    lemma_lex_state_from(rs, rs.len() as int);
    let p = |t: SpecToken|
        t.start <= t.end <= file.len() && t.text == file.subrange(t.start as int, t.end as int);
    assert forall|i: int| 0 <= i < st.len() implies p(#[trigger] st[i]) by {
        assert(from_matches(st[i], rs));
        let (q, k) = choose|q: int, k: int|
            0 <= q < rs.len() && 0 <= k < rs[q].len() && st[i] == token_of_match(#[trigger] rs[q][k]);
        assert(matches_from(rs[q], file));
        assert(rs[q][k].0 <= rs[q][k].1 <= file.len());
    }
    lemma_sort_keeps(st, p);
    let t = lex_spec(rs);
    assert forall|i: int| 0 <= i < t.len() implies (#[trigger] t[i]).start <= t[i].end <= file.len()
        && t[i].text == file.subrange(t[i].start as int, t[i].end as int) by {
        assert(p(t[i]));
    }
}

/// The kind that C gives to each keyword, punctuation mark and operator,
/// written out as a table from spellings to kinds; `None` for any other
/// text.
pub open spec fn spelled_kind(s: Seq<char>) -> Option<TokenType> {
    if s =~= seq!['{'] {
        Some(TokenType::LBrace)
    } else if s =~= seq!['}'] {
        Some(TokenType::RBrace)
    } else if s =~= seq!['('] {
        Some(TokenType::LParen)
    } else if s =~= seq![')'] {
        Some(TokenType::RParen)
    } else if s =~= seq![';'] {
        Some(TokenType::Semicolon)
    } else if s =~= seq!['i', 'n', 't'] {
        Some(TokenType::Integer)
    } else if s =~= seq!['r', 'e', 't', 'u', 'r', 'n'] {
        Some(TokenType::Return)
    } else if s =~= seq!['~'] {
        Some(TokenType::BitComplement)
    } else if s =~= seq!['!'] {
        Some(TokenType::LogicalNeg)
    } else if s =~= seq!['+'] {
        Some(TokenType::Addition)
    } else if s =~= seq!['-'] {
        Some(TokenType::Minus)
    } else if s =~= seq!['*'] {
        Some(TokenType::Multiplication)
    } else if s =~= seq!['/'] {
        Some(TokenType::Division)
    } else if s =~= seq!['%'] {
        Some(TokenType::Modulo)
    } else if s =~= seq!['&', '&'] {
        Some(TokenType::And)
    } else if s =~= seq!['|', '|'] {
        Some(TokenType::Or)
    } else if s =~= seq!['=', '='] {
        Some(TokenType::Equal)
    } else if s =~= seq!['!', '='] {
        Some(TokenType::NotEqual)
    } else if s =~= seq!['<'] {
        Some(TokenType::LessThan)
    } else if s =~= seq!['<', '='] {
        Some(TokenType::LessThanEqual)
    } else if s =~= seq!['>'] {
        Some(TokenType::GreaterThan)
    } else if s =~= seq!['>', '='] {
        Some(TokenType::GreaterThanEqual)
    } else if s =~= seq!['&'] {
        Some(TokenType::BitAnd)
    } else if s =~= seq!['|'] {
        Some(TokenType::BitOr)
    } else if s =~= seq!['^'] {
        Some(TokenType::BitXOr)
    } else if s =~= seq!['<', '<'] {
        Some(TokenType::LBitShift)
    } else if s =~= seq!['>', '>'] {
        Some(TokenType::RBitShift)
    } else if s =~= seq!['='] {
        Some(TokenType::Assign)
    } else if s =~= seq!['+', '='] {
        Some(TokenType::AssignPlus)
    } else if s =~= seq!['-', '='] {
        Some(TokenType::AssignMinus)
    } else if s =~= seq!['*', '='] {
        Some(TokenType::AssignMult)
    } else if s =~= seq!['/', '='] {
        Some(TokenType::AssignDivide)
    } else if s =~= seq!['%', '='] {
        Some(TokenType::AssignMod)
    } else if s =~= seq!['<', '<', '='] {
        Some(TokenType::AssignLBitShift)
    } else if s =~= seq!['>', '>', '='] {
        Some(TokenType::AssignRBitShift)
    } else if s =~= seq!['&', '='] {
        Some(TokenType::AssignBitAnd)
    } else if s =~= seq!['|', '='] {
        Some(TokenType::AssignBitOr)
    } else if s =~= seq!['^', '='] {
        Some(TokenType::AssignBitXOr)
    } else if s =~= seq!['i', 'f'] {
        Some(TokenType::If)
    } else if s =~= seq!['e', 'l', 's', 'e'] {
        Some(TokenType::Else)
    } else if s =~= seq!['?'] {
        Some(TokenType::QuestionMark)
    } else if s =~= seq![':'] {
        Some(TokenType::Colon)
    } else {
        None
    }
}

/// Every keyword, punctuation mark and operator gets the kind that its
/// spelling names in the table of C's tokens: `>` is `GreaterThan`, `<=` is
/// `LessThanEqual`, `return` is `Return`, and so on for every entry.
pub proof fn law_spelled_kinds(s: Seq<char>)
    ensures
        spelled_kind(s) matches Some(k) ==> keyword_type(s) == k,
{
    if s =~= seq!['{'] {
        assert(s.len() == 1);
        assert(s[0] == '{');
    } else if s =~= seq!['}'] {
        assert(s.len() == 1);
        assert(s[0] == '}');
    } else if s =~= seq!['('] {
        assert(s.len() == 1);
        assert(s[0] == '(');
    } else if s =~= seq![')'] {
        assert(s.len() == 1);
        assert(s[0] == ')');
    } else if s =~= seq![';'] {
        assert(s.len() == 1);
        assert(s[0] == ';');
    } else if s =~= seq!['i', 'n', 't'] {
        assert(s.len() == 3);
        assert(s[0] == 'i');
        assert(s[1] == 'n');
        assert(s[2] == 't');
    } else if s =~= seq!['r', 'e', 't', 'u', 'r', 'n'] {
        assert(s.len() == 6);
        assert(s[0] == 'r');
        assert(s[1] == 'e');
        assert(s[2] == 't');
        assert(s[3] == 'u');
        assert(s[4] == 'r');
        assert(s[5] == 'n');
    } else if s =~= seq!['~'] {
        assert(s.len() == 1);
        assert(s[0] == '~');
    } else if s =~= seq!['!'] {
        assert(s.len() == 1);
        assert(s[0] == '!');
    } else if s =~= seq!['+'] {
        assert(s.len() == 1);
        assert(s[0] == '+');
    } else if s =~= seq!['-'] {
        assert(s.len() == 1);
        assert(s[0] == '-');
    } else if s =~= seq!['*'] {
        assert(s.len() == 1);
        assert(s[0] == '*');
    } else if s =~= seq!['/'] {
        assert(s.len() == 1);
        assert(s[0] == '/');
    } else if s =~= seq!['%'] {
        assert(s.len() == 1);
        assert(s[0] == '%');
    } else if s =~= seq!['&', '&'] {
        assert(s.len() == 2);
        assert(s[0] == '&');
        assert(s[1] == '&');
    } else if s =~= seq!['|', '|'] {
        assert(s.len() == 2);
        assert(s[0] == '|');
        assert(s[1] == '|');
    } else if s =~= seq!['=', '='] {
        assert(s.len() == 2);
        assert(s[0] == '=');
        assert(s[1] == '=');
    } else if s =~= seq!['!', '='] {
        assert(s.len() == 2);
        assert(s[0] == '!');
        assert(s[1] == '=');
    } else if s =~= seq!['<'] {
        assert(s.len() == 1);
        assert(s[0] == '<');
    } else if s =~= seq!['<', '='] {
        assert(s.len() == 2);
        assert(s[0] == '<');
        assert(s[1] == '=');
    } else if s =~= seq!['>'] {
        assert(s.len() == 1);
        assert(s[0] == '>');
    } else if s =~= seq!['>', '='] {
        assert(s.len() == 2);
        assert(s[0] == '>');
        assert(s[1] == '=');
    } else if s =~= seq!['&'] {
        assert(s.len() == 1);
        assert(s[0] == '&');
    } else if s =~= seq!['|'] {
        assert(s.len() == 1);
        assert(s[0] == '|');
    } else if s =~= seq!['^'] {
        assert(s.len() == 1);
        assert(s[0] == '^');
    } else if s =~= seq!['<', '<'] {
        assert(s.len() == 2);
        assert(s[0] == '<');
        assert(s[1] == '<');
    } else if s =~= seq!['>', '>'] {
        assert(s.len() == 2);
        assert(s[0] == '>');
        assert(s[1] == '>');
    } else if s =~= seq!['='] {
        assert(s.len() == 1);
        assert(s[0] == '=');
    } else if s =~= seq!['+', '='] {
        assert(s.len() == 2);
        assert(s[0] == '+');
        assert(s[1] == '=');
    } else if s =~= seq!['-', '='] {
        assert(s.len() == 2);
        assert(s[0] == '-');
        assert(s[1] == '=');
    } else if s =~= seq!['*', '='] {
        assert(s.len() == 2);
        assert(s[0] == '*');
        assert(s[1] == '=');
    } else if s =~= seq!['/', '='] {
        assert(s.len() == 2);
        assert(s[0] == '/');
        assert(s[1] == '=');
    } else if s =~= seq!['%', '='] {
        assert(s.len() == 2);
        assert(s[0] == '%');
        assert(s[1] == '=');
    } else if s =~= seq!['<', '<', '='] {
        assert(s.len() == 3);
        assert(s[0] == '<');
        assert(s[1] == '<');
        assert(s[2] == '=');
    } else if s =~= seq!['>', '>', '='] {
        assert(s.len() == 3);
        assert(s[0] == '>');
        assert(s[1] == '>');
        assert(s[2] == '=');
    } else if s =~= seq!['&', '='] {
        assert(s.len() == 2);
        assert(s[0] == '&');
        assert(s[1] == '=');
    } else if s =~= seq!['|', '='] {
        assert(s.len() == 2);
        assert(s[0] == '|');
        assert(s[1] == '=');
    } else if s =~= seq!['^', '='] {
        assert(s.len() == 2);
        assert(s[0] == '^');
        assert(s[1] == '=');
    } else if s =~= seq!['i', 'f'] {
        assert(s.len() == 2);
        assert(s[0] == 'i');
        assert(s[1] == 'f');
    } else if s =~= seq!['e', 'l', 's', 'e'] {
        assert(s.len() == 4);
        assert(s[0] == 'e');
        assert(s[1] == 'l');
        assert(s[2] == 's');
        assert(s[3] == 'e');
    } else if s =~= seq!['?'] {
        assert(s.len() == 1);
        assert(s[0] == '?');
    } else if s =~= seq![':'] {
        assert(s.len() == 1);
        assert(s[0] == ':');
    }
}

proof fn lemma_spelled_not_digits(s: Seq<char>)
    requires
        spelled_kind(s) is Some,
    ensures
        is_ascii_chars(s),
        !all_ascii_digits(s),
        s.len() > 0,
{
    if s =~= seq!['{'] {
        assert(s.len() == 1);
        assert(s[0] == '{');
    } else if s =~= seq!['}'] {
        assert(s.len() == 1);
        assert(s[0] == '}');
    } else if s =~= seq!['('] {
        assert(s.len() == 1);
        assert(s[0] == '(');
    } else if s =~= seq![')'] {
        assert(s.len() == 1);
        assert(s[0] == ')');
    } else if s =~= seq![';'] {
        assert(s.len() == 1);
        assert(s[0] == ';');
    } else if s =~= seq!['i', 'n', 't'] {
        assert(s.len() == 3);
        assert(s[0] == 'i');
        assert(s[1] == 'n');
        assert(s[2] == 't');
    } else if s =~= seq!['r', 'e', 't', 'u', 'r', 'n'] {
        assert(s.len() == 6);
        assert(s[0] == 'r');
        assert(s[1] == 'e');
        assert(s[2] == 't');
        assert(s[3] == 'u');
        assert(s[4] == 'r');
        assert(s[5] == 'n');
    } else if s =~= seq!['~'] {
        assert(s.len() == 1);
        assert(s[0] == '~');
    } else if s =~= seq!['!'] {
        assert(s.len() == 1);
        assert(s[0] == '!');
    } else if s =~= seq!['+'] {
        assert(s.len() == 1);
        assert(s[0] == '+');
    } else if s =~= seq!['-'] {
        assert(s.len() == 1);
        assert(s[0] == '-');
    } else if s =~= seq!['*'] {
        assert(s.len() == 1);
        assert(s[0] == '*');
    } else if s =~= seq!['/'] {
        assert(s.len() == 1);
        assert(s[0] == '/');
    } else if s =~= seq!['%'] {
        assert(s.len() == 1);
        assert(s[0] == '%');
    } else if s =~= seq!['&', '&'] {
        assert(s.len() == 2);
        assert(s[0] == '&');
        assert(s[1] == '&');
    } else if s =~= seq!['|', '|'] {
        assert(s.len() == 2);
        assert(s[0] == '|');
        assert(s[1] == '|');
    } else if s =~= seq!['=', '='] {
        assert(s.len() == 2);
        assert(s[0] == '=');
        assert(s[1] == '=');
    } else if s =~= seq!['!', '='] {
        assert(s.len() == 2);
        assert(s[0] == '!');
        assert(s[1] == '=');
    } else if s =~= seq!['<'] {
        assert(s.len() == 1);
        assert(s[0] == '<');
    } else if s =~= seq!['<', '='] {
        assert(s.len() == 2);
        assert(s[0] == '<');
        assert(s[1] == '=');
    } else if s =~= seq!['>'] {
        assert(s.len() == 1);
        assert(s[0] == '>');
    } else if s =~= seq!['>', '='] {
        assert(s.len() == 2);
        assert(s[0] == '>');
        assert(s[1] == '=');
    } else if s =~= seq!['&'] {
        assert(s.len() == 1);
        assert(s[0] == '&');
    } else if s =~= seq!['|'] {
        assert(s.len() == 1);
        assert(s[0] == '|');
    } else if s =~= seq!['^'] {
        assert(s.len() == 1);
        assert(s[0] == '^');
    } else if s =~= seq!['<', '<'] {
        assert(s.len() == 2);
        assert(s[0] == '<');
        assert(s[1] == '<');
    } else if s =~= seq!['>', '>'] {
        assert(s.len() == 2);
        assert(s[0] == '>');
        assert(s[1] == '>');
    } else if s =~= seq!['='] {
        assert(s.len() == 1);
        assert(s[0] == '=');
    } else if s =~= seq!['+', '='] {
        assert(s.len() == 2);
        assert(s[0] == '+');
        assert(s[1] == '=');
    } else if s =~= seq!['-', '='] {
        assert(s.len() == 2);
        assert(s[0] == '-');
        assert(s[1] == '=');
    } else if s =~= seq!['*', '='] {
        assert(s.len() == 2);
        assert(s[0] == '*');
        assert(s[1] == '=');
    } else if s =~= seq!['/', '='] {
        assert(s.len() == 2);
        assert(s[0] == '/');
        assert(s[1] == '=');
    } else if s =~= seq!['%', '='] {
        assert(s.len() == 2);
        assert(s[0] == '%');
        assert(s[1] == '=');
    } else if s =~= seq!['<', '<', '='] {
        assert(s.len() == 3);
        assert(s[0] == '<');
        assert(s[1] == '<');
        assert(s[2] == '=');
    } else if s =~= seq!['>', '>', '='] {
        assert(s.len() == 3);
        assert(s[0] == '>');
        assert(s[1] == '>');
        assert(s[2] == '=');
    } else if s =~= seq!['&', '='] {
        assert(s.len() == 2);
        assert(s[0] == '&');
        assert(s[1] == '=');
    } else if s =~= seq!['|', '='] {
        assert(s.len() == 2);
        assert(s[0] == '|');
        assert(s[1] == '=');
    } else if s =~= seq!['^', '='] {
        assert(s.len() == 2);
        assert(s[0] == '^');
        assert(s[1] == '=');
    } else if s =~= seq!['i', 'f'] {
        assert(s.len() == 2);
        assert(s[0] == 'i');
        assert(s[1] == 'f');
    } else if s =~= seq!['e', 'l', 's', 'e'] {
        assert(s.len() == 4);
        assert(s[0] == 'e');
        assert(s[1] == 'l');
        assert(s[2] == 's');
        assert(s[3] == 'e');
    } else if s =~= seq!['?'] {
        assert(s.len() == 1);
        assert(s[0] == '?');
    } else if s =~= seq![':'] {
        assert(s.len() == 1);
        assert(s[0] == ':');
    }
    assert(!is_ascii_digit(s[0]));
}

/// Whether a token and a match share a byte.
pub open spec fn overlaps(t: SpecToken, m: (usize, usize, Seq<char>)) -> bool {
    t.start < m.1 && m.0 < t.end
}

proof fn lemma_unclaimed_keeps(ms: Seq<(usize, usize, Seq<char>)>, claimed: Set<u64>, k: int)
    requires
        0 <= k < ms.len(),
        !span_claimed(claimed, ms[k]),
    ensures
        unclaimed_matches(ms, claimed).contains(ms[k]),
    decreases ms.len(),
{
    let d = ms.drop_last();
    let r = unclaimed_matches(d, claimed);
    if k == ms.len() - 1 {
        assert(unclaimed_matches(ms, claimed) == r.push(ms.last()));
        assert(unclaimed_matches(ms, claimed)[r.len() as int] == ms[k]);
    } else {
        assert(d[k] == ms[k]);
        lemma_unclaimed_keeps(d, claimed, k);
        let w = choose|w: int| 0 <= w < r.len() && r[w] == ms[k];
        assert(unclaimed_matches(ms, claimed)[w] == ms[k]);
    }
}

proof fn lemma_claim_all_covered(claimed: Set<u64>, kept: Seq<(usize, usize, Seq<char>)>, x: u64)
    requires
        claim_all(claimed, kept).contains(x),
    ensures
        claimed.contains(x) || exists|j: int| 0 <= j < kept.len() && #[trigger] kept[j].0 <= x < kept[j].1,
    decreases kept.len(),
{
    if kept.len() > 0 {
        let d = kept.drop_last();
        if claim_all(claimed, d).contains(x) {
            lemma_claim_all_covered(claimed, d, x);
            if !claimed.contains(x) {
                let j = choose|j: int| 0 <= j < d.len() && #[trigger] d[j].0 <= x < d[j].1;
                assert(kept[j] == d[j]);
            }
        } else {
            assert(span_set(kept.last()).contains(x));
            assert(kept[kept.len() - 1].0 <= x < kept[kept.len() - 1].1);
        }
    }
}

proof fn lemma_claimed_covered(rs: Seq<Seq<(usize, usize, Seq<char>)>>, q: int, x: u64)
    requires
        0 <= q <= rs.len(),
        lex_state(rs, q).0.contains(x),
    ensures
        exists|i: int|
            0 <= i < lex_state(rs, q).1.len() && (#[trigger] lex_state(rs, q).1[i]).start <= x
                < lex_state(rs, q).1[i].end,
    decreases q,
{
    if q > 0 {
        let (claimed, toks) = lex_state(rs, q - 1);
        let kept = unclaimed_matches(rs[q - 1], claimed);
        let toks2 = toks + tokens_of_matches(kept);
        assert(lex_state(rs, q) == (claim_all(claimed, kept), toks2));
        lemma_claim_all_covered(claimed, kept, x);
        if claimed.contains(x) {
            lemma_claimed_covered(rs, q - 1, x);
            let i = choose|i: int|
                0 <= i < lex_state(rs, q - 1).1.len() && (#[trigger] lex_state(rs, q - 1).1[i]).start
                    <= x < lex_state(rs, q - 1).1[i].end;
            assert(lex_state(rs, q).1[i] == toks[i]);
            assert(lex_state(rs, q).1[i].start <= x < lex_state(rs, q).1[i].end);
        } else {
            let j = choose|j: int| 0 <= j < kept.len() && #[trigger] kept[j].0 <= x < kept[j].1;
            let i2 = toks.len() + j;
            assert(lex_state(rs, q).1[i2] == token_of_match(kept[j]));
            assert(lex_state(rs, q).1[i2].start <= x < lex_state(rs, q).1[i2].end);
        }
    } else {
        assert(lex_state(rs, q).0 == Set::<u64>::empty());
    }
}

proof fn lemma_state_grows(rs: Seq<Seq<(usize, usize, Seq<char>)>>, q: int, n: int)
    requires
        0 <= q <= n <= rs.len(),
    ensures
        lex_state(rs, q).1.len() <= lex_state(rs, n).1.len(),
        forall|i: int|
            0 <= i < lex_state(rs, q).1.len() ==> lex_state(rs, n).1[i] == #[trigger] lex_state(
                rs,
                q,
            ).1[i],
    decreases n - q,
{
    if q < n {
        lemma_state_grows(rs, q, n - 1);
        let (claimed, toks) = lex_state(rs, n - 1);
        let kept = unclaimed_matches(rs[n - 1], claimed);
        assert(lex_state(rs, n).1 == toks + tokens_of_matches(kept));
    }
}

/// The lexer gives the earlier patterns priority and drops no match that
/// nothing blocks: every match of the `q`-th pattern becomes a token, unless
/// it shares a byte with a token made from the matches of the patterns
/// before it.
pub proof fn law_lex_priority(rs: Seq<Seq<(usize, usize, Seq<char>)>>, q: int, k: int)
    requires
        0 <= q < rs.len(),
        0 <= k < rs[q].len(),
    ensures
        lex_spec(rs).contains(token_of_match(rs[q][k])) || exists|i: int|
            0 <= i < lex_state(rs, q).1.len() && overlaps(#[trigger] lex_state(rs, q).1[i], rs[q][k]),
{
    let m = rs[q][k];
    let (claimed, toks) = lex_state(rs, q);
    if span_claimed(claimed, m) {
        let x = choose|x: int| m.0 <= x < m.1 && #[trigger] claimed.contains(x as u64);
        lemma_claimed_covered(rs, q, x as u64);
        let i = choose|i: int|
            0 <= i < lex_state(rs, q).1.len() && (#[trigger] lex_state(rs, q).1[i]).start <= (x as u64)
                < lex_state(rs, q).1[i].end;
        assert(overlaps(lex_state(rs, q).1[i], m));
    } else {
        lemma_unclaimed_keeps(rs[q], claimed, k);
        let kept = unclaimed_matches(rs[q], claimed);
        let w = choose|w: int| 0 <= w < kept.len() && kept[w] == m;
        let toks2 = toks + tokens_of_matches(kept);
        assert(lex_state(rs, q + 1).1 == toks2);
        assert(toks2[toks.len() + w] == token_of_match(m));
        let n = rs.len() as int;
        lemma_state_grows(rs, q + 1, n);
        let all = lex_state(rs, n).1;
        assert(all[toks.len() + w] == token_of_match(m));
        assert(all.contains(token_of_match(m)));
        law_sort_by_start(all);
        vstd::seq_lib::to_multiset_contains(all, token_of_match(m));
        vstd::seq_lib::to_multiset_contains(sort_by_start(all), token_of_match(m));
    }
}

} // verus!




//! The searches that the lexer has done by the fancy-regex crate, and the
//! character class that it takes from std. Nothing here is proved: each item
//! states what the outside code is trusted to do.
use vstd::prelude::*;
use vstd::utf8::is_ascii_chars;

verus! {

#[verifier::external_type_specification]
#[verifier::external_body]
pub struct ExRegex(fancy_regex::Regex);

#[verifier::external_type_specification]
#[verifier::external_body]
pub struct ExRegexError(fancy_regex::Error);

/// A regular expression together with the pattern it was compiled from.
pub struct CompiledPattern {
    re: fancy_regex::Regex,
    source: String,
}

impl CompiledPattern {
    /// The pattern that the regular expression was compiled from.
    pub closed spec fn source(&self) -> Seq<char> {
        self.source@
    }
}

/// A match of a regular expression: its start and end byte offsets in the
/// text and the text that it covers.
pub struct RawMatch {
    pub start: usize,
    pub end: usize,
    pub text: String,
}

impl View for RawMatch {
    type V = (usize, usize, Seq<char>);

    open spec fn view(&self) -> (usize, usize, Seq<char>) {
        (self.start, self.end, self.text@)
    }
}

/// Whether `fancy_regex::Regex::new` accepts `pattern`.
pub uninterp spec fn pattern_compiles(pattern: Seq<char>) -> bool;

/// The matches that `find_iter` of the regular expression compiled from
/// `pattern` yields on `text` (start byte, end byte, matched text), or
/// `None` where it yields an error.
pub uninterp spec fn regex_find_all(pattern: Seq<char>, text: Seq<char>) -> Option<
    Seq<(usize, usize, Seq<char>)>,
>;

/// Whether `char::is_numeric` holds of `c`.
pub uninterp spec fn is_numeric_char(c: char) -> bool;

/// Compiles `pattern` with `fancy_regex::Regex::new`. Trusted: the call
/// succeeds exactly where `pattern_compiles` holds of the pattern, and the
/// compiled value remembers the pattern.
#[verifier::external_body]
pub(crate) fn compile_pattern(pattern: &str) -> (r: Result<CompiledPattern, fancy_regex::Error>)
    ensures
        r is Ok <==> pattern_compiles(pattern@),
        r matches Ok(c) ==> c.source() == pattern@,
{
    fancy_regex::Regex::new(pattern).map(|re| CompiledPattern { re, source: pattern.to_string() })
}

/// Collects what `fancy_regex::Regex::find_iter` yields on `text`. Trusted:
/// the result is `regex_find_all` of the pattern and the text (an error
/// where the search yields one), and, as the crate documents, the matches are
/// successive and do not overlap: each starts no later than it ends, and
/// ends no later than the next one starts. A match's offsets are byte
/// offsets and its text is `&text[start..end]`; where the text is ASCII,
/// bytes and characters coincide, so the match's text is the characters
/// from `start` to `end`. For other text that relation is not stated (it
/// would need the UTF-8 encoding of the text), nor is anything stated of
/// which matches a pattern has.
#[verifier::external_body]
pub(crate) fn find_matches(pattern: &CompiledPattern, text: &str) -> (r: Result<
    Vec<RawMatch>,
    fancy_regex::Error,
>)
    ensures
        r is Ok <==> regex_find_all(pattern.source(), text@) is Some,
        r matches Ok(ms) ==> Some(ms@.map_values(|m: RawMatch| m@)) == regex_find_all(
            pattern.source(),
            text@,
        ),
        r matches Ok(ms) ==> forall|k: int| 0 <= k < ms@.len() ==> (#[trigger] ms@[k]).start <= ms@[k].end,
        r matches Ok(ms) ==> forall|k: int|
            0 <= k < ms@.len() - 1 ==> (#[trigger] ms@[k]).end <= ms@[k + 1].start,
        r matches Ok(ms) ==> is_ascii_chars(text@) ==> forall|k: int|
            0 <= k < ms@.len() ==> (#[trigger] ms@[k]).end <= text@.len() && ms@[k].text@
                == text@.subrange(ms@[k].start as int, ms@[k].end as int),
{
    pattern.re.find_iter(text).map(
        |m| m.map(|m| RawMatch { start: m.start(), end: m.end(), text: m.as_str().to_string() }),
    ).collect()
}

/// Calls `char::is_numeric`. Trusted: the result is `is_numeric_char` of
/// `c`. As std documents, `is_numeric` holds of the characters of the
/// Unicode general categories for numbers (Nd, Nl, No); among the ASCII
/// characters those are exactly the digits `0` to `9`. Of other characters
/// nothing more is stated (that would need the Unicode tables).
#[verifier::external_body]
pub(crate) fn char_is_numeric(c: char) -> (b: bool)
    ensures
        b == is_numeric_char(c),
        b == ((c as u32) > 0x7f && is_numeric_char(c) || 0x30 <= (c as u32) && (c as u32) <= 0x39),
{
    c.is_numeric()
}

} // verus!

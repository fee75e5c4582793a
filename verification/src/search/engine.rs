//! The outside engines the matcher stands on: a compiled `regex::bytes::Regex` kept
//! together with the source it was compiled from, `memchr::memmem` substring search,
//! `regex::escape`, and the `regex_syntax` parse of a pattern into its high-level form.

use vstd::prelude::*;
use vstd::utf8::valid_utf8;
use vstd::utf8::encode_utf8;
use regex_syntax::hir::HirKind;

verus! {

#[verifier::external_type_specification]
#[verifier::external_body]
pub struct ExRegex(regex::bytes::Regex);

#[verifier::external_type_specification]
#[verifier::external_body]
pub struct ExParsedHir(regex_syntax::hir::Hir);

/// Does `src` compile as a `regex::bytes::Regex` (syntax and the default size limits)?
pub uninterp spec fn regex_compiles(src: Seq<char>) -> bool;

/// The leftmost-first match of the regex compiled from `src` in `hay`, as a byte range.
pub uninterp spec fn regex_first_match(src: Seq<char>, hay: Seq<u8>) -> Option<(int, int)>;

/// A character with meaning in a regex (`regex_syntax::is_meta_character`).
pub open spec fn is_regex_meta(c: char) -> bool {
    c == '\\' || c == '.' || c == '+' || c == '*' || c == '?' || c == '(' || c == ')' || c == '|'
        || c == '[' || c == ']' || c == '{' || c == '}' || c == '^' || c == '$' || c == '#' || c == '&'
        || c == '-' || c == '~'
}

/// `s` with a backslash before every regex meta character.
pub open spec fn regex_escaped(s: Seq<char>) -> Seq<char>
    decreases s.len(),
{
    if s.len() == 0 {
        Seq::empty()
    } else {
        regex_escaped(s.drop_last()) + if is_regex_meta(s.last()) { seq!['\\', s.last()] } else { seq![s.last()] }
    }
}

/// The high-level form `regex_syntax` parses `pattern` into (no case folding, byte
/// mode), or `None` when it does not parse.
pub uninterp spec fn regex_parsed(pattern: Seq<char>) -> Option<PatternNode>;

/// Is `c` uppercase in the Unicode sense (`char::is_uppercase`)?
pub uninterp spec fn unicode_uppercase(c: char) -> bool;

/// Compiles `src` with `regex::bytes::Regex::new`. Claimed: success exactly when the
/// source compiles; the error's text is the regex crate's own message, of which nothing
/// is stated.
#[verifier::external_body]
fn compile_bytes_regex(src: &str) -> (r: Result<regex::bytes::Regex, String>)
    ensures
        r is Ok <==> regex_compiles(src@),
{
    regex::bytes::Regex::new(src).map_err(|e| e.to_string())
}

/// A compiled bytes regex together with the source it was compiled from. The fields are
/// private, so the pairing holds for every value: only [`CompiledRegex::new`] builds one.
#[derive(Debug)]
pub struct CompiledRegex {
    src: String,
    re: regex::bytes::Regex,
}

impl View for CompiledRegex {
    type V = Seq<char>;

    /// The source the regex was compiled from.
    closed spec fn view(&self) -> Seq<char> {
        self.src@
    }
}

impl CompiledRegex {
    /// Compile `src`; `Err` carries the regex crate's message when it does not compile.
    pub fn new(src: &str) -> (r: Result<CompiledRegex, String>)
        ensures
            r is Ok <==> regex_compiles(src@),
            r matches Ok(c) ==> c@ == src@,
    {
        match compile_bytes_regex(src) {
            Ok(re) => Ok(CompiledRegex { src: src.to_string(), re }),
            Err(e) => Err(e),
        }
    }

    /// `Regex::find`: the leftmost-first match as a byte range. Claimed: the result is
    /// the named match of this regex's source in `hay`, and a match lies inside `hay`.
    #[verifier::external_body]
    pub fn find(&self, hay: &[u8]) -> (r: Option<(usize, usize)>)
        ensures
            r is None <==> regex_first_match(self@, hay@) is None,
            r matches Some(sp) ==> regex_first_match(self@, hay@) == Some((sp.0 as int, sp.1 as int)),
            r matches Some(sp) ==> sp.0 <= sp.1 <= hay@.len(),
    {
        self.re.find(hay).map(|m| (m.start(), m.end()))
    }
}

/// Does `needle` occur in `hay` at byte `i`?
pub open spec fn occurs_at(hay: Seq<u8>, needle: Seq<u8>, i: int) -> bool {
    0 <= i && i + needle.len() <= hay.len() && hay.subrange(i, i + needle.len()) == needle
}

/// `memchr::memmem::find`: the index of the first occurrence of `needle` in `hay`.
/// Claimed as its documentation states it: `None` when the needle occurs nowhere,
/// otherwise the least index where it occurs.
#[verifier::external_body]
pub fn memmem_find(hay: &[u8], needle: &[u8]) -> (r: Option<usize>)
    ensures
        r is None <==> (forall|i: int| !occurs_at(hay@, needle@, i)),
        r matches Some(i) ==> occurs_at(hay@, needle@, i as int)
            && (forall|j: int| 0 <= j < i ==> !occurs_at(hay@, needle@, j)),
{
    memchr::memmem::find(hay, needle)
}

/// `regex::escape`, which writes each character of `s` in turn, a backslash first when
/// it is a meta character (`regex_syntax::escape_into`).
#[verifier::external_body]
pub fn escape_regex(s: &str) -> (r: String)
    ensures
        r@ == regex_escaped(s@),
{
    regex::escape(s)
}

/// `char::is_uppercase`, claimed as the named Unicode property.
#[verifier::external_body]
pub fn is_uppercase(c: char) -> (b: bool)
    ensures
        b == unicode_uppercase(c),
{
    c.is_uppercase()
}

/// `std::str::from_utf8`, claimed as documented: it succeeds exactly on valid UTF-8, and
/// the text it gives back encodes to the same bytes.
#[verifier::external_body]
pub fn utf8_text(b: &[u8]) -> (r: Option<String>)
    ensures
        r is Some <==> valid_utf8(b@),
        r matches Some(s) ==> encode_utf8(s@) == b@,
{
    std::str::from_utf8(b).ok().map(|s| s.to_string())
}

/// The part of a parsed pattern the required-needle walk reads.
#[derive(Debug)]
pub enum PatternNode {
    /// A literal byte string.
    Literal(Vec<u8>),
    /// Sub-expressions one after the other.
    Concat(Vec<PatternNode>),
    /// Any one of the sub-expressions.
    Alternation(Vec<PatternNode>),
    /// A repetition with at least `min` copies of `sub`.
    Repetition { min: u32, sub: Box<PatternNode> },
    /// A capturing group.
    Capture(Box<PatternNode>),
    /// A class, a look-around or the empty expression.
    Other,
}

/// One-for-one conversion of a parsed `regex_syntax` expression into [`PatternNode`].
#[verifier::external_body]
fn convert_hir(h: &regex_syntax::hir::Hir) -> PatternNode {
    match h.kind() {
        HirKind::Literal(l) => PatternNode::Literal(l.0.to_vec()),
        HirKind::Concat(ps) => PatternNode::Concat(ps.iter().map(convert_hir).collect()),
        HirKind::Alternation(bs) => PatternNode::Alternation(bs.iter().map(convert_hir).collect()),
        HirKind::Repetition(r) => PatternNode::Repetition { min: r.min, sub: Box::new(convert_hir(&r.sub)) },
        HirKind::Capture(c) => PatternNode::Capture(Box::new(convert_hir(&c.sub))),
        _ => PatternNode::Other,
    }
}

/// Parses `pattern` with `regex_syntax` (UTF-8 mode off, no case folding). Claimed only
/// as the named parse of the pattern.
#[verifier::external_body]
pub fn parse_pattern(pattern: &str) -> (r: Option<PatternNode>)
    ensures
        r == regex_parsed(pattern@),
{
    regex_syntax::ParserBuilder::new().utf8(false).build().parse(pattern).ok().map(|h| convert_hir(&h))
}

} // verus!

//! The matcher: the compiled pattern, the raw-byte prefilter that proves a line cannot
//! match before it is decoded, and the markers of records whose rendered text is
//! synthesized (so the prefilter cannot speak for them).

use vstd::prelude::*;
use vstd::utf8::encode_utf8;
use crate::chars::{is_whitespace, is_ws, push_char, to_chars};
use crate::model::{join, join_strings};
use crate::search::needles::{required_needles, spec_required_needles, texts};
use crate::search::engine::{
    CompiledRegex, escape_regex, is_uppercase, memmem_find, occurs_at, regex_compiles,
    regex_escaped, regex_first_match, unicode_uppercase,
};

verus! {

/// Escaped inside a JSON string literal (so never verbatim in the raw line bytes): `"`,
/// a C0 control char, or DEL.
pub open spec fn json_escapes(c: char) -> bool {
    c == '"' || (c as u32) < 0x20 || c == '\u{7f}'
}

/// Exec form of [`json_escapes`].
pub fn json_escapes_in_string(c: char) -> (b: bool)
    ensures
        b == json_escapes(c),
{
    c == '"' || (c as u32) < 0x20 || c == '\u{7f}'
}

/// A regex meta character.
pub open spec fn is_meta(c: char) -> bool {
    c == '.' || c == '*' || c == '+' || c == '?' || c == '(' || c == ')' || c == '['
        || c == ']' || c == '{' || c == '}' || c == '|' || c == '^' || c == '$' || c == '\\'
}

pub fn is_meta_char(c: char) -> (b: bool)
    ensures
        b == is_meta(c),
{
    c == '.' || c == '*' || c == '+' || c == '?' || c == '(' || c == ')' || c == '['
        || c == ']' || c == '{' || c == '}' || c == '|' || c == '^' || c == '$' || c == '\\'
}

/// Can a char of the pattern stand in a byte-exact prefilter literal? Not a meta char
/// (the pattern would not be a plain literal), not JSON-escaped (it would not be verbatim
/// in the raw line), not whitespace (renders rewrite whitespace before matching).
pub open spec fn literal_safe(c: char) -> bool {
    !is_meta(c) && !json_escapes(c) && !is_ws(c)
}

/// The pattern's bytes when the whole pattern is a plain, prefilter-safe literal.
pub open spec fn spec_required_literal(p: Seq<char>) -> Option<Seq<u8>> {
    if p.len() > 0 && forall|i: int| 0 <= i < p.len() ==> literal_safe(#[trigger] p[i]) {
        Some(encode_utf8(p))
    } else {
        None
    }
}

/// The literal every match of `pattern` contains, for the raw-byte prefilter: only when
/// the whole pattern is plain (no meta char) and holds no JSON-escaped char and no
/// whitespace, so a line whose decoded text matches always holds it verbatim.
pub fn required_literal(pattern: &str) -> (r: Option<Vec<u8>>)
    ensures
        r matches Some(v) ==> spec_required_literal(pattern@) == Some(v@),
        r is None ==> spec_required_literal(pattern@) is None,
{
    let cs = to_chars(pattern);
    if cs.len() == 0 {
        return None;
    }
    let mut i: usize = 0;
    while i < cs.len()
        invariant
            i <= cs.len(),
            cs@ == pattern@,
            forall|j: int| 0 <= j < i ==> literal_safe(#[trigger] cs@[j]),
        decreases cs.len() - i,
    {
        let c = cs[i];
        if is_meta_char(c) || json_escapes_in_string(c) || is_whitespace(c) {
            assert(!literal_safe(pattern@[i as int]));
            return None;
        }
        i = i + 1;
    }
    Some(vstd::slice::slice_to_vec(pattern.as_bytes()))
}

/// Does `needle` occur anywhere in `hay`?
pub open spec fn contains_bytes(hay: Seq<u8>, needle: Seq<u8>) -> bool {
    exists|i: int| occurs_at(hay, needle, i)
}

/// Does any of `needles` occur in `hay`?
pub open spec fn contains_any(hay: Seq<u8>, needles: Seq<Vec<u8>>) -> bool {
    exists|k: int| 0 <= k < needles.len() && contains_bytes(hay, #[trigger] needles[k]@)
}

fn has_bytes(hay: &[u8], needle: &[u8]) -> (b: bool)
    ensures
        b == contains_bytes(hay@, needle@),
{
    match memmem_find(hay, needle) {
        Some(i) => {
            assert(occurs_at(hay@, needle@, i as int));
            true
        },
        None => false,
    }
}

fn has_any(hay: &[u8], needles: &Vec<Vec<u8>>) -> (b: bool)
    ensures
        b == contains_any(hay@, needles@),
{
    let mut k: usize = 0;
    while k < needles.len()
        invariant
            k <= needles.len(),
            forall|j: int| 0 <= j < k ==> !contains_bytes(hay@, #[trigger] needles@[j]@),
        decreases needles.len() - k,
    {
        if has_bytes(hay, needles[k].as_slice()) {
            return true;
        }
        k = k + 1;
    }
    false
}

/// Raw-byte prefilter for a pattern with a required literal. Conservative: it can only
/// prove that a haystack cannot match.
#[derive(Debug)]
pub enum Prefilter {
    /// Case-sensitive literal: substring search.
    Literal(Vec<u8>),
    /// Case-insensitive literal(s): a `(?i)`-wrapped alternation of the escaped literals.
    CaselessLiteral(CompiledRegex),
    /// Case-sensitive any-of needle set.
    AnyLiteral(Vec<Vec<u8>>),
}

/// Could `hay` match, as far as the prefilter can tell?
pub open spec fn prefilter_may_match(p: Prefilter, hay: Seq<u8>) -> bool {
    match p {
        Prefilter::Literal(n) => contains_bytes(hay, n@),
        Prefilter::CaselessLiteral(re) => regex_first_match(re@, hay) is Some,
        Prefilter::AnyLiteral(ns) => contains_any(hay, ns@),
    }
}

impl Prefilter {
    /// True when `haystack` (a raw jsonl line or a whole file) could contain a match.
    pub fn may_match(&self, haystack: &[u8]) -> (b: bool)
        ensures
            b == prefilter_may_match(*self, haystack@),
    {
        match self {
            Prefilter::Literal(n) => has_bytes(haystack, n.as_slice()),
            Prefilter::CaselessLiteral(re) => re.find(haystack).is_some(),
            Prefilter::AnyLiteral(ns) => has_any(haystack, ns),
        }
    }
}

/// A compiled pattern with its flags, the optional prefilter, and the two tiers of
/// synthesized-text markers (built only when a prefilter can prune).
#[derive(Debug)]
pub struct Matcher {
    /// `None` for the empty pattern: the pure filter, every text matches.
    pub regex: Option<CompiledRegex>,
    pub prefilter: Option<Prefilter>,
    /// Markers of lines whose synthesized text can be re-rendered from the line alone.
    pub synth_verifiable: Vec<Vec<u8>>,
    /// Markers of lines whose synthesized text needs another record or an outside file.
    pub synth_conservative: Vec<Vec<u8>>,
}

/// Where the first match of `m` in `text` lies: `None` no match, `Some(None)` the pure
/// filter (no span), `Some(Some((s, e)))` the byte range of the first match.
pub open spec fn spec_locate(m: Matcher, text: Seq<char>) -> Option<Option<(int, int)>> {
    match m.regex {
        None => Some(None),
        Some(re) => match regex_first_match(re@, encode_utf8(text)) {
            None => None,
            Some(sp) => Some(Some(sp)),
        },
    }
}

/// Could the raw `line` match, as far as the prefilter and the markers can tell?
pub open spec fn spec_line_may_match(m: Matcher, line: Seq<u8>) -> bool {
    match m.prefilter {
        Some(p) => prefilter_may_match(p, line) || spec_synth_may_match(m, line),
        None => true,
    }
}

/// Does the haystack carry a synthesized-text marker of either tier?
pub open spec fn spec_synth_may_match(m: Matcher, hay: Seq<u8>) -> bool {
    contains_any(hay, m.synth_verifiable@) || contains_any(hay, m.synth_conservative@)
}

impl Matcher {
    /// The pure-filter matcher: every text matches.
    pub fn pure() -> (m: Matcher)
        ensures
            m.regex is None,
            m.prefilter is None,
            m.synth_verifiable@.len() == 0,
            m.synth_conservative@.len() == 0,
    {
        Matcher { regex: None, prefilter: None, synth_verifiable: Vec::new(), synth_conservative: Vec::new() }
    }

    /// True when the pattern is empty.
    pub fn is_pure_filter(&self) -> (b: bool)
        ensures
            b == self.regex is None,
    {
        self.regex.is_none()
    }

    /// Locate the first match, so the excerpt can be centered on it.
    pub fn locate(&self, text: &str) -> (r: Option<Option<(usize, usize)>>)
        ensures
            r is None <==> spec_locate(*self, text@) is None,
            r matches Some(None) ==> spec_locate(*self, text@) == Some(None::<(int, int)>),
            r matches Some(Some(sp)) ==> spec_locate(*self, text@) == Some(Some((sp.0 as int, sp.1 as int))),
            r matches Some(Some(sp)) ==> sp.0 <= sp.1 <= encode_utf8(text@).len(),
    {
        match &self.regex {
            None => Some(None),
            Some(re) => match re.find(text.as_bytes()) {
                Some(sp) => Some(Some(sp)),
                None => None,
            },
        }
    }

    /// True if `text` matches (always for the pure filter).
    pub fn is_match(&self, text: &str) -> (b: bool)
        ensures
            b == spec_locate(*self, text@) is Some,
    {
        self.locate(text).is_some()
    }

    /// Raw-line prefilter: with a required literal, a line lacking it (and every marker)
    /// cannot match; with none, nothing is provably a miss.
    pub fn line_may_match(&self, line: &[u8]) -> (b: bool)
        ensures
            b == spec_line_may_match(*self, line@),
    {
        match &self.prefilter {
            Some(pf) => pf.may_match(line) || self.synth_may_match(line),
            None => true,
        }
    }

    /// The literal-prefilter check alone, without the marker escape hatch.
    pub fn line_prefilter_hits(&self, line: &[u8]) -> (b: bool)
        ensures
            b == match self.prefilter {
                Some(p) => prefilter_may_match(p, line@),
                None => true,
            },
    {
        match &self.prefilter {
            Some(pf) => pf.may_match(line),
            None => true,
        }
    }

    /// True when a prefilter is anchored.
    pub fn has_prefilter(&self) -> (b: bool)
        ensures
            b == self.prefilter is Some,
    {
        self.prefilter.is_some()
    }

    /// Whole-slice form of [`Matcher::line_may_match`].
    pub fn file_may_match(&self, bytes: &[u8]) -> (b: bool)
        ensures
            b == spec_line_may_match(*self, bytes@),
    {
        self.line_may_match(bytes)
    }

    /// True when the haystack carries a marker of either tier.
    pub fn synth_may_match(&self, haystack: &[u8]) -> (b: bool)
        ensures
            b == spec_synth_may_match(*self, haystack@),
    {
        has_any(haystack, &self.synth_verifiable) || has_any(haystack, &self.synth_conservative)
    }

    /// True when the haystack carries a conservative marker (must full-scan).
    pub fn synth_conservative_hits(&self, haystack: &[u8]) -> (b: bool)
        ensures
            b == contains_any(haystack@, self.synth_conservative@),
    {
        has_any(haystack, &self.synth_conservative)
    }

    /// True when the haystack carries a verifiable marker.
    pub fn synth_verifiable_hits(&self, haystack: &[u8]) -> (b: bool)
        ensures
            b == contains_any(haystack@, self.synth_verifiable@),
    {
        has_any(haystack, &self.synth_verifiable)
    }
}

/// Which selector-gated leaves a search can reach, for the marker set.
#[derive(Debug, Clone, Copy)]
pub struct MarkerSelection {
    /// The selection reaches `harness.compaction.boundary`.
    pub compaction_boundary: bool,
    /// An explicit selector reaches the turn-duration leaf.
    pub turn_duration: bool,
    /// An explicit selector reaches the stop-hooks leaf.
    pub stop_hooks: bool,
    /// An explicit selector reaches the file-history snapshot leaf.
    pub snapshot: bool,
    /// `--resolve-persisted` is on.
    pub resolve_persisted: bool,
}

fn lit_bytes(s: &str) -> (v: Vec<u8>)
    ensures
        v@ == encode_utf8(s@),
{
    vstd::slice::slice_to_vec(s.as_bytes())
}

/// The verifiable markers a selection turns on, in order.
pub open spec fn spec_verifiable_markers(sel: MarkerSelection) -> Seq<Seq<char>> {
    seq!["<task-notification>"@, "\"answers\""@, "User has answered your questions"@,
        "Your questions have been answered"@, "stopped by the user"@]
        + (if sel.compaction_boundary { seq!["compact_boundary"@] } else { Seq::empty() })
        + (if sel.turn_duration { seq!["turn_duration"@] } else { Seq::empty() })
        + (if sel.stop_hooks { seq!["stop_hook_summary"@] } else { Seq::empty() })
        + (if sel.snapshot { seq!["file-history-"@] } else { Seq::empty() })
}

/// The conservative markers a selection turns on, in order.
pub open spec fn spec_conservative_markers(sel: MarkerSelection) -> Seq<Seq<char>> {
    seq!["To tell you how to proceed"@]
        + (if sel.resolve_persisted { seq!["persistedOutputPath"@, "Full output saved to:"@] } else { Seq::empty() })
}

/// The byte encodings of `texts`.
pub open spec fn encodings(texts: Seq<Seq<char>>) -> Seq<Seq<u8>> {
    texts.map_values(|t: Seq<char>| encode_utf8(t))
}

fn push_marker(v: &mut Vec<Vec<u8>>, s: &str)
    ensures
        final(v)@.len() == old(v)@.len() + 1,
        forall|k: int| 0 <= k < old(v)@.len() ==> final(v)@[k] == old(v)@[k],
        final(v)@[old(v)@.len() as int]@ == encode_utf8(s@),
{
    v.push(lit_bytes(s));
}

/// The synthesized-text marker needles: the verifiable tier (re-renderable from the line
/// alone) and the conservative tier (needs another record or an outside file).
pub fn synth_marker_finders(sel: MarkerSelection) -> (r: (Vec<Vec<u8>>, Vec<Vec<u8>>))
    ensures
        r.0@.map_values(|v: Vec<u8>| v@) == encodings(spec_verifiable_markers(sel)),
        r.1@.map_values(|v: Vec<u8>| v@) == encodings(spec_conservative_markers(sel)),
{
    let mut ver: Vec<Vec<u8>> = Vec::new();
    push_marker(&mut ver, "<task-notification>");
    push_marker(&mut ver, "\"answers\"");
    push_marker(&mut ver, "User has answered your questions");
    push_marker(&mut ver, "Your questions have been answered");
    push_marker(&mut ver, "stopped by the user");
    if sel.compaction_boundary {
        push_marker(&mut ver, "compact_boundary");
    }
    if sel.turn_duration {
        push_marker(&mut ver, "turn_duration");
    }
    if sel.stop_hooks {
        push_marker(&mut ver, "stop_hook_summary");
    }
    if sel.snapshot {
        push_marker(&mut ver, "file-history-");
    }
    let mut con: Vec<Vec<u8>> = Vec::new();
    push_marker(&mut con, "To tell you how to proceed");
    if sel.resolve_persisted {
        push_marker(&mut con, "persistedOutputPath");
        push_marker(&mut con, "Full output saved to:");
    }
    assert(ver@.map_values(|v: Vec<u8>| v@) =~= encodings(spec_verifiable_markers(sel)));
    assert(con@.map_values(|v: Vec<u8>| v@) =~= encodings(spec_conservative_markers(sel)));
    (ver, con)
}

/// The inline flag letters: `i` for case-insensitive, `sm` for multiline.
pub open spec fn flag_letters(ci: bool, ml: bool) -> Seq<char> {
    (if ci { seq!['i'] } else { Seq::empty() }) + (if ml { seq!['s', 'm'] } else { Seq::empty() })
}

/// The regex source with the flags applied as an inline `(?…)` group.
pub open spec fn flagged_source(p: Seq<char>, ci: bool, ml: bool) -> Seq<char> {
    if !ci && !ml { p } else { seq!['(', '?'] + flag_letters(ci, ml) + seq![')'] + p }
}

/// A lowercase hexadecimal digit.
pub open spec fn hex_digit(d: nat) -> char {
    if d < 10 { (d + 48) as char } else { (d + 87) as char }
}

/// `n` (below 256) in lowercase hexadecimal without leading zeros.
pub open spec fn hex_text(n: nat) -> Seq<char> {
    if n < 16 { seq![hex_digit(n)] } else { seq![hex_digit(n / 16), hex_digit(n % 16)] }
}

/// How `{:?}` writes `c` inside a quoted string: quote and backslash escaped, tab,
/// carriage return, line feed and NUL by their short escapes, the other ASCII control
/// characters and DEL as `\u{hex}`, everything else as itself.
pub open spec fn debug_escaped(c: char) -> Seq<char> {
    if c == '"' || c == '\\' {
        seq!['\\', c]
    } else if c == '\t' {
        seq!['\\', 't']
    } else if c == '\r' {
        seq!['\\', 'r']
    } else if c == '\n' {
        seq!['\\', 'n']
    } else if c == '\0' {
        seq!['\\', '0']
    } else if (c as u32) < 32 || (c as u32) == 127 {
        seq!['\\', 'u', '{'] + hex_text(c as u32 as nat) + seq!['}']
    } else {
        seq![c]
    }
}

/// `pattern` in double quotes, each character escaped as `{:?}` escapes it.
pub open spec fn quoted(p: Seq<char>) -> Seq<char>
    decreases p.len(),
{
    if p.len() == 0 {
        seq!['"', '"']
    } else {
        let q = quoted(p.drop_last());
        q.take(q.len() - 1) + debug_escaped(p.last()) + seq!['"']
    }
}

fn hex_char(d: u32) -> (c: char)
    requires
        d < 16,
    ensures
        c == hex_digit(d as nat),
{
    if d < 10 {
        ((d as u8) + 48u8) as char
    } else {
        ((d as u8) + 87u8) as char
    }
}

fn push_debug_escaped(s: &mut String, c: char)
    ensures
        final(s)@ == old(s)@ + debug_escaped(c),
{
    let n = c as u32;
    if c == '"' || c == '\\' {
        push_char(s, '\\');
        push_char(s, c);
    } else if c == '\t' {
        push_char(s, '\\');
        push_char(s, 't');
    } else if c == '\r' {
        push_char(s, '\\');
        push_char(s, 'r');
    } else if c == '\n' {
        push_char(s, '\\');
        push_char(s, 'n');
    } else if c == '\0' {
        push_char(s, '\\');
        push_char(s, '0');
    } else if n < 32 || n == 127 {
        push_char(s, '\\');
        push_char(s, 'u');
        push_char(s, '{');
        if n < 16 {
            push_char(s, hex_char(n));
        } else {
            push_char(s, hex_char(n / 16));
            push_char(s, hex_char(n % 16));
        }
        push_char(s, '}');
    } else {
        push_char(s, c);
    }
    assert(final(s)@ =~= old(s)@ + debug_escaped(c));
}

/// The refusal of a pattern that does not compile.
pub open spec fn invalid_pattern_message(p: Seq<char>, detail: Seq<char>) -> Seq<char> {
    "invalid regex pattern: "@ + quoted(p) + ": "@ + detail
}

proof fn lemma_quoted_len(p: Seq<char>)
    ensures
        quoted(p).len() >= 2,
        quoted(p).last() == '"',
    decreases p.len(),
{
    if p.len() > 0 {
        lemma_quoted_len(p.drop_last());
    }
}

pub fn quote(p: &str) -> (q: String)
    ensures
        q@ == quoted(p@),
{
    let cs = to_chars(p);
    let mut body = String::new();
    let mut i: usize = 0;
    while i < cs.len()
        invariant
            i <= cs.len(),
            cs@ == p@,
            seq!['"'] + body@ + seq!['"'] == quoted(cs@.take(i as int)),
        decreases cs.len() - i,
    {
        let ghost before = body@;
        let c = cs[i];
        push_debug_escaped(&mut body, c);
        proof {
            let t = cs@.take(i as int + 1);
            assert(t.drop_last() =~= cs@.take(i as int));
            lemma_quoted_len(t.drop_last());
            let q = quoted(t.drop_last());
            assert(q.take(q.len() - 1) =~= seq!['"'] + before);
        }
        assert(seq!['"'] + body@ + seq!['"'] =~= quoted(cs@.take(i as int + 1)));
        i = i + 1;
    }
    assert(cs@.take(cs@.len() as int) =~= cs@);
    let mut q = String::new();
    push_char(&mut q, '"');
    q.append(body.as_str());
    push_char(&mut q, '"');
    assert(q@ =~= seq!['"'] + body@ + seq!['"']);
    q
}

fn invalid_pattern(p: &str, detail: &str) -> (m: String)
    ensures
        m@ == invalid_pattern_message(p@, detail@),
{
    let mut m = String::new();
    m.append("invalid regex pattern: ");
    let q = quote(p);
    m.append(q.as_str());
    m.append(": ");
    m.append(detail);
    assert(m@ =~= invalid_pattern_message(p@, detail@)) by {
        reveal_strlit("invalid regex pattern: ");
        reveal_strlit(": ");
    }
    m
}

/// The final regex source with the requested flags applied through an inline group, after
/// validating the bare pattern. `Err` when the bare pattern does not compile.
pub fn apply_builder(pattern: &str, case_insensitive: bool, multiline: bool) -> (r: Result<String, String>)
    ensures
        r is Ok <==> regex_compiles(pattern@),
        r matches Ok(src) ==> src@ == flagged_source(pattern@, case_insensitive, multiline),
{
    let mut flags = String::new();
    if case_insensitive {
        push_char(&mut flags, 'i');
    }
    if multiline {
        push_char(&mut flags, 's');
        push_char(&mut flags, 'm');
    }
    assert(flags@ =~= flag_letters(case_insensitive, multiline));
    match CompiledRegex::new(pattern) {
        Err(e) => return Err(invalid_pattern(pattern, e.as_str())),
        Ok(_) => {},
    }
    if flags.as_str().is_empty() {
        Ok(pattern.to_string())
    } else {
        let mut out = String::new();
        push_char(&mut out, '(');
        push_char(&mut out, '?');
        out.append(flags.as_str());
        push_char(&mut out, ')');
        out.append(pattern);
        assert(out@ =~= flagged_source(pattern@, case_insensitive, multiline));
        Ok(out)
    }
}

/// Some char of `p` is uppercase.
pub open spec fn has_uppercase(p: Seq<char>) -> bool {
    exists|i: int| 0 <= i < p.len() && unicode_uppercase(#[trigger] p[i])
}

/// Smart case: insensitive unless the pattern holds an uppercase letter; `-i` forces it.
pub open spec fn case_insensitive(p: Seq<char>, ignore_case: bool) -> bool {
    ignore_case || !has_uppercase(p)
}

fn any_uppercase(p: &str) -> (b: bool)
    ensures
        b == has_uppercase(p@),
{
    let cs = to_chars(p);
    let mut i: usize = 0;
    while i < cs.len()
        invariant
            i <= cs.len(),
            cs@ == p@,
            forall|j: int| 0 <= j < i ==> !unicode_uppercase(#[trigger] cs@[j]),
        decreases cs.len() - i,
    {
        if is_uppercase(cs[i]) {
            return true;
        }
        i = i + 1;
    }
    false
}

/// The caseless prefilter's source: `(?i)` and the escaped needles as an alternation.
pub open spec fn caseless_source(needles: Seq<Seq<char>>) -> Seq<char> {
    "(?i)"@ + join(needles.map_values(|n: Seq<char>| regex_escaped(n)), "|"@)
}

/// The prefilter a needle set yields under the engine's case mode, if its source compiles.
pub open spec fn prefilter_matches(pf: Option<Prefilter>, needles: Option<Seq<Seq<char>>>, ci: bool) -> bool {
    match needles {
        None => pf is None,
        Some(ns) => if ci {
            pf matches Some(Prefilter::CaselessLiteral(re)) && re@ == caseless_source(ns)
        } else if ns.len() == 1 {
            pf matches Some(Prefilter::Literal(n)) && n@ == encode_utf8(ns[0])
        } else {
            pf matches Some(Prefilter::AnyLiteral(v)) && v@.len() == ns.len()
                && forall|k: int| 0 <= k < ns.len() ==> (#[trigger] v@[k])@ == encode_utf8(ns[k])
        },
    }
}

/// Every source `build_matcher` compiles for a non-empty pattern does compile.
pub open spec fn matcher_compiles(p: Seq<char>, ignore_case: bool, multiline: bool) -> bool {
    let ci = case_insensitive(p, ignore_case);
    &&& regex_compiles(p)
    &&& regex_compiles(flagged_source(p, ci, multiline))
    &&& (ci && spec_required_needles(p) is Some ==> regex_compiles(caseless_source(spec_required_needles(p)->0)))
}

fn caseless_prefilter(needles: &Vec<String>) -> (r: Result<CompiledRegex, String>)
    ensures
        r is Ok <==> regex_compiles(caseless_source(texts(needles@))),
        r matches Ok(re) ==> re@ == caseless_source(texts(needles@)),
{
    let mut alts: Vec<String> = Vec::new();
    let mut i: usize = 0;
    while i < needles.len()
        invariant
            i <= needles.len(),
            alts@.len() == i,
            forall|k: int| 0 <= k < i ==> (#[trigger] alts@[k])@ == regex_escaped(needles@[k]@),
        decreases needles.len() - i,
    {
        alts.push(escape_regex(needles[i].as_str()));
        i = i + 1;
    }
    let mut src = String::new();
    src.append("(?i)");
    let body = join_strings(&alts, "|");
    src.append(body.as_str());
    assert(alts@.map_values(|s: String| s@) =~= texts(needles@).map_values(|n: Seq<char>| regex_escaped(n)));
    assert(src@ =~= caseless_source(texts(needles@)));
    CompiledRegex::new(src.as_str())
}

/// Compile the user pattern honoring smart case, `-i` and `--multiline`, with its
/// prefilter and markers. The empty pattern is the pure filter.
pub fn build_matcher(pattern: &str, ignore_case: bool, multiline: bool, sel: MarkerSelection) -> (r: Result<Matcher, String>)
    ensures
        pattern@.len() == 0 ==> (r matches Ok(m) && m.regex is None && m.prefilter is None
            && m.synth_verifiable@.len() == 0 && m.synth_conservative@.len() == 0),
        pattern@.len() > 0 ==> (r is Ok <==> matcher_compiles(pattern@, ignore_case, multiline)),
        pattern@.len() > 0 ==> (r matches Ok(m) ==> {
            let ci = case_insensitive(pattern@, ignore_case);
            &&& m.regex matches Some(re) && re@ == flagged_source(pattern@, ci, multiline)
            &&& prefilter_matches(m.prefilter, spec_required_needles(pattern@), ci)
            &&& m.prefilter is Some ==> (m.synth_verifiable@.map_values(|v: Vec<u8>| v@) == encodings(spec_verifiable_markers(sel))
                && m.synth_conservative@.map_values(|v: Vec<u8>| v@) == encodings(spec_conservative_markers(sel)))
            &&& m.prefilter is None ==> (m.synth_verifiable@.len() == 0 && m.synth_conservative@.len() == 0)
        }),
{
    if pattern.is_empty() {
        return Ok(Matcher::pure());
    }
    let ci = ignore_case || !any_uppercase(pattern);
    let src = match apply_builder(pattern, ci, multiline) {
        Ok(s) => s,
        Err(e) => return Err(e),
    };
    let regex = match CompiledRegex::new(src.as_str()) {
        Ok(re) => re,
        Err(e) => return Err(invalid_pattern(pattern, e.as_str())),
    };
    let prefilter = match required_needles(pattern) {
        None => None,
        Some(needles) => {
            if ci {
                match caseless_prefilter(&needles) {
                    Ok(re) => Some(Prefilter::CaselessLiteral(re)),
                    Err(e) => return Err(invalid_pattern(pattern, e.as_str())),
                }
            } else if needles.len() == 1 {
                Some(Prefilter::Literal(vstd::slice::slice_to_vec(needles[0].as_str().as_bytes())))
            } else {
                let mut v: Vec<Vec<u8>> = Vec::new();
                let mut i: usize = 0;
                while i < needles.len()
                    invariant
                        i <= needles.len(),
                        v@.len() == i,
                        forall|k: int| 0 <= k < i ==> (#[trigger] v@[k])@ == encode_utf8(needles@[k]@),
                    decreases needles.len() - i,
                {
                    v.push(vstd::slice::slice_to_vec(needles[i].as_str().as_bytes()));
                    i = i + 1;
                }
                Some(Prefilter::AnyLiteral(v))
            }
        },
    };
    let (ver, con) = if prefilter.is_some() {
        synth_marker_finders(sel)
    } else {
        (Vec::new(), Vec::new())
    };
    Ok(Matcher { regex: Some(regex), prefilter, synth_verifiable: ver, synth_conservative: con })
}

} // verus!

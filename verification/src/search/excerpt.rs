//! Excerpts of a hit: the fixed-cap head form, the match-centered window, the `--turn`
//! token, and the answered-question text of a tool-result carrier.

use vstd::prelude::*;
use vstd::utf8::{decode_utf8, encode_utf8, encode_utf8_decode_utf8, is_char_boundary};
use crate::chars::{from_chars, push_char, to_chars};
use crate::model::{Block, Content, Record, spec_blocks};
use crate::range::{RangeSpec, spec_parse_range, trimmed};
use crate::search::types::EXCERPT_MAX;
use crate::text::{more_marker, normalize_chars, normalize_line, normalized, push_more_marker, truncated};

verus! {

/// Truncate to [`EXCERPT_MAX`] chars with the explicit `… (+N chars)` marker.
pub fn truncate_excerpt(s: &str) -> (out: String)
    ensures
        out@ == truncated(s@, EXCERPT_MAX as nat),
{
    crate::text::truncate_excerpt(s, EXCERPT_MAX)
}

/// The head-anchored form: the normalized text capped at `max`, and whether the cap bit.
pub open spec fn head_form(t: Seq<char>, max: nat) -> (Seq<char>, bool) {
    (truncated(normalized(t), max), normalized(t).len() > max)
}

/// How many chars of `t` precede byte `b` of its encoding.
pub open spec fn chars_before(t: Seq<char>, b: int) -> nat {
    decode_utf8(encode_utf8(t).subrange(0, b)).len()
}

/// The excerpt of `t` around the first match starting at byte `span.0`: the text whole
/// (normalized, capped) when it fits `max` or there is no span; otherwise a `max`-char
/// window with a quarter of the budget as leading context, a leading `…` when content
/// precedes it and the `… (+N chars)` marker when content follows. The flag says whether
/// content was clipped.
pub open spec fn spec_match_excerpt(t: Seq<char>, span: Option<(int, int)>, max: nat) -> (Seq<char>, bool) {
    let total = t.len();
    match span {
        Some(sp) => if total > max && is_char_boundary(encode_utf8(t), sp.0) {
            let mc = chars_before(t, sp.0);
            let ws: int = if mc > max / 4 { mc - max / 4 } else { 0 };
            let we: int = if total - ws > max { ws + max } else { total as int };
            let after: int = if total - ws > max { total - ws - max } else { 0 };
            (
                (if ws > 0 { seq!['…'] } else { Seq::empty() }) + normalized(t.subrange(ws, we))
                    + (if after > 0 { more_marker(after as nat) } else { Seq::empty() }),
                true,
            )
        } else {
            head_form(t, max)
        },
        None => head_form(t, max),
    }
}

fn head_excerpt(text: &str, max: usize) -> (r: (String, bool))
    ensures
        r.0@ == head_form(text@, max as nat).0,
        r.1 == head_form(text@, max as nat).1,
{
    let norm = normalize_line(text);
    let n = to_chars(norm.as_str());
    let trunc = n.len() > max;
    (crate::text::truncate_chars(n.as_slice(), max), trunc)
}

/// Build the inline excerpt, centered on the match so a hit deep in a long message is
/// visible. `span` is the first match's byte range, `None` for the pure filter.
pub fn match_excerpt(text: &str, span: Option<(usize, usize)>, max: usize) -> (r: (String, bool))
    ensures
        ({
            let sp = match span {
                Some(s) => Some((s.0 as int, s.1 as int)),
                None => None,
            };
            r.0@ == spec_match_excerpt(text@, sp, max as nat).0 && r.1 == spec_match_excerpt(text@, sp, max as nat).1
        }),
{
    let cs = to_chars(text);
    let total = cs.len();
    let start_byte = match span {
        Some(sp) => {
            if total > max {
                sp.0
            } else {
                return head_excerpt(text, max);
            }
        },
        None => return head_excerpt(text, max),
    };
    if !text.is_char_boundary(start_byte) {
        return head_excerpt(text, max);
    }
    let (prefix, _rest) = text.split_at(start_byte);
    proof {
        encode_utf8_decode_utf8(prefix@);
    }
    let match_char = to_chars(prefix).len();
    assert(match_char == chars_before(text@, start_byte as int));
    proof {
        let bytes = encode_utf8(text@);
        vstd::utf8::encode_utf8_valid_utf8(text@);
        vstd::utf8::decode_utf8_split(bytes, start_byte as int);
        encode_utf8_decode_utf8(text@);
        assert(match_char <= total);
    }
    let win_start = if match_char > max / 4 { match_char - max / 4 } else { 0 };
    let win_end = if total - win_start > max { win_start + max } else { total };
    let mut window: Vec<char> = Vec::new();
    let mut i = win_start;
    while i < win_end
        invariant
            win_start <= i <= win_end <= total,
            total == cs@.len(),
            cs@ == text@,
            window@ == cs@.subrange(win_start as int, i as int),
        decreases win_end - i,
    {
        window.push(cs[i]);
        i = i + 1;
        assert(window@ =~= cs@.subrange(win_start as int, i as int));
    }
    let body = normalize_chars(window.as_slice());
    let after = if total - win_start > max { total - win_start - max } else { 0 };
    let mut out = String::new();
    if win_start > 0 {
        push_char(&mut out, '…');
    }
    out.append(body.as_str());
    if after > 0 {
        push_more_marker(&mut out, after);
    }
    proof {
        let pre = if win_start > 0 { seq!['…'] } else { Seq::<char>::empty() };
        let post = if after > 0 { more_marker(after as nat) } else { Seq::<char>::empty() };
        assert(out@ =~= pre + normalized(text@.subrange(win_start as int, win_end as int)) + post);
    }
    (out, true)
}

/// Parse a `--turn` token (`N`, `A..B`, `N..`, `..N`, `-k`), resolved later against each
/// transcript's 0-based turn count.
pub fn parse_turn_range(s: &str) -> (r: Result<RangeSpec, String>)
    ensures
        r is Ok <==> spec_parse_range(trimmed(s@), false) is Some,
        r matches Ok(spec) ==> spec_parse_range(trimmed(s@), false) == Some(spec),
{
    crate::range::parse_range_spec(s, "--turn", false)
}

/// Does `needle` occur in `hay`?
pub open spec fn has_sub(hay: Seq<char>, needle: Seq<char>) -> bool {
    exists|i: int| 0 <= i && i + needle.len() <= hay.len() && #[trigger] hay.subrange(i, i + needle.len()) == needle
}

/// Char-slice substring test.
pub fn contains_chars(hay: &[char], needle: &[char]) -> (b: bool)
    ensures
        b == has_sub(hay@, needle@),
{
    if needle.len() > hay.len() {
        return false;
    }
    let last = hay.len() - needle.len();
    let mut i: usize = 0;
    while i <= last
        invariant
            last == hay.len() - needle.len(),
            i <= last + 1,
            forall|k: int| 0 <= k < i ==> #[trigger] hay@.subrange(k, k + needle@.len()) != needle@,
        decreases last + 1 - i,
    {
        let mut j: usize = 0;
        let mut same = true;
        while j < needle.len()
            invariant
                i + needle.len() <= hay.len(),
                j <= needle.len(),
                same == (forall|k: int| 0 <= k < j ==> hay@[i + k] == needle@[k]),
            decreases needle.len() - j,
        {
            if hay[i + j] != needle[j] {
                same = false;
            }
            j = j + 1;
        }
        if same {
            assert(hay@.subrange(i as int, i + needle@.len()) =~= needle@);
            return true;
        }
        let ghost k0 = choose|k: int| 0 <= k < needle@.len() && hay@[i + k] != needle@[k];
        assert(hay@.subrange(i as int, i + needle@.len())[k0] != needle@[k0]);
        i = i + 1;
    }
    assert forall|k: int| 0 <= k && k + needle@.len() <= hay@.len() implies
        #[trigger] hay@.subrange(k, k + needle@.len()) != needle@ by {
        assert(k < i);
    }
    false
}

/// The two shipped phrasings of an answered AskUserQuestion tool result.
pub open spec fn is_auq_answer(t: Seq<char>) -> bool {
    has_sub(t, "User has answered your questions"@) || has_sub(t, "Your questions have been answered"@)
}

/// Does `t` carry an answered-question marker?
pub fn is_auq_answer_text(t: &str) -> (b: bool)
    ensures
        b == is_auq_answer(t@),
{
    let cs = to_chars(t);
    let a = to_chars("User has answered your questions");
    let b = to_chars("Your questions have been answered");
    contains_chars(cs.as_slice(), a.as_slice()) || contains_chars(cs.as_slice(), b.as_slice())
}

/// The first tool-result text among `bs` that is an answered question.
pub open spec fn first_auq_answer(bs: Seq<Block>) -> Option<Seq<char>>
    decreases bs.len(),
{
    if bs.len() == 0 {
        None
    } else {
        match bs[0] {
            Block::ToolResult { content: Some(c), .. } => if is_auq_answer(c@) {
                Some(c@)
            } else {
                first_auq_answer(bs.drop_first())
            },
            _ => first_auq_answer(bs.drop_first()),
        }
    }
}

/// The answered-question text of a carrier's `tool_result`: the first tool-result
/// block whose text carries an answer marker; `None` when the record has no block list.
pub fn auq_answer_text(rec: &Record) -> (r: Option<String>)
    ensures
        r matches Some(s) ==> spec_blocks(*rec) matches Some(bs) && first_auq_answer(bs) == Some(s@),
        r is None ==> (spec_blocks(*rec) is None || first_auq_answer(spec_blocks(*rec)->0) is None),
{
    let bs = match &rec.message {
        Some(m) => match &m.content {
            Some(Content::Blocks(bs)) => bs,
            _ => return None,
        },
        None => return None,
    };
    assert(spec_blocks(*rec) == Some(bs@));
    let mut i: usize = 0;
    assert(bs@.skip(0) =~= bs@);
    while i < bs.len()
        invariant
            i <= bs.len(),
            spec_blocks(*rec) == Some(bs@),
            first_auq_answer(bs@) == first_auq_answer(bs@.skip(i as int)),
        decreases bs.len() - i,
    {
        assert(bs@.skip(i as int).drop_first() =~= bs@.skip(i as int + 1));
        assert(bs@.skip(i as int)[0] == bs@[i as int]);
        match &bs[i] {
            Block::ToolResult { content: Some(c), .. } => {
                if is_auq_answer_text(c.as_str()) {
                    assert(first_auq_answer(bs@.skip(i as int)) == Some(c@));
                    let out = c.clone();
                    assert(out@ == c@);
                    return Some(out);
                }
            },
            _ => {},
        }
        i = i + 1;
    }
    assert(bs@.skip(bs.len() as int) =~= Seq::<Block>::empty());
    None
}

} // verus!

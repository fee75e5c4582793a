//! Shared text shaping: explicit truncation, whitespace normalization, and the
//! `N` / `A..B` / `N..` / `..N` / `-k` range grammar that `--line` and `--turn` share.

use vstd::prelude::*;
use crate::chars::{decimal, from_chars, is_whitespace, is_ws, push_char, push_decimal, to_chars};

verus! {

/// The explicit truncation marker ` … (+N chars)` written after a clipped prefix.
pub open spec fn more_marker(n: nat) -> Seq<char> {
    seq!['…', ' ', '(', '+'] + decimal(n) + seq![' ', 'c', 'h', 'a', 'r', 's', ')']
}

/// `s` cut to its first `max` chars, followed by the explicit marker naming how many
/// chars were dropped; `s` itself when it fits. Truncation is never silent.
pub open spec fn truncated(s: Seq<char>, max: nat) -> Seq<char> {
    if s.len() <= max {
        s
    } else {
        s.take(max as int) + more_marker((s.len() - max) as nat)
    }
}

/// Append the explicit ` … (+N chars)` marker.
pub fn push_more_marker(out: &mut String, n: usize)
    ensures
        final(out)@ == old(out)@ + more_marker(n as nat),
{
    push_char(out, '…');
    push_char(out, ' ');
    push_char(out, '(');
    push_char(out, '+');
    push_decimal(out, n as u64);
    push_char(out, ' ');
    push_char(out, 'c');
    push_char(out, 'h');
    push_char(out, 'a');
    push_char(out, 'r');
    push_char(out, 's');
    push_char(out, ')');
    assert(final(out)@ =~= old(out)@ + more_marker(n as nat));
}

/// Char-slice form of [`truncate_excerpt`].
pub fn truncate_chars(s: &[char], max: usize) -> (out: String)
    ensures
        out@ == truncated(s@, max as nat),
{
    if s.len() <= max {
        from_chars(s)
    } else {
        let mut out = String::new();
        let mut i: usize = 0;
        while i < max
            invariant
                i <= max,
                max < s.len(),
                out@ == s@.take(i as int),
            decreases max - i,
        {
            push_char(&mut out, s[i]);
            i = i + 1;
            assert(out@ =~= s@.take(i as int));
        }
        push_more_marker(&mut out, s.len() - max);
        out
    }
}

/// Keep at most `max` chars of `s`; when chars were dropped, append the explicit
/// `… (+N chars)` marker (N = the dropped count). Counts chars, never bytes.
pub fn truncate_excerpt(s: &str, max: usize) -> (out: String)
    ensures
        out@ == truncated(s@, max as nat),
{
    let v = to_chars(s);
    truncate_chars(v.as_slice(), max)
}

/// Collapse every whitespace run to ONE space and drop leading/trailing whitespace,
/// reading `s` left to right: `started` says a word was already written, `pending` that
/// a whitespace run followed it (so the next word is preceded by a single space).
pub open spec fn collapse_ws(s: Seq<char>, started: bool, pending: bool) -> Seq<char>
    decreases s.len(),
{
    if s.len() == 0 {
        Seq::empty()
    } else if is_ws(s[0]) {
        collapse_ws(s.drop_first(), started, started)
    } else {
        (if pending { seq![' '] } else { Seq::empty() }) + seq![s[0]]
            + collapse_ws(s.drop_first(), true, false)
    }
}

/// One-line form of a text: whitespace runs become a single space, ends trimmed.
pub open spec fn normalized(s: Seq<char>) -> Seq<char> {
    collapse_ws(s, false, false)
}

proof fn lemma_collapse_step(s: Seq<char>, i: int, started: bool, pending: bool)
    requires
        0 <= i < s.len(),
    ensures
        collapse_ws(s.skip(i), started, pending) == (if is_ws(s[i]) {
            collapse_ws(s.skip(i + 1), started, started)
        } else {
            (if pending { seq![' '] } else { Seq::<char>::empty() }) + seq![s[i]]
                + collapse_ws(s.skip(i + 1), true, false)
        }),
{
    assert(s.skip(i).drop_first() =~= s.skip(i + 1));
    assert(s.skip(i)[0] == s[i]);
}

/// Char-slice form of [`normalize_line`].
pub fn normalize_chars(s: &[char]) -> (out: String)
    ensures
        out@ == normalized(s@),
{
    let mut out = String::new();
    let mut started = false;
    let mut pending = false;
    let mut i: usize = 0;
    assert(s@.skip(0) =~= s@);
    while i < s.len()
        invariant
            i <= s.len(),
            out@ + collapse_ws(s@.skip(i as int), started, pending) == normalized(s@),
            pending ==> started,
        decreases s.len() - i,
    {
        let c = s[i];
        proof {
            lemma_collapse_step(s@, i as int, started, pending);
        }
        if is_whitespace(c) {
            pending = started;
        } else {
            let ghost before = out@;
            let ghost was_pending = pending;
            if pending {
                push_char(&mut out, ' ');
            }
            push_char(&mut out, c);
            started = true;
            pending = false;
            proof {
                let rest = collapse_ws(s@.skip(i + 1), true, false);
                let sp = if was_pending { seq![' '] } else { Seq::<char>::empty() };
                assert(out@ =~= before + sp + seq![c]);
                assert(out@ + rest =~= before + (sp + seq![c] + rest));
            }
        }
        i = i + 1;
    }
    assert(s@.skip(s.len() as int) =~= Seq::<char>::empty());
    out
}

/// Collapse whitespace runs to single spaces and trim the ends.
pub fn normalize_line(s: &str) -> (out: String)
    ensures
        out@ == normalized(s@),
{
    let v = to_chars(s);
    normalize_chars(v.as_slice())
}

} // verus!

//! The required-needle set of a pattern: literals of which every match must contain at
//! least one verbatim, found by a necessity-only walk of the parsed pattern.

use vstd::prelude::*;
use vstd::utf8::{decode_utf8, encode_utf8, encode_utf8_decode_utf8};
use crate::chars::{from_chars, is_whitespace, is_ws, to_chars};
use crate::search::engine::{PatternNode, parse_pattern, regex_parsed, utf8_text};
use crate::search::matcher::{is_meta, is_meta_char, json_escapes, json_escapes_in_string, required_literal, spec_required_literal};

verus! {

/// Needle-set size cap: a huge any-of set scans slower than it saves.
pub const MAX_NEEDLES: usize = 8;
/// Per-needle minimum byte length: a shorter needle hits nearly every line.
pub const MIN_NEEDLE_LEN: usize = 3;

/// A char that splits a literal into safe runs (whitespace or JSON-escaped).
pub open spec fn splits_run(c: char) -> bool {
    is_ws(c) || json_escapes(c)
}

/// The runs of `s` between splitting chars (always at least one, possibly empty).
pub open spec fn runs(s: Seq<char>) -> Seq<Seq<char>>
    decreases s.len(),
{
    if s.len() == 0 {
        seq![Seq::empty()]
    } else {
        let r = runs(s.drop_last());
        if splits_run(s.last()) {
            r.push(Seq::empty())
        } else {
            r.update(r.len() - 1, r.last().push(s.last()))
        }
    }
}

/// Byte length of a text.
pub open spec fn blen(t: Seq<char>) -> nat {
    encode_utf8(t).len()
}

/// The longest run by byte length; the last of equally long ones.
pub open spec fn best_run(rs: Seq<Seq<char>>) -> Seq<char>
    decreases rs.len(),
{
    if rs.len() <= 1 {
        if rs.len() == 1 { rs[0] } else { Seq::empty() }
    } else {
        let b = best_run(rs.drop_last());
        if blen(rs.last()) >= blen(b) { rs.last() } else { b }
    }
}

/// What a literal contributes: its longest safe run, when that run is long enough.
pub open spec fn literal_needles(bytes: Seq<u8>) -> Option<Seq<Seq<char>>> {
    if vstd::utf8::valid_utf8(bytes) {
        let r = best_run(runs(decode_utf8(bytes)));
        if blen(r) >= MIN_NEEDLE_LEN { Some(seq![r]) } else { None }
    } else {
        None
    }
}

/// The shortest needle's byte length (0 for an empty set).
pub open spec fn min_blen(set: Seq<Seq<char>>) -> nat
    decreases set.len(),
{
    if set.len() == 0 {
        0
    } else if set.len() == 1 {
        blen(set[0])
    } else {
        let m = min_blen(set.drop_last());
        if blen(set.last()) < m { blen(set.last()) } else { m }
    }
}

/// `a` is at least as strong as `b`: a longer worst needle, then fewer needles.
pub open spec fn at_least_as_strong(a: Seq<Seq<char>>, b: Seq<Seq<char>>) -> bool {
    min_blen(a) > min_blen(b) || (min_blen(a) == min_blen(b) && a.len() <= b.len())
}

/// `set` with `extra`'s needles appended, each only if not already present.
pub open spec fn union_into(set: Seq<Seq<char>>, extra: Seq<Seq<char>>) -> Seq<Seq<char>>
    decreases extra.len(),
{
    if extra.len() == 0 {
        set
    } else {
        let u = union_into(set, extra.drop_last());
        if u.contains(extra.last()) { u } else { u.push(extra.last()) }
    }
}

/// The needle set a sub-pattern demands, `None` when it demands none.
pub open spec fn node_needles(h: PatternNode) -> Option<Seq<Seq<char>>>
    decreases h, 1int, 0int,
{
    match h {
        PatternNode::Literal(b) => literal_needles(b@),
        PatternNode::Concat(ps) => concat_best(h, ps@.len() as int),
        PatternNode::Alternation(bs) => match alternation_union(h, bs@.len() as int) {
            Some(u) => if u.len() > 0 { Some(u) } else { None },
            None => None,
        },
        PatternNode::Repetition { min, sub } => if min >= 1 { node_needles(*sub) } else { None },
        PatternNode::Capture(sub) => node_needles(*sub),
        PatternNode::Other => None,
    }
}

/// The strongest contribution among the first `n` parts of a concatenation (the last of
/// equally strong ones); every match contains every part, so any one part's set is
/// required.
pub open spec fn concat_best(h: PatternNode, n: int) -> Option<Seq<Seq<char>>>
    decreases h, 0int, n,
{
    match h {
        PatternNode::Concat(ps) => if n <= 0 || n > ps@.len() {
            None
        } else {
            let prev = concat_best(h, n - 1);
            match node_needles(ps@[n - 1]) {
                None => prev,
                Some(s) => match prev {
                    None => Some(s),
                    Some(p) => if at_least_as_strong(s, p) { Some(s) } else { Some(p) },
                },
            }
        },
        _ => None,
    }
}

/// The union of the first `n` branches' sets; `None` as soon as one branch demands none
/// (a match may take that branch).
pub open spec fn alternation_union(h: PatternNode, n: int) -> Option<Seq<Seq<char>>>
    decreases h, 0int, n,
{
    match h {
        PatternNode::Alternation(bs) => if n <= 0 || n > bs@.len() {
            Some(Seq::empty())
        } else {
            match alternation_union(h, n - 1) {
                None => None,
                Some(u) => match node_needles(bs@[n - 1]) {
                    None => None,
                    Some(s) => Some(union_into(u, s)),
                },
            }
        },
        _ => Some(Seq::empty()),
    }
}

/// Views of a list of strings.
pub open spec fn texts(v: Seq<String>) -> Seq<Seq<char>> {
    v.map_values(|s: String| s@)
}

proof fn lemma_runs_nonempty(s: Seq<char>)
    ensures
        runs(s).len() >= 1,
    decreases s.len(),
{
    if s.len() > 0 {
        lemma_runs_nonempty(s.drop_last());
    }
}

fn byte_len(s: &String) -> (n: usize)
    ensures
        n == blen(s@),
{
    s.as_str().as_bytes().len()
}

/// The split runs of `s`, as strings.
fn split_runs(s: &[char]) -> (out: Vec<String>)
    ensures
        texts(out@) == runs(s@),
        out@.len() >= 1,
{
    proof { lemma_runs_nonempty(s@); }
    let mut out: Vec<String> = Vec::new();
    let mut cur: Vec<char> = Vec::new();
    let mut i: usize = 0;
    while i < s.len()
        invariant
            i <= s.len(),
            texts(out@).push(cur@) == runs(s@.take(i as int)),
        decreases s.len() - i,
    {
        let ghost before = s@.take(i as int);
        assert(s@.take(i as int + 1).drop_last() =~= before);
        let c = s[i];
        if is_whitespace(c) || json_escapes_in_string(c) {
            let ghost prev = texts(out@);
            out.push(from_chars(cur.as_slice()));
            cur = Vec::new();
            assert(texts(out@) =~= prev.push(runs(before).last()));
            assert(texts(out@).push(cur@) =~= runs(s@.take(i as int + 1)));
        } else {
            cur.push(c);
            assert(texts(out@).push(cur@) =~= runs(s@.take(i as int + 1)));
        }
        i = i + 1;
    }
    assert(s@.take(s@.len() as int) =~= s@);
    let ghost prev = texts(out@);
    out.push(from_chars(cur.as_slice()));
    assert(texts(out@) =~= prev.push(cur@));
    out
}

/// The last longest run, by byte length.
fn longest_run(rs: Vec<String>) -> (r: String)
    requires
        rs@.len() >= 1,
    ensures
        r@ == best_run(texts(rs@)),
{
    let mut best: usize = 0;
    let mut i: usize = 1;
    assert(texts(rs@).take(1) =~= seq![rs@[0]@]);
    while i < rs.len()
        invariant
            1 <= i <= rs.len(),
            best < i,
            rs@[best as int]@ == best_run(texts(rs@).take(i as int)),
        decreases rs.len() - i,
    {
        let ghost t = texts(rs@).take(i as int + 1);
        assert(t.drop_last() =~= texts(rs@).take(i as int));
        assert(t.last() == rs@[i as int]@);
        assert(best_run(t) == (if blen(t.last()) >= blen(best_run(t.drop_last())) { t.last() } else { best_run(t.drop_last()) }));
        if byte_len(&rs[i]) >= byte_len(&rs[best]) {
            best = i;
        }
        i = i + 1;
    }
    assert(texts(rs@).take(rs@.len() as int) =~= texts(rs@));
    let mut rs = rs;
    rs.swap_remove(best)
}

fn literal_set(bytes: &Vec<u8>) -> (r: Option<Vec<String>>)
    ensures
        r matches Some(v) ==> literal_needles(bytes@) == Some(texts(v@)),
        r is None ==> literal_needles(bytes@) is None,
{
    match utf8_text(bytes.as_slice()) {
        None => None,
        Some(s) => {
            proof { encode_utf8_decode_utf8(s@); }
            let cs = to_chars(s.as_str());
            let run = longest_run(split_runs(cs.as_slice()));
            if byte_len(&run) >= MIN_NEEDLE_LEN {
                let mut v: Vec<String> = Vec::new();
                v.push(run);
                assert(texts(v@) =~= seq![best_run(runs(decode_utf8(bytes@)))]);
                Some(v)
            } else {
                None
            }
        },
    }
}

fn min_len(set: &Vec<String>) -> (m: usize)
    ensures
        m == min_blen(texts(set@)),
{
    let mut m: usize = 0;
    let mut i: usize = 0;
    while i < set.len()
        invariant
            i <= set.len(),
            m == min_blen(texts(set@).take(i as int)),
        decreases set.len() - i,
    {
        let ghost t = texts(set@).take(i as int + 1);
        assert(t.drop_last() =~= texts(set@).take(i as int));
        assert(t.last() == set@[i as int]@);
        assert(t[0] == set@[0]@);
        if i == 0 || byte_len(&set[i]) < m {
            m = byte_len(&set[i]);
        }
        i = i + 1;
    }
    assert(texts(set@).take(set@.len() as int) =~= texts(set@));
    m
}

/// The strength key of a needle set, for choosing a concatenation's part: its shortest
/// needle's byte length, then its size (fewer is stronger).
pub fn set_strength(set: &Vec<String>) -> (k: (usize, usize))
    ensures
        k.0 == min_blen(texts(set@)),
        k.1 == set@.len(),
{
    (min_len(set), set.len())
}

fn contains_text(set: &Vec<String>, t: &String) -> (b: bool)
    ensures
        b == texts(set@).contains(t@),
{
    let mut i: usize = 0;
    while i < set.len()
        invariant
            i <= set.len(),
            forall|j: int| 0 <= j < i ==> texts(set@)[j] != t@,
        decreases set.len() - i,
    {
        if crate::chars::str_eq(set[i].as_str(), t.as_str()) {
            assert(texts(set@)[i as int] == t@);
            return true;
        }
        i = i + 1;
    }
    false
}

fn union_push(union: &mut Vec<String>, extra: &Vec<String>)
    ensures
        texts(final(union)@) == union_into(texts(old(union)@), texts(extra@)),
{
    let ghost start = texts(union@);
    let ghost ex = texts(extra@);
    let mut i: usize = 0;
    while i < extra.len()
        invariant
            i <= extra.len(),
            ex == texts(extra@),
            texts(union@) == union_into(start, ex.take(i as int)),
        decreases extra.len() - i,
    {
        let x = extra[i].clone();
        assert(ex.take(i as int + 1).drop_last() =~= ex.take(i as int));
        if !contains_text(union, &x) {
            union.push(x);
            assert(texts(union@) =~= union_into(start, ex.take(i as int)).push(ex[i as int]));
        }
        i = i + 1;
    }
    assert(ex.take(ex.len() as int) =~= ex);
}

proof fn lemma_union_none_sticks(h: PatternNode, k: int, n: int)
    requires
        1 <= k <= n,
        h is Alternation,
        n <= h->Alternation_0@.len(),
        alternation_union(h, k) is None,
    ensures
        alternation_union(h, n) is None,
    decreases n - k,
{
    if k < n {
        lemma_union_none_sticks(h, k, n - 1);
    }
}

/// The needle set a parsed sub-pattern demands: every match of it contains one of the
/// needles verbatim (`None` when it demands none).
pub fn hir_needles(h: &PatternNode) -> (r: Option<Vec<String>>)
    ensures
        r matches Some(v) ==> node_needles(*h) == Some(texts(v@)),
        r is None ==> node_needles(*h) is None,
    decreases h,
{
    match h {
        PatternNode::Literal(b) => literal_set(b),
        PatternNode::Concat(ps) => {
            let mut best: Option<Vec<String>> = None;
            let mut i: usize = 0;
            while i < ps.len()
                invariant
                    *h == PatternNode::Concat(*ps),
                    i <= ps@.len(),
                    best matches Some(v) ==> concat_best(*h, i as int) == Some(texts(v@)),
                    best is None ==> concat_best(*h, i as int) is None,
                decreases ps.len() - i,
            {
                proof { assert(decreases_to!(*h => ps@[i as int])); }
                match hir_needles(&ps[i]) {
                    None => {},
                    Some(s) => {
                        let keep_new = match &best {
                            None => true,
                            Some(p) => {
                                let ks = set_strength(&s);
                                let kp = set_strength(p);
                                ks.0 > kp.0 || (ks.0 == kp.0 && ks.1 <= kp.1)
                            },
                        };
                        if keep_new {
                            best = Some(s);
                        }
                    },
                }
                i = i + 1;
            }
            best
        },
        PatternNode::Alternation(bs) => {
            let mut union: Vec<String> = Vec::new();
            let mut i: usize = 0;
            while i < bs.len()
                invariant
                    *h == PatternNode::Alternation(*bs),
                    i <= bs@.len(),
                    alternation_union(*h, i as int) == Some(texts(union@)),
                decreases bs.len() - i,
            {
                proof { assert(decreases_to!(*h => bs@[i as int])); }
                match hir_needles(&bs[i]) {
                    None => {
                        assert(alternation_union(*h, i + 1) is None);
                        proof { lemma_union_none_sticks(*h, i + 1, bs@.len() as int); }
                        return None;
                    },
                    Some(s) => {
                        union_push(&mut union, &s);
                    },
                }
                i = i + 1;
            }
            if union.len() > 0 {
                Some(union)
            } else {
                None
            }
        },
        PatternNode::Repetition { min, sub } => {
            if *min >= 1 {
                hir_needles(sub)
            } else {
                None
            }
        },
        PatternNode::Capture(sub) => hir_needles(sub),
        PatternNode::Other => None,
    }
}

/// Some char of `p` is a regex meta character.
pub open spec fn has_meta(p: Seq<char>) -> bool {
    exists|i: int| 0 <= i < p.len() && is_meta(#[trigger] p[i])
}

/// The required needles of a whole pattern: the pattern itself when it is a plain safe
/// literal; none for any other plain pattern (whitespace or a JSON-escaped char keeps it
/// off the byte gate); for a pattern with meta characters, the walk of its parse, kept
/// only while the set is small enough.
pub open spec fn spec_required_needles(p: Seq<char>) -> Option<Seq<Seq<char>>> {
    if spec_required_literal(p) is Some {
        Some(seq![p])
    } else if p.len() == 0 || !has_meta(p) {
        None
    } else {
        match regex_parsed(p) {
            None => None,
            Some(h) => match node_needles(h) {
                Some(n) => if n.len() <= MAX_NEEDLES { Some(n) } else { None },
                None => None,
            },
        }
    }
}

fn any_meta(p: &str) -> (b: bool)
    ensures
        b == has_meta(p@),
{
    let cs = to_chars(p);
    let mut i: usize = 0;
    while i < cs.len()
        invariant
            i <= cs.len(),
            cs@ == p@,
            forall|k: int| 0 <= k < i ==> !is_meta(#[trigger] cs@[k]),
        decreases cs.len() - i,
    {
        if is_meta_char(cs[i]) {
            return true;
        }
        i = i + 1;
    }
    false
}

/// A required-needle set for the prefilter: every string the pattern can match contains
/// at least one of these verbatim.
pub fn required_needles(pattern: &str) -> (r: Option<Vec<String>>)
    ensures
        r matches Some(v) ==> spec_required_needles(pattern@) == Some(texts(v@)),
        r is None ==> spec_required_needles(pattern@) is None,
{
    if required_literal(pattern).is_some() {
        let mut v: Vec<String> = Vec::new();
        v.push(pattern.to_string());
        assert(texts(v@) =~= seq![pattern@]);
        return Some(v);
    }
    if pattern.is_empty() || !any_meta(pattern) {
        return None;
    }
    let h = match parse_pattern(pattern) {
        Some(h) => h,
        None => return None,
    };
    match hir_needles(&h) {
        Some(n) => if n.len() <= MAX_NEEDLES { Some(n) } else { None },
        None => None,
    }
}

} // verus!

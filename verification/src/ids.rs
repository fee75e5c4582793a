//! Transcript id shapes: a session uuid and a subagent's bare hex id.

use vstd::prelude::*;
use crate::chars::to_chars;

verus! {

pub open spec fn is_hex_char(c: char) -> bool {
    ('0' <= c && c <= '9') || ('a' <= c && c <= 'f') || ('A' <= c && c <= 'F')
}

/// A session uuid: 36 chars, hex digits in groups of 8-4-4-4-12 separated by `-`.
pub open spec fn spec_is_uuid(s: Seq<char>) -> bool {
    &&& s.len() == 36
    &&& forall|i: int| 0 <= i < 36 ==> (if i == 8 || i == 13 || i == 18 || i == 23 {
        #[trigger] s[i] == '-'
    } else {
        is_hex_char(s[i])
    })
}

/// A subagent's bare id: one or more hex digits.
pub open spec fn spec_is_bare_hex(s: Seq<char>) -> bool {
    s.len() > 0 && forall|i: int| 0 <= i < s.len() ==> is_hex_char(#[trigger] s[i])
}

fn hex_char(c: char) -> (b: bool)
    ensures
        b == is_hex_char(c),
{
    ('0' <= c && c <= '9') || ('a' <= c && c <= 'f') || ('A' <= c && c <= 'F')
}

/// Is `s` shaped like a session uuid?
pub fn is_uuid(s: &str) -> (b: bool)
    ensures
        b == spec_is_uuid(s@),
{
    let cs = to_chars(s);
    if cs.len() != 36 {
        return false;
    }
    let mut i: usize = 0;
    while i < 36
        invariant
            i <= 36,
            cs@ == s@,
            cs@.len() == 36,
            forall|j: int| 0 <= j < i ==> (if j == 8 || j == 13 || j == 18 || j == 23 {
                #[trigger] cs@[j] == '-'
            } else {
                is_hex_char(cs@[j])
            }),
        decreases 36 - i,
    {
        let ok = if i == 8 || i == 13 || i == 18 || i == 23 { cs[i] == '-' } else { hex_char(cs[i]) };
        if !ok {
            return false;
        }
        i = i + 1;
    }
    true
}

/// Is `s` a bare hex subagent id?
pub fn is_bare_subagent_hex(s: &str) -> (b: bool)
    ensures
        b == spec_is_bare_hex(s@),
{
    let cs = to_chars(s);
    if cs.len() == 0 {
        return false;
    }
    let mut i: usize = 0;
    while i < cs.len()
        invariant
            i <= cs@.len(),
            cs@ == s@,
            forall|j: int| 0 <= j < i ==> is_hex_char(#[trigger] cs@[j]),
        decreases cs.len() - i,
    {
        if !hex_char(cs[i]) {
            return false;
        }
        i = i + 1;
    }
    true
}

} // verus!

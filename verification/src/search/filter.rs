//! The label selection of a search: `-t` selectors take a dotted label path and every
//! leaf under it; `-x` selectors exclude the same way; no `-t` selects every label.

use vstd::prelude::*;
use crate::chars::to_chars;
use crate::labels::{Class, spec_path};

verus! {

/// The wanted and exclude selectors, as dotted label paths.
#[derive(Debug, Clone)]
pub struct LabelFilter {
    pub wanted: Vec<String>,
    pub exclude: Vec<String>,
}

/// Does selector `s` cover label path `p`: `p` is `s` itself or a leaf under it?
pub open spec fn covers(s: Seq<char>, p: Seq<char>) -> bool {
    p == s || (p.len() > s.len() && p.take(s.len() as int) == s && p[s.len() as int] == '.')
}

/// Does some selector of `sels` cover `p`?
pub open spec fn any_covers(sels: Seq<String>, p: Seq<char>) -> bool {
    exists|i: int| 0 <= i < sels.len() && covers(#[trigger] sels[i]@, p)
}

/// Is label path `p` selected: included (or no `-t` given) and not excluded?
pub open spec fn spec_selected(f: LabelFilter, p: Seq<char>) -> bool {
    (f.wanted@.len() == 0 || any_covers(f.wanted@, p)) && !any_covers(f.exclude@, p)
}

fn covers_exec(s: &[char], p: &[char]) -> (b: bool)
    ensures
        b == covers(s@, p@),
{
    if p.len() < s.len() {
        return false;
    }
    let mut i: usize = 0;
    while i < s.len()
        invariant
            s.len() <= p.len(),
            i <= s.len(),
            forall|k: int| 0 <= k < i ==> p@[k] == s@[k],
        decreases s.len() - i,
    {
        if p[i] != s[i] {
            assert(p@.take(s@.len() as int)[i as int] != s@[i as int]);
            return false;
        }
        i = i + 1;
    }
    assert(p@.take(s@.len() as int) =~= s@);
    if p.len() == s.len() {
        assert(p@ =~= s@);
        true
    } else {
        p[s.len()] == '.'
    }
}

fn any_covers_exec(sels: &Vec<String>, p: &[char]) -> (b: bool)
    ensures
        b == any_covers(sels@, p@),
{
    let mut i: usize = 0;
    while i < sels.len()
        invariant
            i <= sels.len(),
            forall|k: int| 0 <= k < i ==> !covers(#[trigger] sels@[k]@, p@),
        decreases sels.len() - i,
    {
        let s = to_chars(sels[i].as_str());
        if covers_exec(s.as_slice(), p) {
            return true;
        }
        i = i + 1;
    }
    false
}

fn copy_strings(v: &[String]) -> (out: Vec<String>)
    ensures
        out@ == v@,
{
    let mut out: Vec<String> = Vec::new();
    let mut i: usize = 0;
    while i < v.len()
        invariant
            i <= v.len(),
            out@ == v@.take(i as int),
        decreases v.len() - i,
    {
        out.push(v[i].clone());
        i = i + 1;
        assert(out@ =~= v@.take(i as int));
    }
    assert(v@.take(v.len() as int) =~= v@);
    out
}

impl LabelFilter {
    /// No selector: every label is selected.
    pub fn all() -> (f: LabelFilter)
        ensures
            f.wanted@.len() == 0,
            f.exclude@.len() == 0,
    {
        LabelFilter { wanted: Vec::new(), exclude: Vec::new() }
    }

    /// The filter of these `-t` and `-x` selectors.
    pub fn new(wanted: &[String], exclude: &[String]) -> (f: LabelFilter)
        ensures
            f.wanted@ == wanted@,
            f.exclude@ == exclude@,
    {
        LabelFilter { wanted: copy_strings(wanted), exclude: copy_strings(exclude) }
    }

    /// The exclusions swallow everything the selection includes: some `-x` selector is
    /// given and no leaf of the taxonomy is selected.
    pub open spec fn is_statically_empty_spec(&self) -> bool {
        self.exclude@.len() > 0 && forall|c: Class| !spec_selected(*self, #[trigger] spec_path(c))
    }

    /// Can this filter never match anything?
    pub fn is_statically_empty(&self) -> (b: bool)
        ensures
            b == self.is_statically_empty_spec(),
    {
        if self.exclude.len() == 0 {
            return false;
        }
        let all = Class::all();
        let mut i: usize = 0;
        while i < all.len()
            invariant
                i <= all@.len(),
                forall|c: Class| #[trigger] all@.contains(c),
                forall|k: int| 0 <= k < i ==> !spec_selected(*self, spec_path(#[trigger] all@[k])),
            decreases all.len() - i,
        {
            if self.selected(all[i].path()) {
                return false;
            }
            i = i + 1;
        }
        assert forall|c: Class| !spec_selected(*self, #[trigger] spec_path(c)) by {
            assert(all@.contains(c));
            let k = choose|k: int| 0 <= k < all@.len() && all@[k] == c;
            assert(!spec_selected(*self, spec_path(all@[k])));
        }
        true
    }

    /// Is the label path selected?
    pub fn selected(&self, path: &str) -> (b: bool)
        ensures
            b == spec_selected(*self, path@),
    {
        let p = to_chars(path);
        (self.wanted.len() == 0 || any_covers_exec(&self.wanted, p.as_slice()))
            && !any_covers_exec(&self.exclude, p.as_slice())
    }
}

} // verus!

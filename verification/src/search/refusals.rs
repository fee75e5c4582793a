//! The search requests refused before any transcript is read: a pattern that is really a
//! session target, and a label filter that can never match.

use vstd::prelude::*;
use crate::model::{join, join_strings};
use crate::search::filter::LabelFilter;
use crate::search::matcher::{quote, quoted};

verus! {

/// The refusal of a first positional that starts with `@`.
pub open spec fn at_pattern_message(p: Seq<char>) -> Seq<char> {
    "search's FIRST positional is the regex PATTERN — targets come AFTER it: `csift search <PATTERN> "@ + p
        + "`. To literally match '"@ + p + "', escape the @: '\\"@ + p + "'."@
}

/// `[..]` as `{:?}` writes a list of strings.
pub open spec fn debug_list(v: Seq<String>) -> Seq<char> {
    "["@ + join(v.map_values(|s: String| quoted(s@)), ", "@) + "]"@
}

/// The refusal of a `-t`/`-x` combination that can never match.
pub open spec fn empty_filter_message(wanted: Seq<String>, exclude: Seq<String>) -> Seq<char> {
    "-T excludes every label the -t selection includes (-t "@ + debug_list(wanted) + " -T "@ + debug_list(exclude)
        + ") — this filter can never match anything. Loosen -T or widen -t."@
}

/// A search whose first positional starts with `@` is refused: targets come after the
/// pattern, and a literal `@` is written escaped.
pub fn at_pattern_refusal(pattern: &str) -> (r: Option<String>)
    ensures
        r is Some <==> (pattern@.len() > 0 && pattern@[0] == '@'),
        r matches Some(m) ==> m@ == at_pattern_message(pattern@),
{
    let cs = crate::chars::to_chars(pattern);
    if cs.len() == 0 || cs[0] != '@' {
        return None;
    }
    let mut m = String::new();
    m.append("search's FIRST positional is the regex PATTERN — targets come AFTER it: `csift search <PATTERN> ");
    m.append(pattern);
    m.append("`. To literally match '");
    m.append(pattern);
    m.append("', escape the @: '\\");
    m.append(pattern);
    m.append("'.");
    proof {
        reveal_strlit("search's FIRST positional is the regex PATTERN — targets come AFTER it: `csift search <PATTERN> ");
        reveal_strlit("`. To literally match '");
        reveal_strlit("', escape the @: '\\");
        reveal_strlit("'.");
    }
    assert(m@ =~= at_pattern_message(pattern@));
    Some(m)
}

fn debug_list_text(v: &Vec<String>) -> (s: String)
    ensures
        s@ == debug_list(v@),
{
    let mut parts: Vec<String> = Vec::new();
    let mut i: usize = 0;
    while i < v.len()
        invariant
            i <= v@.len(),
            parts@.len() == i,
            forall|k: int| 0 <= k < i ==> (#[trigger] parts@[k])@ == quoted(v@[k]@),
        decreases v.len() - i,
    {
        parts.push(quote(v[i].as_str()));
        i = i + 1;
    }
    let mut s = String::new();
    s.append("[");
    let j = join_strings(&parts, ", ");
    s.append(j.as_str());
    s.append("]");
    assert(parts@.map_values(|x: String| x@) =~= v@.map_values(|x: String| quoted(x@)));
    proof {
        reveal_strlit("[");
        reveal_strlit("]");
        reveal_strlit(", ");
    }
    assert(s@ =~= debug_list(v@));
    s
}

/// A label filter whose exclusions swallow everything its selection includes is refused:
/// it could never match, and an empty result would look like an honest answer.
pub fn empty_filter_refusal(filter: &LabelFilter) -> (r: Option<String>)
    ensures
        r is Some <==> filter.is_statically_empty_spec(),
        r matches Some(m) ==> m@ == empty_filter_message(filter.wanted@, filter.exclude@),
{
    if !filter.is_statically_empty() {
        return None;
    }
    let mut m = String::new();
    m.append("-T excludes every label the -t selection includes (-t ");
    let w = debug_list_text(&filter.wanted);
    m.append(w.as_str());
    m.append(" -T ");
    let x = debug_list_text(&filter.exclude);
    m.append(x.as_str());
    m.append(") — this filter can never match anything. Loosen -T or widen -t.");
    proof {
        reveal_strlit("-T excludes every label the -t selection includes (-t ");
        reveal_strlit(" -T ");
        reveal_strlit(") — this filter can never match anything. Loosen -T or widen -t.");
    }
    assert(m@ =~= empty_filter_message(filter.wanted@, filter.exclude@));
    Some(m)
}

} // verus!

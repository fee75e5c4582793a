//! Text rendering pieces of `search`: the decorated label of a hit, the banner's words,
//! id prefixes, the image annotation and its extraction hint, the re-fetch command.

use vstd::prelude::*;
use crate::chars::{decimal, push_char, push_decimal, to_chars};
use crate::labels::{Class, spec_path};
use crate::model::{join, join_strings};
use crate::search::types::{Exchange, Hit, Pairing};

verus! {

/// The ` [error]` decoration of an error result.
pub open spec fn err_tag(h: Hit) -> Seq<char> {
    if h.class == Some(Class::AgentToolResult) && h.is_error == Some(true) { " [error]"@ } else { Seq::empty() }
}

/// The label path of a hit's class (empty for an unlabeled unit).
pub open spec fn class_path(c: Option<Class>) -> Seq<char> {
    match c {
        Some(c) => spec_path(c),
        None => Seq::empty(),
    }
}

/// The rendered label: the pairing form of a tool hit, else the path with the error
/// decoration, else the path with a communication direction `from ⇨ to`, else the path.
pub open spec fn spec_render_label(h: Hit) -> Seq<char> {
    let err = err_tag(h);
    let tool = h.class == Some(Class::AgentToolUse) || h.class == Some(Class::AgentToolResult);
    if tool && h.pair == Some(Pairing::Paired) {
        "agent.tool.use ▹ agent.tool.result"@ + err
    } else if h.class == Some(Class::AgentToolUse) && h.pair == Some(Pairing::PendingNoResult) {
        "agent.tool.use (no result — pending)"@
    } else if h.class == Some(Class::AgentToolResult) && h.pair == Some(Pairing::OrphanResult) {
        "agent.tool.result (use not in scope)"@ + err
    } else if err.len() > 0 {
        class_path(h.class) + err
    } else {
        match h.direction {
            Some(d) => class_path(h.class) + "  "@ + d.0@ + " ⇨ "@ + d.1@,
            None => class_path(h.class),
        }
    }
}

fn path_of(c: Option<Class>) -> (s: String)
    ensures
        s@ == class_path(c),
{
    match c {
        Some(c) => c.path().to_string(),
        None => String::new(),
    }
}

/// The rendered label of a hit, decorated with the pairing and direction markers.
pub fn render_label(h: &Hit) -> (s: String)
    ensures
        s@ == spec_render_label(*h),
{
    let is_err = h.class == Some(Class::AgentToolResult) && h.is_error == Some(true);
    let mut err = String::new();
    if is_err {
        err.append(" [error]");
    }
    proof {
        reveal_strlit(" [error]");
    }
    assert(err@ == err_tag(*h));
    let tool = h.class == Some(Class::AgentToolUse) || h.class == Some(Class::AgentToolResult);
    if tool && h.pair == Some(Pairing::Paired) {
        let mut s = String::new();
        s.append("agent.tool.use ▹ agent.tool.result");
        s.append(err.as_str());
        return s;
    }
    if h.class == Some(Class::AgentToolUse) && h.pair == Some(Pairing::PendingNoResult) {
        return "agent.tool.use (no result — pending)".to_string();
    }
    if h.class == Some(Class::AgentToolResult) && h.pair == Some(Pairing::OrphanResult) {
        let mut s = String::new();
        s.append("agent.tool.result (use not in scope)");
        s.append(err.as_str());
        return s;
    }
    if is_err {
        let mut s = path_of(h.class);
        s.append(err.as_str());
        return s;
    }
    match &h.direction {
        Some((from, to)) => {
            let mut s = path_of(h.class);
            s.append("  ");
            s.append(from.as_str());
            s.append(" ⇨ ");
            s.append(to.as_str());
            s
        },
        None => path_of(h.class),
    }
}

/// Singular or plural word for a count.
pub fn noun<'a>(n: usize, one: &'a str, many: &'a str) -> (w: &'a str)
    ensures
        w == (if n == 1 { one } else { many }),
{
    if n == 1 { one } else { many }
}

/// The end of the chronological stream a signed `--max-count` keeps: `latest` for a
/// negative count, else `earliest`.
pub fn window_end(max_count: Option<i64>) -> (w: &'static str)
    ensures
        w@ == (if max_count matches Some(n) && n < 0 { "latest"@ } else { "earliest"@ }),
{
    match max_count {
        Some(n) if n < 0 => "latest",
        _ => "earliest",
    }
}

/// The side the cap dropped: `earlier` when the latest are kept, else `later`.
pub fn dropped_side(max_count: Option<i64>) -> (w: &'static str)
    ensures
        w@ == (if max_count matches Some(n) && n < 0 { "earlier"@ } else { "later"@ }),
{
    match max_count {
        Some(n) if n < 0 => "earlier",
        _ => "later",
    }
}

/// The first `n` chars of an id; a shorter id whole.
pub fn id_prefix(id: &str, n: usize) -> (p: String)
    ensures
        p@ == (if id@.len() <= n { id@ } else { id@.take(n as int) }),
{
    let cs = to_chars(id);
    if cs.len() <= n {
        return id.to_string();
    }
    let mut out = String::new();
    let mut i: usize = 0;
    while i < n
        invariant
            i <= n < cs@.len(),
            out@ == cs@.take(i as int),
        decreases n - i,
    {
        push_char(&mut out, cs[i]);
        i = i + 1;
        assert(out@ =~= cs@.take(i as int));
    }
    out
}

/// The `  [N image(s): …]` suffix of a hit whose record carries images (empty when none).
pub open spec fn spec_image_suffix(ids: Seq<String>) -> Seq<char> {
    if ids.len() == 0 {
        Seq::empty()
    } else {
        "  ["@ + decimal(ids.len()) + " "@ + (if ids.len() == 1 { "image"@ } else { "images"@ }) + ": "@
            + join(ids.map_values(|s: String| s@), ", "@) + "]"@
    }
}

/// The image annotation of a hit.
pub fn image_suffix(ids: &Vec<String>) -> (s: String)
    ensures
        s@ == spec_image_suffix(ids@),
{
    if ids.len() == 0 {
        return String::new();
    }
    let mut s = String::new();
    s.append("  [");
    push_decimal(&mut s, ids.len() as u64);
    s.append(" ");
    s.append(if ids.len() == 1 { "image" } else { "images" });
    s.append(": ");
    let j = join_strings(ids, ", ");
    s.append(j.as_str());
    s.append("]");
    proof {
        reveal_strlit("  [");
        reveal_strlit(" ");
        reveal_strlit("image");
        reveal_strlit("images");
        reveal_strlit(": ");
        reveal_strlit("]");
    }
    assert(s@ =~= spec_image_suffix(ids@));
    s
}

/// `id` without a leading `#`.
pub open spec fn input_form(id: Seq<char>) -> Seq<char> {
    if id.len() > 0 && id[0] == '#' { id.drop_first() } else { id }
}

/// The paste-ready extraction command for a row's images, at the row's owning
/// transcript; `None` without images.
pub open spec fn spec_image_hint(sid: Seq<char>, ids: Seq<String>) -> Option<Seq<char>> {
    if ids.len() == 0 {
        None
    } else {
        Some("      ↳ read the image(s): csift image @"@ + sid + " --id "@ + input_form(ids[0]@)
            + " --out DIR           (decodes to a file you can then Read - an image-bearing turn is evidence, not a blank)"@)
    }
}

/// The extraction hint printed under the first image-bearing row.
pub fn image_hint_line(session_id: &str, ids: &Vec<String>) -> (r: Option<String>)
    ensures
        crate::model::opt_view(r) == spec_image_hint(session_id@, ids@),
{
    if ids.len() == 0 {
        return None;
    }
    let first = to_chars(ids[0].as_str());
    let input: Vec<char> = if first.len() > 0 && first[0] == '#' {
        crate::range::slice_from(first.as_slice(), 1)
    } else {
        first
    };
    assert(input@ == input_form(ids@[0]@)) by {
        if ids@[0]@.len() > 0 && ids@[0]@[0] == '#' {
            assert(input@ =~= ids@[0]@.drop_first());
        }
    }
    let mut s = String::new();
    s.append("      ↳ read the image(s): csift image @");
    s.append(session_id);
    s.append(" --id ");
    crate::chars::push_chars(&mut s, input.as_slice());
    s.append(" --out DIR           (decodes to a file you can then Read - an image-bearing turn is evidence, not a blank)");
    proof {
        reveal_strlit("      ↳ read the image(s): csift image @");
        reveal_strlit(" --id ");
        reveal_strlit(" --out DIR           (decodes to a file you can then Read - an image-bearing turn is evidence, not a blank)");
    }
    assert(s@ =~= spec_image_hint(session_id@, ids@)->0);
    Some(s)
}

/// Does any hit or sibling carry image ids?
pub open spec fn spec_any_images(exs: Seq<Exchange>) -> bool {
    exists|e: int, k: int| 0 <= e < exs.len() && (
        (0 <= k < exs[e].hits@.len() && exs[e].hits@[k].image_ids@.len() > 0)
        || (0 <= k < exs[e].siblings@.len() && exs[e].siblings@[k].image_ids@.len() > 0))
}

fn any_images_in(hs: &Vec<Hit>) -> (b: bool)
    ensures
        b == exists|k: int| 0 <= k < hs@.len() && hs@[k].image_ids@.len() > 0,
{
    let mut k: usize = 0;
    while k < hs.len()
        invariant
            k <= hs@.len(),
            forall|q: int| 0 <= q < k ==> hs@[q].image_ids@.len() == 0,
        decreases hs.len() - k,
    {
        if hs[k].image_ids.len() > 0 {
            return true;
        }
        k = k + 1;
    }
    false
}

/// True when any hit or sibling row carries image ids.
pub fn any_image_ids(exchanges: &Vec<Exchange>) -> (b: bool)
    ensures
        b == spec_any_images(exchanges@),
{
    let mut e: usize = 0;
    while e < exchanges.len()
        invariant
            e <= exchanges@.len(),
            forall|x: int, k: int| 0 <= x < e ==> !(
                (0 <= k < exchanges@[x].hits@.len() && exchanges@[x].hits@[k].image_ids@.len() > 0)
                || (0 <= k < exchanges@[x].siblings@.len() && exchanges@[x].siblings@[k].image_ids@.len() > 0)),
        decreases exchanges.len() - e,
    {
        let a = any_images_in(&exchanges[e].hits);
        let b = any_images_in(&exchanges[e].siblings);
        if a || b {
            return true;
        }
        e = e + 1;
    }
    false
}

/// The ready-to-run fetch command of a hit, addressed at the transcript owning its line:
/// by line when it has one, else by uuid, else none.
pub open spec fn spec_refetch(sid: Seq<char>, h: Hit) -> Option<Seq<char>> {
    if !h.from_sidecar && h.line > 0 {
        Some("csift show @"@ + sid + " --line "@ + decimal(h.line as nat))
    } else {
        match h.uuid {
            Some(u) => Some("csift show @"@ + sid + " --uuid "@ + u@),
            None => None,
        }
    }
}

/// The fetch command of a hit.
pub fn refetch(session_id: &str, h: &Hit) -> (r: Option<String>)
    ensures
        crate::model::opt_view(r) == spec_refetch(session_id@, *h),
{
    proof {
        reveal_strlit("csift show @");
        reveal_strlit(" --line ");
        reveal_strlit(" --uuid ");
    }
    if !h.from_sidecar && h.line > 0 {
        let mut s = String::new();
        s.append("csift show @");
        s.append(session_id);
        s.append(" --line ");
        push_decimal(&mut s, h.line as u64);
        assert(s@ =~= spec_refetch(session_id@, *h)->0);
        Some(s)
    } else {
        match &h.uuid {
            Some(u) => {
                let mut s = String::new();
                s.append("csift show @");
                s.append(session_id);
                s.append(" --uuid ");
                s.append(u.as_str());
                assert(s@ =~= spec_refetch(session_id@, *h)->0);
                Some(s)
            },
            None => None,
        }
    }
}

} // verus!

//! Turn delimitation: records in file order grouped into turns, each opened by a genuine
//! user record. Leading records before the first genuine user (a synthetic lead) fold
//! into the first real turn; a file with no genuine user is one turn of orphans.

use vstd::prelude::*;

verus! {

/// The turns of the first `n` records before the lead fold: a skipped record joins no
/// turn; an opener (or the first kept record) starts a turn; any other record joins the
/// current one.
pub open spec fn raw_turns(opens: Seq<bool>, skip: Seq<bool>, n: int) -> Seq<Seq<int>>
    decreases n,
{
    if n <= 0 {
        Seq::empty()
    } else {
        let t = raw_turns(opens, skip, n - 1);
        if skip[n - 1] {
            t
        } else if opens[n - 1] || t.len() == 0 {
            t.push(seq![n - 1])
        } else {
            t.update(t.len() - 1, t.last().push(n - 1))
        }
    }
}

/// The turns of all records: a first turn that does not start with an opener (the
/// synthetic lead) merges into the turn after it, when there is one.
pub open spec fn spec_turns(opens: Seq<bool>, skip: Seq<bool>) -> Seq<Seq<int>> {
    let t = raw_turns(opens, skip, opens.len() as int);
    if t.len() > 1 && !opens[t[0][0]] {
        seq![t[0] + t[1]] + t.skip(2)
    } else {
        t
    }
}

/// The indices of the kept (not skipped) records among the first `n`, in order.
pub open spec fn kept_indices(skip: Seq<bool>, n: int) -> Seq<int>
    decreases n,
{
    if n <= 0 {
        Seq::empty()
    } else if skip[n - 1] {
        kept_indices(skip, n - 1)
    } else {
        kept_indices(skip, n - 1).push(n - 1)
    }
}

/// The turns laid end to end.
pub open spec fn flatten(t: Seq<Seq<int>>) -> Seq<int>
    decreases t.len(),
{
    if t.len() == 0 { Seq::empty() } else { flatten(t.drop_last()) + t.last() }
}

proof fn lemma_flatten_push(t: Seq<Seq<int>>, x: Seq<int>)
    ensures
        flatten(t.push(x)) == flatten(t) + x,
{
    assert(t.push(x).drop_last() =~= t);
}

proof fn lemma_flatten_extend_last(t: Seq<Seq<int>>, i: int)
    requires
        t.len() > 0,
    ensures
        flatten(t.update(t.len() - 1, t.last().push(i))) == flatten(t).push(i),
{
    let u = t.update(t.len() - 1, t.last().push(i));
    assert(u.drop_last() =~= t.drop_last());
    assert(flatten(u) =~= flatten(t).push(i));
}

proof fn lemma_flatten_prefix(t: Seq<Seq<int>>)
    requires
        t.len() >= 2,
    ensures
        flatten(t) == t[0] + t[1] + flatten(t.skip(2)),
    decreases t.len(),
{
    if t.len() == 2 {
        let a = t.drop_last();
        assert(a.drop_last() =~= Seq::<Seq<int>>::empty());
        assert(flatten(a.drop_last()) =~= Seq::<int>::empty());
        assert(flatten(a) == flatten(a.drop_last()) + a.last());
        assert(flatten(a) =~= t[0]);
        assert(t.skip(2) =~= Seq::<Seq<int>>::empty());
        assert(flatten(t.skip(2)) =~= Seq::<int>::empty());
        assert(flatten(t) =~= t[0] + t[1] + flatten(t.skip(2)));
    } else {
        lemma_flatten_prefix(t.drop_last());
        assert(t.drop_last().skip(2) =~= t.skip(2).drop_last());
        assert(t.skip(2).last() == t.last());
        assert(flatten(t) =~= t[0] + t[1] + flatten(t.skip(2)));
    }
}

proof fn lemma_flatten_head(h: Seq<int>, rest: Seq<Seq<int>>)
    ensures
        flatten(seq![h] + rest) == h + flatten(rest),
    decreases rest.len(),
{
    if rest.len() == 0 {
        assert(seq![h] + rest =~= seq![h]);
        assert(seq![h].drop_last() =~= Seq::<Seq<int>>::empty());
        assert(flatten(seq![h].drop_last()) =~= Seq::<int>::empty());
        assert(flatten(seq![h]) =~= h);
        assert(flatten(rest) =~= Seq::<int>::empty());
    } else {
        lemma_flatten_head(h, rest.drop_last());
        assert((seq![h] + rest).drop_last() =~= seq![h] + rest.drop_last());
        assert(flatten(seq![h] + rest) =~= h + flatten(rest));
    }
}

proof fn lemma_raw_turns_flatten(opens: Seq<bool>, skip: Seq<bool>, n: int)
    requires
        0 <= n <= opens.len(),
        opens.len() == skip.len(),
    ensures
        flatten(raw_turns(opens, skip, n)) == kept_indices(skip, n),
        forall|k: int| 0 <= k < raw_turns(opens, skip, n).len() ==> #[trigger] raw_turns(opens, skip, n)[k].len() > 0,
        forall|k: int| 1 <= k < raw_turns(opens, skip, n).len() ==> opens[#[trigger] raw_turns(opens, skip, n)[k][0]],
        forall|k: int| 0 <= k < raw_turns(opens, skip, n).len() ==>
            0 <= #[trigger] raw_turns(opens, skip, n)[k][0] < n,
    decreases n,
{
    if n > 0 {
        lemma_raw_turns_flatten(opens, skip, n - 1);
        let t = raw_turns(opens, skip, n - 1);
        if !skip[n - 1] {
            if opens[n - 1] || t.len() == 0 {
                lemma_flatten_push(t, seq![n - 1]);
            } else {
                lemma_flatten_extend_last(t, n - 1);
            }
        }
    }
}

/// Turn grouping partitions the kept records: laid end to end, the turns are exactly the
/// kept record indices in file order; no turn is empty; every turn after the first starts
/// with a genuine-user opener.
pub proof fn lemma_turns_partition(opens: Seq<bool>, skip: Seq<bool>)
    requires
        opens.len() == skip.len(),
    ensures
        flatten(spec_turns(opens, skip)) == kept_indices(skip, opens.len() as int),
        forall|k: int| 0 <= k < spec_turns(opens, skip).len() ==> #[trigger] spec_turns(opens, skip)[k].len() > 0,
        forall|k: int| 1 <= k < spec_turns(opens, skip).len() ==> opens[#[trigger] spec_turns(opens, skip)[k][0]],
{
    let n = opens.len() as int;
    lemma_raw_turns_flatten(opens, skip, n);
    let t = raw_turns(opens, skip, n);
    if t.len() > 1 && !opens[t[0][0]] {
        lemma_flatten_prefix(t);
        lemma_flatten_head(t[0] + t[1], t.skip(2));
        assert(flatten(spec_turns(opens, skip)) =~= kept_indices(skip, n));
        assert forall|k: int| 1 <= k < spec_turns(opens, skip).len() implies opens[#[trigger] spec_turns(opens, skip)[k][0]] by {
            assert(spec_turns(opens, skip)[k] == t[k + 1]);
        }
        assert forall|k: int| 0 <= k < spec_turns(opens, skip).len() implies #[trigger] spec_turns(opens, skip)[k].len() > 0 by {
            if k > 0 {
                assert(spec_turns(opens, skip)[k] == t[k + 1]);
            }
        }
    }
}

proof fn lemma_raw_members(opens: Seq<bool>, skip: Seq<bool>, n: int)
    requires
        0 <= n <= opens.len(),
        opens.len() == skip.len(),
    ensures
        forall|t: int, q: int| 0 <= t < raw_turns(opens, skip, n).len() && 0 <= q < raw_turns(opens, skip, n)[t].len()
            ==> 0 <= #[trigger] raw_turns(opens, skip, n)[t][q] < n,
    decreases n,
{
    if n > 0 {
        lemma_raw_members(opens, skip, n - 1);
        let t = raw_turns(opens, skip, n - 1);
        let u = raw_turns(opens, skip, n);
        assert forall|a: int, q: int| 0 <= a < u.len() && 0 <= q < u[a].len() implies 0 <= #[trigger] u[a][q] < n by {
            if a < t.len() && q < t[a].len() {
                assert(u[a][q] == t[a][q]);
            }
        }
    }
}

/// Every member of every turn is the index of a record.
pub proof fn lemma_turn_members_in_range(opens: Seq<bool>, skip: Seq<bool>)
    requires
        opens.len() == skip.len(),
    ensures
        forall|t: int, q: int| 0 <= t < spec_turns(opens, skip).len() && 0 <= q < spec_turns(opens, skip)[t].len()
            ==> 0 <= #[trigger] spec_turns(opens, skip)[t][q] < opens.len(),
{
    let n = opens.len() as int;
    lemma_raw_members(opens, skip, n);
    let t = raw_turns(opens, skip, n);
    let u = spec_turns(opens, skip);
    assert forall|a: int, q: int| 0 <= a < u.len() && 0 <= q < u[a].len() implies 0 <= #[trigger] u[a][q] < n by {
        if t.len() > 1 && !opens[t[0][0]] {
            if a == 0 {
                if q < t[0].len() {
                    assert(u[0][q] == t[0][q]);
                } else {
                    assert(u[0][q] == t[1][q - t[0].len()]);
                }
            } else {
                assert(u[a] == t[a + 1]);
            }
        }
    }
}

/// Group records into turns: `opens[i]` says record `i` is a genuine user (a turn
/// opener), `skip[i]` that it stands outside turn numbering. The result lists each
/// turn's record indices in file order.
pub fn group_turns(opens: &[bool], skip: &[bool]) -> (out: Vec<Vec<usize>>)
    requires
        opens.len() == skip.len(),
    ensures
        out@.len() == spec_turns(opens@, skip@).len(),
        forall|k: int| 0 <= k < out@.len() ==> (#[trigger] out@[k])@.map_values(|i: usize| i as int) == spec_turns(opens@, skip@)[k],
{
    let ghost o = opens@;
    let ghost s = skip@;
    let mut turns: Vec<Vec<usize>> = Vec::new();
    let mut i: usize = 0;
    while i < opens.len()
        invariant
            i <= opens.len(),
            opens.len() == skip.len(),
            o == opens@,
            s == skip@,
            turns@.len() == raw_turns(o, s, i as int).len(),
            forall|k: int| 0 <= k < turns@.len() ==> (#[trigger] turns@[k])@.map_values(|x: usize| x as int) == raw_turns(o, s, i as int)[k],
        decreases opens.len() - i,
    {
        let ghost t = raw_turns(o, s, i as int);
        if skip[i] {
        } else if opens[i] || turns.len() == 0 {
            let mut one: Vec<usize> = Vec::new();
            one.push(i);
            assert(one@.map_values(|x: usize| x as int) =~= seq![i as int]);
            let ghost before_turns = turns@;
            turns.push(one);
            assert forall|k: int| 0 <= k < turns@.len() implies (#[trigger] turns@[k])@.map_values(|x: usize| x as int) == raw_turns(o, s, i + 1)[k] by {
                if k < t.len() {
                    assert(turns@[k] == before_turns[k]);
                }
            }
        } else {
            let last = turns.len() - 1;
            let mut cur = turns.pop().unwrap();
            let ghost prev = cur@;
            cur.push(i);
            assert(cur@.map_values(|x: usize| x as int) =~= prev.map_values(|x: usize| x as int).push(i as int));
            turns.push(cur);
            assert forall|k: int| 0 <= k < turns@.len() implies (#[trigger] turns@[k])@.map_values(|x: usize| x as int) == raw_turns(o, s, i + 1)[k] by {
            }
        }
        i = i + 1;
    }
    let ghost t = raw_turns(o, s, opens.len() as int);
    proof {
        lemma_raw_turns_flatten(o, s, opens.len() as int);
        if turns@.len() > 0 {
            assert(t[0].len() > 0);
            assert(turns@[0]@.map_values(|x: usize| x as int)[0] == t[0][0]);
            assert(turns@[0]@.len() > 0);
            assert(turns@[0]@[0] < opens@.len());
        }
    }
    if turns.len() > 1 && !opens[turns[0][0]] {
        assert(turns@[0]@.map_values(|x: usize| x as int)[0] == t[0][0]);
        let ghost before = turns@;
        let mut lead = turns.remove(0);
        let mut first = turns.remove(0);
        let ghost lv = lead@;
        let ghost fv = first@;
        lead.append(&mut first);
        assert(lead@.map_values(|x: usize| x as int) =~= lv.map_values(|x: usize| x as int) + fv.map_values(|x: usize| x as int));
        assert(lv == before[0]@);
        assert(fv == before[1]@);
        turns.insert(0, lead);
        assert forall|k: int| 0 <= k < turns@.len() implies (#[trigger] turns@[k])@.map_values(|x: usize| x as int) == spec_turns(opens@, skip@)[k] by {
            if k > 0 {
                assert(turns@[k] == before[k + 1]);
            }
        }
        turns
    } else {
        turns
    }
}

} // verus!

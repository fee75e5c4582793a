//! Stable ordering of a sequence by a strict "goes before" relation: each element, taken
//! in input order, is placed before the first element it goes before — so elements that
//! neither goes before keep their input order.

use vstd::prelude::*;

verus! {

/// `s` with `x` placed before the first element it goes before (at the end if none).
pub open spec fn ins<T>(s: Seq<T>, x: T, lt: spec_fn(T, T) -> bool) -> Seq<T>
    decreases s.len(),
{
    if s.len() == 0 {
        seq![x]
    } else if lt(x, s[0]) {
        seq![x] + s
    } else {
        seq![s[0]] + ins(s.drop_first(), x, lt)
    }
}

/// The stable ordering of `s` by `lt`.
pub open spec fn isort<T>(s: Seq<T>, lt: spec_fn(T, T) -> bool) -> Seq<T>
    decreases s.len(),
{
    if s.len() == 0 {
        seq![]
    } else {
        ins(isort(s.drop_last(), lt), s.last(), lt)
    }
}

/// Placing `x` at the first position `p` it goes before is [`ins`].
pub proof fn lemma_ins_at<T>(s: Seq<T>, x: T, lt: spec_fn(T, T) -> bool, p: int)
    requires
        0 <= p <= s.len(),
        forall|q: int| 0 <= q < p ==> !lt(x, #[trigger] s[q]),
        p < s.len() ==> lt(x, s[p]),
    ensures
        ins(s, x, lt) == s.take(p).push(x) + s.skip(p),
    decreases s.len(),
{
    if s.len() == 0 {
        assert(s.take(p).push(x) + s.skip(p) =~= seq![x]);
    } else if p == 0 {
        assert(s.take(0).push(x) + s.skip(0) =~= seq![x] + s);
    } else {
        let t = s.drop_first();
        assert forall|q: int| 0 <= q < p - 1 implies !lt(x, #[trigger] t[q]) by {
            assert(t[q] == s[q + 1]);
        }
        if p - 1 < t.len() {
            assert(t[p - 1] == s[p]);
        }
        lemma_ins_at(t, x, lt, p - 1);
        assert(seq![s[0]] + (t.take(p - 1).push(x) + t.skip(p - 1)) =~= s.take(p).push(x) + s.skip(p));
    }
}

/// Ordering permutes: the result holds the same elements, as often.
pub proof fn lemma_isort_multiset<T>(s: Seq<T>, lt: spec_fn(T, T) -> bool)
    ensures
        isort(s, lt).to_multiset() == s.to_multiset(),
    decreases s.len(),
{
    broadcast use vstd::seq_lib::group_to_multiset_ensures;
    if s.len() > 0 {
        lemma_isort_multiset(s.drop_last(), lt);
        lemma_ins_multiset(isort(s.drop_last(), lt), s.last(), lt);
        assert(s =~= s.drop_last().push(s.last()));
    }
}

pub proof fn lemma_ins_multiset<T>(s: Seq<T>, x: T, lt: spec_fn(T, T) -> bool)
    ensures
        ins(s, x, lt).to_multiset() == s.to_multiset().insert(x),
    decreases s.len(),
{
    broadcast use vstd::seq_lib::group_to_multiset_ensures;
    if s.len() == 0 {
        assert(seq![x] =~= Seq::<T>::empty().push(x));
    } else if lt(x, s[0]) {
        vstd::seq_lib::lemma_multiset_commutative(seq![x], s);
        assert(seq![x] =~= Seq::<T>::empty().push(x));
    } else {
        let t = s.drop_first();
        lemma_ins_multiset(t, x, lt);
        vstd::seq_lib::lemma_multiset_commutative(seq![s[0]], ins(t, x, lt));
        vstd::seq_lib::lemma_multiset_commutative(seq![s[0]], t);
        assert(seq![s[0]] + t =~= s);
        assert(seq![s[0]] =~= Seq::<T>::empty().push(s[0]));
    }
}

/// Ordering keeps the length.
pub proof fn lemma_isort_len<T>(s: Seq<T>, lt: spec_fn(T, T) -> bool)
    ensures
        isort(s, lt).len() == s.len(),
    decreases s.len(),
{
    if s.len() > 0 {
        lemma_isort_len(s.drop_last(), lt);
        lemma_ins_len(isort(s.drop_last(), lt), s.last(), lt);
    }
}

pub proof fn lemma_ins_len<T>(s: Seq<T>, x: T, lt: spec_fn(T, T) -> bool)
    ensures
        ins(s, x, lt).len() == s.len() + 1,
    decreases s.len(),
{
    if s.len() > 0 && !lt(x, s[0]) {
        lemma_ins_len(s.drop_first(), x, lt);
    }
}

/// No element goes before an earlier one.
pub open spec fn sorted_by<T>(s: Seq<T>, lt: spec_fn(T, T) -> bool) -> bool {
    forall|i: int, j: int| 0 <= i < j < s.len() ==> !lt(#[trigger] s[j], #[trigger] s[i])
}

/// `lt` is irreflexive and transitive.
pub open spec fn strict_order<T>(lt: spec_fn(T, T) -> bool) -> bool {
    &&& forall|a: T| !#[trigger] lt(a, a)
    &&& forall|a: T, b: T, c: T| #[trigger] lt(a, b) && #[trigger] lt(b, c) ==> lt(a, c)
}

/// Every element of `ins(s, x)` is `x` or an element of `s`.
pub proof fn lemma_ins_elems<T>(s: Seq<T>, x: T, lt: spec_fn(T, T) -> bool)
    ensures
        forall|j: int| 0 <= j < ins(s, x, lt).len() ==> (#[trigger] ins(s, x, lt)[j] == x || s.contains(ins(s, x, lt)[j])),
    decreases s.len(),
{
    lemma_ins_len(s, x, lt);
    if s.len() > 0 && !lt(x, s[0]) {
        let t = s.drop_first();
        lemma_ins_elems(t, x, lt);
        assert forall|j: int| 0 <= j < ins(s, x, lt).len() implies (#[trigger] ins(s, x, lt)[j] == x || s.contains(ins(s, x, lt)[j])) by {
            if j == 0 {
                assert(s.contains(s[0]));
            } else {
                let e = ins(t, x, lt)[j - 1];
                assert(ins(s, x, lt)[j] == e);
                if e != x {
                    let q = choose|q: int| 0 <= q < t.len() && t[q] == e;
                    assert(s[q + 1] == e);
                }
            }
        }
    } else if s.len() > 0 {
        assert forall|j: int| 0 <= j < ins(s, x, lt).len() implies (#[trigger] ins(s, x, lt)[j] == x || s.contains(ins(s, x, lt)[j])) by {
            if j > 0 {
                assert(ins(s, x, lt)[j] == s[j - 1]);
            }
        }
    }
}

/// Placing an element keeps a sorted sequence sorted.
pub proof fn lemma_ins_sorted<T>(s: Seq<T>, x: T, lt: spec_fn(T, T) -> bool)
    requires
        strict_order(lt),
        sorted_by(s, lt),
    ensures
        sorted_by(ins(s, x, lt), lt),
    decreases s.len(),
{
    let r = ins(s, x, lt);
    lemma_ins_len(s, x, lt);
    if s.len() == 0 {
    } else if lt(x, s[0]) {
        assert forall|i: int, j: int| 0 <= i < j < r.len() implies !lt(#[trigger] r[j], #[trigger] r[i]) by {
            if i == 0 {
                assert(r[j] == s[j - 1]);
                if lt(s[j - 1], x) {
                    if j - 1 == 0 {
                        assert(lt(s[0], s[0]));
                    } else {
                        assert(lt(s[j - 1], s[0]));
                    }
                }
            } else {
                assert(r[i] == s[i - 1] && r[j] == s[j - 1]);
            }
        }
    } else {
        let t = s.drop_first();
        assert(sorted_by(t, lt)) by {
            assert forall|i: int, j: int| 0 <= i < j < t.len() implies !lt(#[trigger] t[j], #[trigger] t[i]) by {
                assert(t[i] == s[i + 1] && t[j] == s[j + 1]);
            }
        }
        lemma_ins_sorted(t, x, lt);
        lemma_ins_elems(t, x, lt);
        let u = ins(t, x, lt);
        assert forall|i: int, j: int| 0 <= i < j < r.len() implies !lt(#[trigger] r[j], #[trigger] r[i]) by {
            if i == 0 {
                assert(r[0] == s[0]);
                assert(r[j] == u[j - 1]);
                if u[j - 1] != x {
                    let q = choose|q: int| 0 <= q < t.len() && t[q] == u[j - 1];
                    assert(s[q + 1] == u[j - 1]);
                }
            } else {
                assert(r[i] == u[i - 1] && r[j] == u[j - 1]);
            }
        }
    }
}

/// The stable ordering is sorted.
pub proof fn lemma_isort_sorted<T>(s: Seq<T>, lt: spec_fn(T, T) -> bool)
    requires
        strict_order(lt),
    ensures
        sorted_by(isort(s, lt), lt),
    decreases s.len(),
{
    if s.len() > 0 {
        lemma_isort_sorted(s.drop_last(), lt);
        lemma_ins_sorted(isort(s.drop_last(), lt), s.last(), lt);
    }
}

} // verus!

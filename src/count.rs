use vstd::prelude::*;

verus! {

/// How many entries of `s` equal `v`.
pub open spec fn count_of<T>(s: Seq<T>, v: T) -> nat
    decreases s.len(),
{
    if s.len() == 0 {
        0
    } else {
        count_of(s.drop_last(), v) + if s.last() == v {
            1nat
        } else {
            0nat
        }
    }
}

pub proof fn lemma_count_bound<T>(s: Seq<T>, v: T)
    ensures
        count_of(s, v) <= s.len(),
    decreases s.len(),
{
    if s.len() > 0 {
        lemma_count_bound(s.drop_last(), v);
    }
}

pub proof fn lemma_count_prefix<T>(s: Seq<T>, v: T, i: int)
    requires
        0 <= i < s.len(),
    ensures
        count_of(s.subrange(0, i + 1), v) == count_of(s.subrange(0, i), v) + if s[i] == v {
            1nat
        } else {
            0nat
        },
{
    assert(s.subrange(0, i + 1).drop_last() =~= s.subrange(0, i));
}

pub proof fn lemma_count_update<T>(s: Seq<T>, i: int, a: T, v: T)
    requires
        0 <= i < s.len(),
    ensures
        count_of(s.update(i, a), v) + (if s[i] == v { 1int } else { 0int }) == count_of(s, v) + (
        if a == v {
            1int
        } else {
            0int
        }),
    decreases s.len(),
{
    if i < s.len() - 1 {
        assert(s.update(i, a).drop_last() =~= s.drop_last().update(i, a));
        lemma_count_update(s.drop_last(), i, a, v);
    } else {
        assert(s.update(i, a).drop_last() =~= s.drop_last());
    }
}

pub proof fn lemma_count_none<T>(s: Seq<T>, v: T)
    requires
        forall|j: int| 0 <= j < s.len() ==> #[trigger] s[j] != v,
    ensures
        count_of(s, v) == 0,
    decreases s.len(),
{
    if s.len() > 0 {
        lemma_count_none(s.drop_last(), v);
    }
}

} // verus!

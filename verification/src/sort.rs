//! The selection sorter: pure reordering of the load targets per the
//! configured ordering policy, stable with respect to encounter order
//! for equal sizes.
use vstd::prelude::*;
use crate::config::SortingMethod;
use crate::matcher::LoadTarget;

verus! {

/// The subsequence of targets of one size, in order. Two sequences with
/// the same such subsequence for every size hold the same targets, and
/// equal-sized targets in the same relative order.
pub open spec fn of_size(s: Seq<LoadTarget>, sz: u64) -> Seq<LoadTarget>
    decreases s.len(),
{
    if s.len() == 0 {
        Seq::empty()
    } else {
        let rest = of_size(s.drop_last(), sz);
        if s.last().size == sz {
            rest.push(s.last())
        } else {
            rest
        }
    }
}

/// A reordering that keeps, for every size, exactly the same targets in
/// the same relative order: what a stable sort preserves.
pub open spec fn same_composition(a: Seq<LoadTarget>, b: Seq<LoadTarget>) -> bool {
    forall|sz: u64| #[trigger] of_size(a, sz) == of_size(b, sz)
}

/// The order two sizes must stand in: ascending or descending.
pub open spec fn cmp_ok(a: u64, b: u64, ascending: bool) -> bool {
    if ascending {
        a <= b
    } else {
        a >= b
    }
}

/// Sortedness by size in the given direction.
pub open spec fn sorted_by(s: Seq<LoadTarget>, ascending: bool) -> bool {
    forall|p: int, q: int|
        0 <= p < q < s.len() ==> cmp_ok((#[trigger] s[p]).size, (#[trigger] s[q]).size, ascending)
}

/// Ascending by size.
pub open spec fn sorted_asc(s: Seq<LoadTarget>) -> bool {
    sorted_by(s, true)
}

/// Descending by size.
pub open spec fn sorted_desc(s: Seq<LoadTarget>) -> bool {
    sorted_by(s, false)
}

proof fn lemma_of_size_add(a: Seq<LoadTarget>, b: Seq<LoadTarget>, sz: u64)
    ensures
        of_size(a + b, sz) == of_size(a, sz) + of_size(b, sz),
    decreases b.len(),
{
    if b.len() == 0 {
        assert(a + b =~= a);
        assert(of_size(b, sz) =~= Seq::<LoadTarget>::empty());
        assert(of_size(a, sz) + of_size(b, sz) =~= of_size(a, sz));
    } else {
        lemma_of_size_add(a, b.drop_last(), sz);
        assert((a + b).drop_last() =~= a + b.drop_last());
        assert((a + b).last() == b.last());
        if b.last().size == sz {
            assert(of_size(a + b, sz) =~= of_size(a, sz) + of_size(b, sz));
        } else {
            assert(of_size(a + b, sz) =~= of_size(a, sz) + of_size(b, sz));
        }
    }
}

proof fn lemma_of_size_excluded(s: Seq<LoadTarget>, sz: u64)
    requires
        forall|k: int| 0 <= k < s.len() ==> (#[trigger] s[k]).size != sz,
    ensures
        of_size(s, sz) == Seq::<LoadTarget>::empty(),
    decreases s.len(),
{
    if s.len() > 0 {
        lemma_of_size_excluded(s.drop_last(), sz);
    }
    assert(of_size(s, sz) =~= Seq::<LoadTarget>::empty());
}

/// Moving one element earlier, past elements of other sizes only,
/// keeps the composition.
proof fn lemma_move_preserves_composition(s: Seq<LoadTarget>, i: int, j: int)
    requires
        0 <= j <= i < s.len(),
        forall|q: int| j <= q < i ==> (#[trigger] s[q]).size != s[i].size,
    ensures
        same_composition(s, s.remove(i).insert(j, s[i])),
{
    let x = s[i];
    let a = s.subrange(0, j);
    let m = s.subrange(j, i);
    let r = s.subrange(i + 1, s.len() as int);
    let xs = seq![x];
    assert(s =~= a + m + xs + r);
    let s2 = s.remove(i).insert(j, x);
    assert(s2 =~= a + xs + m + r);
    assert forall|sz: u64| #[trigger] of_size(s, sz) == of_size(s2, sz) by {
        lemma_of_size_add(a + m + xs, r, sz);
        lemma_of_size_add(a + m, xs, sz);
        lemma_of_size_add(a, m, sz);
        lemma_of_size_add(a + xs + m, r, sz);
        lemma_of_size_add(a + xs, m, sz);
        lemma_of_size_add(a, xs, sz);
        assert(xs.drop_last() =~= Seq::<LoadTarget>::empty());
        assert(of_size(Seq::<LoadTarget>::empty(), sz) == Seq::<LoadTarget>::empty());
        assert(Seq::<LoadTarget>::empty().push(x) =~= seq![x]);
        assert(of_size(xs, sz) == if sz == x.size {
            seq![x]
        } else {
            Seq::<LoadTarget>::empty()
        });
        if sz == x.size {
            lemma_of_size_excluded(m, sz);
        }
        assert(of_size(s, sz) =~= of_size(s2, sz));
    }
}

/// Whether a target of size `a_size` may stay before one of size `key`.
fn keeps_before(a_size: u64, key: u64, ascending: bool) -> (b: bool)
    ensures
        b == cmp_ok(a_size, key, ascending),
{
    if ascending {
        a_size <= key
    } else {
        a_size >= key
    }
}

/// Stable insertion sort by size, ascending or descending.
#[verifier::loop_isolation(false)]
fn insertion_sort(v: &mut Vec<LoadTarget>, ascending: bool)
    ensures
        sorted_by(final (v)@, ascending),
        same_composition(old(v)@, final (v)@),
        final (v)@.len() == old(v)@.len(),
{
    let n = v.len();
    let mut i: usize = 0;
    while i < n
        invariant
            0 <= i <= n,
            v@.len() == n,
            sorted_by(v@.take(i as int), ascending),
            same_composition(old(v)@, v@),
        decreases n - i,
    {
        let key: u64 = v[i].size;
        let mut j: usize = 0;
        while j < i && keeps_before(v[j].size, key, ascending)
            invariant
                0 <= j <= i,
                forall|k: int| 0 <= k < j ==> cmp_ok((#[trigger] v@[k]).size, key, ascending),
            decreases i - j,
        {
            j = j + 1;
        }
        let ghost s = v@;
        proof {
            // The sorted prefix, restated over `s` itself.
            assert forall|p: int, q: int| 0 <= p < q < i implies cmp_ok(
                (#[trigger] s[p]).size,
                (#[trigger] s[q]).size,
                ascending,
            ) by {
                assert(s.take(i as int)[p] == s[p]);
                assert(s.take(i as int)[q] == s[q]);
            }
            // Everything from the insertion point up to `i` must come
            // after the moved target, and so has a different size.
            assert forall|q: int| j <= q < i implies cmp_ok(
                key,
                (#[trigger] s[q]).size,
                ascending,
            ) && s[q].size != key by {
                assert(!cmp_ok(s[j as int].size, key, ascending));
            }
        }
        let x = v.remove(i);
        v.insert(j, x);
        proof {
            assert(x.size == key);
            lemma_move_preserves_composition(s, i as int, j as int);
            assert(v@ == s.remove(i as int).insert(j as int, x));
            assert forall|sz: u64| #[trigger] of_size(old(v)@, sz) == of_size(v@, sz) by {
                assert(of_size(old(v)@, sz) == of_size(s, sz));
                assert(of_size(s, sz) == of_size(v@, sz));
            }
            assert forall|p: int, q: int| 0 <= p < q < i + 1 implies cmp_ok(
                (#[trigger] v@.take(i as int + 1)[p]).size,
                (#[trigger] v@.take(i as int + 1)[q]).size,
                ascending,
            ) by {
                assert(v@.take(i as int + 1)[p] == v@[p]);
                assert(v@.take(i as int + 1)[q] == v@[q]);
                assert(v@[p] == if p < j {
                    s[p]
                } else if p == j {
                    x
                } else {
                    s[p - 1]
                });
                assert(v@[q] == if q < j {
                    s[q]
                } else if q == j {
                    x
                } else {
                    s[q - 1]
                });
            }
        }
        i = i + 1;
    }
    proof {
        assert(v@.take(n as int) =~= v@);
    }
}

/// Orders the load targets per the configured policy: no reordering for
/// first-to-last, ascending by size for smallest-to-largest, descending
/// for largest-to-smallest; the sort is stable, so equal sizes keep
/// their encounter order.
pub fn sort_targets(v: &mut Vec<LoadTarget>, method: &SortingMethod)
    ensures
        final (v)@.len() == old(v)@.len(),
        same_composition(old(v)@, final (v)@),
        *method == SortingMethod::FL ==> final (v)@ == old(v)@,
        *method == SortingMethod::SL ==> sorted_asc(final (v)@),
        *method == SortingMethod::LS ==> sorted_desc(final (v)@),
{
    match method {
        SortingMethod::FL => {
        },
        SortingMethod::SL => {
            insertion_sort(v, true);
        },
        SortingMethod::LS => {
            insertion_sort(v, false);
        },
    }
}

} // verus!

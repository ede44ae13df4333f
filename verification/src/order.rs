//! What the exercise algorithms assume of a comparable element type:
//! its comparison is total, consistent, and visible to the verifier.
//! Integer types satisfy all of it; the contracts of the sorts and
//! searches are stated over these predicates.

use vstd::prelude::*;
use vstd::std_specs::cmp::PartialOrdSpec;
use core::cmp::Ordering;

verus! {

/// `a` is at or below `b` in the order the type's comparison reports.
pub open spec fn cmp_le<T: PartialOrd>(a: T, b: T) -> bool {
    a.partial_cmp_spec(&b) matches Some(Ordering::Less | Ordering::Equal)
}

/// The element type's comparison is a total order that the verifier
/// can see through: it obeys its specification, always answers, flips
/// consistently when the arguments swap sides, and is transitive.
/// This is what lawful `Ord` implementations, integers among them,
/// provide.
pub open spec fn total_order<T: PartialOrd>() -> bool {
    &&& T::obeys_partial_cmp_spec()
    &&& forall|a: T, b: T| #[trigger] a.partial_cmp_spec(&b) is Some
    &&& forall|a: T, b: T|
        #[trigger] a.partial_cmp_spec(&b) == Some(Ordering::Less) <==> b.partial_cmp_spec(&a)
            == Some(Ordering::Greater)
    &&& forall|a: T, b: T|
        #[trigger] a.partial_cmp_spec(&b) == Some(Ordering::Equal) <==> b.partial_cmp_spec(&a)
            == Some(Ordering::Equal)
    &&& forall|a: T, b: T, c: T| cmp_le(a, b) && #[trigger] cmp_le(b, c) ==> #[trigger] cmp_le(a, c)
}

/// Under a total order, two elements always compare one way or the
/// other.
pub proof fn lemma_le_total<T: PartialOrd>(a: T, b: T)
    requires
        total_order::<T>(),
    ensures
        cmp_le(a, b) || cmp_le(b, a),
{
    assert(a.partial_cmp_spec(&b) is Some);
    if a.partial_cmp_spec(&b) == Some(Ordering::Greater) {
        assert(b.partial_cmp_spec(&a) == Some(Ordering::Less));
    }
}

/// What a false answer from `<` means under a total order: the other
/// way around holds.
pub proof fn lemma_not_lt<T: PartialOrd>(a: T, b: T)
    requires
        total_order::<T>(),
        a.partial_cmp_spec(&b) != Some(Ordering::Less),
    ensures
        cmp_le(b, a),
{
    assert(a.partial_cmp_spec(&b) is Some);
    if a.partial_cmp_spec(&b) == Some(Ordering::Greater) {
        assert(b.partial_cmp_spec(&a) == Some(Ordering::Less));
    }
}

/// Ascending order over a whole sequence.
pub open spec fn sorted<T: PartialOrd>(s: Seq<T>) -> bool {
    forall|i: int, j: int| 0 <= i <= j < s.len() ==> #[trigger] cmp_le(s[i], s[j])
}

/// Swapping two elements in place rearranges a sequence but keeps its
/// contents: the multiset of elements is unchanged.
pub proof fn lemma_swap_preserves_multiset<T>(s: Seq<T>, i: int, j: int)
    requires
        0 <= i < s.len(),
        0 <= j < s.len(),
    ensures
        s.update(i, s[j]).update(j, s[i]).to_multiset() == s.to_multiset(),
{
    broadcast use vstd::seq_lib::group_seq_properties;
    broadcast use vstd::seq_lib::to_multiset_update;
    broadcast use vstd::multiset::group_multiset_axioms;

    if i == j {
        assert(s.update(i, s[j]).update(j, s[i]) =~= s);
    } else {
        let s1 = s.update(i, s[j]);
        let s2 = s1.update(j, s[i]);
        assert(s1[j] == s[j]);
        assert(s1.to_multiset() == s.to_multiset().insert(s[j]).remove(s[i]));
        assert(s2.to_multiset() == s1.to_multiset().insert(s[i]).remove(s1[j]));
        assert(s2.to_multiset() =~= s.to_multiset());
    }
}

/// Rearranging a sequence cannot raise its elements above a bound its
/// old elements respected: any sequence with the same contents is
/// bounded the same way.
pub proof fn lemma_same_multiset_le_bound<T: PartialOrd>(s1: Seq<T>, s2: Seq<T>, b: T)
    requires
        s1.to_multiset() == s2.to_multiset(),
        forall|i: int| 0 <= i < s1.len() ==> #[trigger] cmp_le(s1[i], b),
    ensures
        forall|i: int| 0 <= i < s2.len() ==> #[trigger] cmp_le(s2[i], b),
{
    broadcast use vstd::seq_lib::group_to_multiset_ensures;

    assert forall|i: int| 0 <= i < s2.len() implies #[trigger] cmp_le(s2[i], b) by {
        assert(s2.contains(s2[i]));
        assert(s1.to_multiset().count(s2[i]) > 0);
        let w = choose|w: int| 0 <= w < s1.len() && s1[w] == s2[i];
        assert(cmp_le(s1[w], b));
    }
}

/// The mirrored fact for a lower bound.
pub proof fn lemma_same_multiset_ge_bound<T: PartialOrd>(s1: Seq<T>, s2: Seq<T>, b: T)
    requires
        s1.to_multiset() == s2.to_multiset(),
        forall|i: int| 0 <= i < s1.len() ==> #[trigger] cmp_le(b, s1[i]),
    ensures
        forall|i: int| 0 <= i < s2.len() ==> #[trigger] cmp_le(b, s2[i]),
{
    broadcast use vstd::seq_lib::group_to_multiset_ensures;

    assert forall|i: int| 0 <= i < s2.len() implies #[trigger] cmp_le(b, s2[i]) by {
        assert(s2.contains(s2[i]));
        assert(s1.to_multiset().count(s2[i]) > 0);
        let w = choose|w: int| 0 <= w < s1.len() && s1[w] == s2[i];
        assert(cmp_le(b, s1[w]));
    }
}

/// A swap inside the range `[lo, hi)` keeps the range's contents and
/// leaves everything outside the range exactly as it was.
pub proof fn lemma_swap_in_range_multiset<T>(s: Seq<T>, lo: int, hi: int, i: int, j: int)
    requires
        0 <= lo <= i < hi <= s.len(),
        lo <= j < hi,
    ensures
        s.update(i, s[j]).update(j, s[i]).subrange(lo, hi).to_multiset() == s.subrange(
            lo,
            hi,
        ).to_multiset(),
        s.update(i, s[j]).update(j, s[i]).subrange(0, lo) == s.subrange(0, lo),
        s.update(i, s[j]).update(j, s[i]).subrange(hi, s.len() as int) == s.subrange(
            hi,
            s.len() as int,
        ),
{
    let s2 = s.update(i, s[j]).update(j, s[i]);
    let inner = s.subrange(lo, hi);
    assert(s2.subrange(lo, hi) =~= inner.update(i - lo, inner[j - lo]).update(
        j - lo,
        inner[i - lo],
    ));
    lemma_swap_preserves_multiset(inner, i - lo, j - lo);
    assert(s2.subrange(0, lo) =~= s.subrange(0, lo));
    assert(s2.subrange(hi, s.len() as int) =~= s.subrange(hi, s.len() as int));
}

/// The contents of a range are the contents of its two halves.
pub proof fn lemma_subrange_multiset_split<T>(s: Seq<T>, lo: int, mid: int, hi: int)
    requires
        0 <= lo <= mid <= hi <= s.len(),
    ensures
        s.subrange(lo, hi).to_multiset() == s.subrange(lo, mid).to_multiset().add(
            s.subrange(mid, hi).to_multiset(),
        ),
{
    assert(s.subrange(lo, hi) =~= s.subrange(lo, mid) + s.subrange(mid, hi));
    vstd::seq_lib::lemma_multiset_commutative(s.subrange(lo, mid), s.subrange(mid, hi));
}

/// A copy of the element range `[from, to)` of a vector.
pub fn copy_range<T: Copy>(v: &Vec<T>, from: usize, to: usize) -> (r: Vec<T>)
    requires
        from <= to <= v@.len(),
    ensures
        r@ == v@.subrange(from as int, to as int),
{
    let mut r: Vec<T> = Vec::new();
    let mut i = from;
    while i < to
        invariant
            from <= i <= to <= v@.len(),
            r@ == v@.subrange(from as int, i as int),
        decreases to - i,
    {
        r.push(v[i]);
        proof {
            assert(r@ =~= v@.subrange(from as int, i + 1));
        }
        i += 1;
    }
    r
}

/// In-place exchange of two positions of a vector.
pub fn swap_elems<T: Copy>(v: &mut Vec<T>, i: usize, j: usize)
    requires
        i < old(v)@.len(),
        j < old(v)@.len(),
    ensures
        final(v)@ == old(v)@.update(i as int, old(v)@[j as int]).update(
            j as int,
            old(v)@[i as int],
        ),
        final(v)@.to_multiset() == old(v)@.to_multiset(),
        final(v)@.len() == old(v)@.len(),
{
    proof {
        lemma_swap_preserves_multiset(v@, i as int, j as int);
    }
    let a = v[i];
    let b = v[j];
    v.set(i, b);
    v.set(j, a);
}

/// The machine integers order totally and their comparison is fully
/// specified, so the sorts and searches here can be called on them with
/// nothing more to show.
pub proof fn lemma_i32_total_order()
    ensures
        total_order::<i32>(),
{
}

} // verus!

//! The spatial lookup array: one `(cell key, particle index)` entry per
//! particle, padded with sentinel entries up to a power of two.

use vstd::prelude::*;

verus! {

/// Key carried by padding entries and by empty slots of the offset table.
pub const SENTINEL: u32 = 0xffff_ffff;

/// One entry of the spatial lookup array.
#[derive(Clone, Copy, Debug, PartialEq, Eq, Structural)]
pub struct SpatialLookupEntry {
    pub cell_key: u32,
    pub particle_index: u32,
}

/// The entry that fills the tail of the lookup array.
pub open spec fn padding_entry() -> SpatialLookupEntry {
    SpatialLookupEntry { cell_key: SENTINEL, particle_index: SENTINEL }
}

/// Cell key of the entry at position `i`.
pub open spec fn key_at(s: Seq<SpatialLookupEntry>, i: int) -> int {
    s[i].cell_key as int
}

/// Keys never decrease over the positions `lo..hi`.
pub open spec fn sorted_between(s: Seq<SpatialLookupEntry>, lo: int, hi: int) -> bool {
    forall|i: int, j: int| lo <= i <= j < hi ==> key_at(s, i) <= key_at(s, j)
}

/// Keys never decrease over the whole array.
pub open spec fn sorted_by_key(s: Seq<SpatialLookupEntry>) -> bool {
    sorted_between(s, 0, s.len() as int)
}

impl SpatialLookupEntry {
    /// The entry that fills the tail of the lookup array.
    pub fn padding() -> (e: SpatialLookupEntry)
        ensures
            e == padding_entry(),
    {
        SpatialLookupEntry { cell_key: SENTINEL, particle_index: SENTINEL }
    }
}

/// The first `count` entries are real and the rest is padding.
pub open spec fn padded_from(s: Seq<SpatialLookupEntry>, count: int) -> bool {
    &&& 0 <= count <= s.len()
    &&& forall|j: int| 0 <= j < count ==> key_at(s, j) != SENTINEL
    &&& forall|j: int| count <= j < s.len() ==> s[j] == padding_entry()
}

/// Where the copies of an entry fill the end of the array, there are as many
/// positions behind the first copy as the array holds copies.
proof fn lemma_suffix_count(s: Seq<SpatialLookupEntry>, v: SpatialLookupEntry)
    requires
        forall|i: int, j: int| 0 <= i < j < s.len() && s[i] == v ==> s[j] == v,
    ensures
        s.to_multiset().count(v) <= s.len(),
        forall|j: int| 0 <= j < s.len() ==> (s[j] == v <==> j >= s.len() - s.to_multiset().count(v)),
    decreases s.len(),
{
    broadcast use vstd::multiset::group_multiset_axioms;

    if s.len() == 0 {
        vstd::seq_lib::to_multiset_len(s);
    } else {
        let head = s.drop_last();
        let x = s.last();
        assert(s =~= head.push(x));
        vstd::seq_lib::to_multiset_build(head, x);
        assert forall|i: int, j: int| 0 <= i < j < head.len() && head[i] == v implies head[j]
            == v by {
            assert(s[i] == v);
        }
        lemma_suffix_count(head, v);
        if x != v {
            assert forall|j: int| 0 <= j < head.len() implies head[j] != v by {
                if head[j] == v {
                    assert(s[j] == v);
                    assert(s[s.len() - 1] == v);
                }
            }
            assert(!head.contains(v));
            vstd::seq_lib::to_multiset_contains(head, v);
        }
    }
}

/// Sorting moves the padding to the end: where the real entries stood first
/// before, they stand first afterwards.
pub proof fn lemma_padding_sorts_last(
    before: Seq<SpatialLookupEntry>,
    after: Seq<SpatialLookupEntry>,
    count: int,
)
    requires
        padded_from(before, count),
        after.len() == before.len(),
        after.to_multiset() == before.to_multiset(),
        sorted_by_key(after),
    ensures
        padded_from(after, count),
        forall|j: int| 0 <= j < after.len() ==> before.contains(#[trigger] after[j]),
        forall|j: int| 0 <= j < before.len() ==> after.contains(#[trigger] before[j]),
{
    let pad = padding_entry();
    assert forall|j: int| 0 <= j < after.len() implies before.contains(#[trigger] after[j]) by {
        assert(after.contains(after[j]));
        vstd::seq_lib::to_multiset_contains(after, after[j]);
        vstd::seq_lib::to_multiset_contains(before, after[j]);
    }
    assert forall|j: int| 0 <= j < before.len() implies after.contains(#[trigger] before[j]) by {
        assert(before.contains(before[j]));
        vstd::seq_lib::to_multiset_contains(after, before[j]);
        vstd::seq_lib::to_multiset_contains(before, before[j]);
    }
    // an entry with the sentinel key is padding, before and after
    assert forall|j: int| 0 <= j < after.len() && key_at(after, j) == SENTINEL implies after[j]
        == pad by {
        assert(before.contains(after[j]));
        let i = choose|i: int| 0 <= i < before.len() && before[i] == after[j];
        assert(key_at(before, i) == SENTINEL);
    }
    assert forall|i: int, j: int| 0 <= i < j < after.len() && after[i] == pad implies after[j]
        == pad by {
        assert(key_at(after, i) <= key_at(after, j));
    }
    assert forall|i: int, j: int| 0 <= i < j < before.len() && before[i] == pad implies before[j]
        == pad by {
        assert(key_at(before, i) == SENTINEL);
    }
    lemma_suffix_count(before, pad);
    lemma_suffix_count(after, pad);
    let m = before.to_multiset().count(pad) as int;
    let n = before.len() as int;
    if count < n - m {
        assert(before[count] == pad);
    } else if count > n - m {
        assert(key_at(before, n - m) != SENTINEL);
    }
    assert forall|j: int| 0 <= j < count implies key_at(after, j) != SENTINEL by {
        assert(after[j] != pad);
    }
}

/// No two of the first `count` entries name the same particle.
pub open spec fn distinct_particles(s: Seq<SpatialLookupEntry>, count: int) -> bool {
    forall|a: int, b: int|
        0 <= a < b < count ==> (#[trigger] s[a]).particle_index != (#[trigger] s[b]).particle_index
}

/// Where the real entries differ from each other before, they differ from
/// each other after any rearrangement that keeps the padding behind them.
pub proof fn lemma_real_entries_stay_distinct(
    before: Seq<SpatialLookupEntry>,
    after: Seq<SpatialLookupEntry>,
    count: int,
)
    requires
        padded_from(before, count),
        padded_from(after, count),
        after.len() == before.len(),
        after.to_multiset() == before.to_multiset(),
        before.subrange(0, count).no_duplicates(),
    ensures
        after.subrange(0, count).no_duplicates(),
{
    broadcast use vstd::multiset::group_multiset_axioms;

    let n = before.len() as int;
    let real_before = before.subrange(0, count);
    let real_after = after.subrange(0, count);
    let tail_before = before.subrange(count, n);
    let tail_after = after.subrange(count, n);
    assert(tail_before =~= tail_after);
    assert(before =~= real_before + tail_before);
    assert(after =~= real_after + tail_after);
    vstd::seq_lib::lemma_multiset_commutative(real_before, tail_before);
    vstd::seq_lib::lemma_multiset_commutative(real_after, tail_after);
    real_before.lemma_multiset_has_no_duplicates();
    assert forall|x: SpatialLookupEntry| real_after.to_multiset().contains(x) implies real_after
        .to_multiset().count(x) == 1 by {
        let sum_after = real_after.to_multiset().add(tail_after.to_multiset());
        let sum_before = real_before.to_multiset().add(tail_before.to_multiset());
        assert(after.to_multiset() == sum_after);
        assert(before.to_multiset() == sum_before);
        assert(sum_after.count(x) == real_after.to_multiset().count(x) + tail_after.to_multiset().count(x));
        assert(sum_before.count(x) == real_before.to_multiset().count(x) + tail_before.to_multiset().count(x));
        assert(real_before.to_multiset().count(x) == real_after.to_multiset().count(x));
        assert(real_before.to_multiset().contains(x));
    }
    real_after.lemma_multiset_has_no_duplicates_conv();
}

} // verus!

//! The cell offset builder: for every key, the position in the sorted lookup
//! array where the entries of that key begin.

use vstd::prelude::*;
use crate::lookup::{key_at, sorted_between, SpatialLookupEntry, SENTINEL};

verus! {

/// Position `i` begins a run of equal keys.
pub open spec fn run_start(s: Seq<SpatialLookupEntry>, i: int) -> bool {
    i == 0 || key_at(s, i) != key_at(s, i - 1)
}

/// The slot of key `k` after the first `upto` entries were looked at: the
/// last position that begins a run of `k`, or the sentinel where no entry
/// holds `k`.
pub open spec fn cell_start(s: Seq<SpatialLookupEntry>, upto: nat, k: int) -> u32
    decreases upto,
{
    if upto == 0 {
        SENTINEL
    } else if key_at(s, upto - 1) == k && run_start(s, upto - 1) {
        (upto - 1) as u32
    } else {
        cell_start(s, (upto - 1) as nat, k)
    }
}

/// The offset table over the first `count` entries of the lookup array: one
/// slot per key below `count`.
pub open spec fn offset_table(s: Seq<SpatialLookupEntry>, count: nat) -> Seq<u32> {
    Seq::new(count, |k: int| cell_start(s, count, k))
}

/// A slot holds the sentinel exactly when no entry holds its key; otherwise
/// it names a position that holds the key and begins a run.
pub proof fn lemma_cell_start(s: Seq<SpatialLookupEntry>, count: nat, k: int)
    requires
        count <= s.len(),
        count < SENTINEL,
    ensures
        cell_start(s, count, k) == SENTINEL <==> (forall|j: int|
            0 <= j < count ==> key_at(s, j) != k),
        cell_start(s, count, k) != SENTINEL ==> {
            let v = cell_start(s, count, k) as int;
            &&& 0 <= v < count
            &&& key_at(s, v) == k
            &&& run_start(s, v)
        },
    decreases count,
{
    if count > 0 {
        let i = (count - 1) as int;
        lemma_cell_start(s, (count - 1) as nat, k);
        if key_at(s, i) == k && run_start(s, i) {
            assert(key_at(s, i) == k);
        } else if key_at(s, i) == k {
            assert(key_at(s, i - 1) == k);
        } else {
            if cell_start(s, count, k) == SENTINEL {
                assert forall|j: int| 0 <= j < count implies key_at(s, j) != k by {}
            }
        }
    }
}

/// Over a sorted array, the slot of a key names the first entry of that key,
/// and the entries of the key follow it without a gap.
pub proof fn lemma_cell_start_sorted(s: Seq<SpatialLookupEntry>, count: nat, j: int)
    requires
        count <= s.len(),
        count < SENTINEL,
        sorted_between(s, 0, count as int),
        0 <= j < count,
    ensures
        ({
            let k = key_at(s, j);
            let v = cell_start(s, count, k) as int;
            &&& 0 <= v <= j
            &&& forall|i: int| v <= i <= j ==> key_at(s, i) == k
            &&& forall|i: int| 0 <= i < v ==> key_at(s, i) < k
        }),
{
    let k = key_at(s, j);
    lemma_cell_start(s, count, k);
    let v = cell_start(s, count, k) as int;
    assert(key_at(s, v) == k);
    if v > j {
        assert(key_at(s, j) <= key_at(s, v - 1) <= key_at(s, v));
    }
    assert forall|i: int| v <= i <= j implies key_at(s, i) == k by {
        assert(key_at(s, v) <= key_at(s, i) <= key_at(s, j));
    }
    assert forall|i: int| 0 <= i < v implies key_at(s, i) < k by {
        assert(key_at(s, i) <= key_at(s, v - 1) <= key_at(s, v));
    }
}

/// For every key that an entry holds, the offset table names a position that
/// holds the key, and the position before it, if any, holds another key.
pub proof fn lemma_offset_names_run_start(s: Seq<SpatialLookupEntry>, count: nat, j: int)
    requires
        count <= s.len(),
        count < SENTINEL,
        0 <= j < count,
        key_at(s, j) < count,
    ensures
        ({
            let k = key_at(s, j);
            let o = offset_table(s, count)[k] as int;
            &&& 0 <= o < count
            &&& key_at(s, o) == k
            &&& (o == 0 || key_at(s, o - 1) != k)
        }),
{
    lemma_cell_start(s, count, key_at(s, j));
}

/// The offset dispatch: the table is cleared to the sentinel, then every
/// entry that begins a run writes its position into the slot of its key.
/// Keys that have no slot are passed over.
pub fn calculate_spatial_lookup_offsets(
    lookup: &Vec<SpatialLookupEntry>,
    particle_count: u32,
) -> (offsets: Vec<u32>)
    requires
        particle_count <= lookup@.len(),
    ensures
        offsets@ == offset_table(lookup@, particle_count as nat),
{
    let mut offsets: Vec<u32> = Vec::new();
    let mut k: u32 = 0;
    while k < particle_count
        invariant
            k <= particle_count,
            offsets@.len() == k,
            forall|q: int| 0 <= q < k ==> #[trigger] offsets@[q] == SENTINEL,
        decreases particle_count - k,
    {
        offsets.push(SENTINEL);
        k = k + 1;
    }
    let mut i: u32 = 0;
    while i < particle_count
        invariant
            i <= particle_count <= lookup@.len(),
            offsets@.len() == particle_count,
            forall|q: int|
                0 <= q < particle_count ==> #[trigger] offsets@[q] == cell_start(
                    lookup@,
                    i as nat,
                    q,
                ),
        decreases particle_count - i,
    {
        let key: u32 = lookup[i as usize].cell_key;
        let first: bool = i == 0 || lookup[(i - 1) as usize].cell_key != key;
        if first && key < particle_count {
            offsets[key as usize] = i;
        }
        i = i + 1;
    }
    assert(offsets@ =~= offset_table(lookup@, particle_count as nat));
    offsets
}

} // verus!

//! Buffers read back from the device: their bytes as words and entries, and
//! the checks that hold them against the model.

use vstd::prelude::*;
use crate::grid::{cell_key, GridCell};
use crate::lookup::{key_at, sorted_between, SpatialLookupEntry};
use crate::power::MAX_PARTICLES;
use crate::offsets::{calculate_spatial_lookup_offsets, offset_table};
use crate::wire::host_image;

verus! {

/// `n` zero bytes.
pub open spec fn zeros(n: int) -> Seq<u8> {
    Seq::new(n as nat, |i: int| 0u8)
}

/// The words of a run of entries: of each entry the key, then the particle.
pub open spec fn entry_words(entries: Seq<SpatialLookupEntry>) -> Seq<u32> {
    Seq::new(
        2 * entries.len(),
        |i: int|
            if i % 2 == 0 {
                entries[i / 2].cell_key
            } else {
                entries[i / 2].particle_index
            },
    )
}

/// `bytemuck::pod_collect_to_vec` from bytes to words: the bytes, filled up
/// with zeros to a whole number of words, are the memory image of the words
/// that come back.
#[verifier::external_body]
fn collect_words(bytes: &[u8]) -> (words: Vec<u32>)
    ensures
        words@.len() == (bytes@.len() + 3) / 4,
        host_image(bytes@ + zeros(4 * words@.len() - bytes@.len()), words@),
{
    bytemuck::pod_collect_to_vec::<u8, u32>(bytes)
}

/// The offset table that `bytes` hold, where they hold whole words.
pub fn decode_offsets(bytes: &[u8]) -> (r: Option<Vec<u32>>)
    ensures
        r is Some <==> bytes@.len() % 4 == 0,
        r matches Some(words) ==> {
            &&& words@.len() == bytes@.len() / 4
            &&& host_image(bytes@, words@)
        },
{
    if bytes.len() % 4 != 0 {
        return None;
    }
    let words = collect_words(bytes);
    assert(bytes@ + zeros(0) =~= bytes@);
    Some(words)
}

/// The lookup entries that `bytes` hold, where they hold whole entries.
pub fn decode_spatial_lookup(bytes: &[u8]) -> (r: Option<Vec<SpatialLookupEntry>>)
    ensures
        r is Some <==> bytes@.len() % 8 == 0,
        r matches Some(entries) ==> {
            &&& entries@.len() == bytes@.len() / 8
            &&& host_image(bytes@, entry_words(entries@))
        },
{
    if bytes.len() % 8 != 0 {
        return None;
    }
    let words = collect_words(bytes);
    assert(bytes@ + zeros(0) =~= bytes@);
    let count: usize = words.len() / 2;
    let mut entries: Vec<SpatialLookupEntry> = Vec::new();
    let mut i: usize = 0;
    while i < count
        invariant
            i <= count,
            count * 2 == words@.len(),
            words@.len() <= usize::MAX,
            entries@.len() == i,
            forall|q: int|
                0 <= q < i ==> #[trigger] entries@[q] == (SpatialLookupEntry {
                    cell_key: words@[2 * q],
                    particle_index: words@[2 * q + 1],
                }),
        decreases count - i,
    {
        entries.push(SpatialLookupEntry { cell_key: words[2 * i], particle_index: words[2 * i + 1] });
        i = i + 1;
    }
    assert(entry_words(entries@) =~= words@);
    Some(entries)
}

/// The first `particle_count` entries of a lookup array are in key order.
pub fn validate_spatial_lookup(array: &Vec<SpatialLookupEntry>, particle_count: u32) -> (ok: bool)
    requires
        particle_count <= array@.len(),
    ensures
        ok == sorted_between(array@, 0, particle_count as int),
{
    let mut i: u32 = 1;
    while i < particle_count
        invariant
            1 <= i,
            i <= particle_count || particle_count == 0,
            particle_count <= array@.len(),
            sorted_between(array@, 0, i as int),
        decreases particle_count - i,
    {
        if array[(i - 1) as usize].cell_key > array[i as usize].cell_key {
            assert(key_at(array@, i - 1) > key_at(array@, i as int));
            return false;
        }
        proof {
            assert forall|a: int, b: int| 0 <= a <= b < i + 1 implies key_at(array@, a) <= key_at(
                array@,
                b,
            ) by {
                if b == i && a < i {
                    assert(key_at(array@, a) <= key_at(array@, i - 1));
                }
            }
        }
        i = i + 1;
    }
    true
}

/// The offset table is the one of the first `particle_count` entries of the
/// lookup array.
pub fn validate_offsets(
    lookup: &Vec<SpatialLookupEntry>,
    offsets: &Vec<u32>,
    particle_count: u32,
) -> (ok: bool)
    requires
        particle_count <= lookup@.len(),
    ensures
        ok == (offsets@ == offset_table(lookup@, particle_count as nat)),
{
    if offsets.len() != particle_count as usize {
        return false;
    }
    let expected = calculate_spatial_lookup_offsets(lookup, particle_count);
    let mut k: usize = 0;
    while k < offsets.len()
        invariant
            k <= offsets@.len() == expected@.len(),
            particle_count <= lookup@.len(),
            expected@ == offset_table(lookup@, particle_count as nat),
            forall|q: int| 0 <= q < k ==> offsets@[q] == expected@[q],
        decreases offsets@.len() - k,
    {
        if offsets[k] != expected[k] {
            return false;
        }
        k = k + 1;
    }
    assert(offsets@ =~= expected@);
    true
}

/// The entry does not hold the key of the cell of the particle that it
/// names, or names no particle.
pub open spec fn key_is_wrong(e: SpatialLookupEntry, cells: Seq<GridCell>) -> bool {
    !(e.particle_index < cells.len() && e.cell_key == cell_key(
        cells[e.particle_index as int],
        cells.len() as u32,
    ))
}

/// The number of wrong keys among the first `upto` entries.
pub open spec fn wrong_keys(lookup: Seq<SpatialLookupEntry>, cells: Seq<GridCell>, upto: nat) -> nat
    decreases upto,
{
    if upto == 0 {
        0
    } else {
        wrong_keys(lookup, cells, (upto - 1) as nat) + if key_is_wrong(lookup[upto - 1], cells) {
            1nat
        } else {
            0nat
        }
    }
}

/// Where no entry is wrong, the count is zero.
pub proof fn lemma_no_wrong_key(lookup: Seq<SpatialLookupEntry>, cells: Seq<GridCell>, upto: nat)
    requires
        upto <= lookup.len(),
        forall|j: int| 0 <= j < upto ==> !key_is_wrong(#[trigger] lookup[j], cells),
    ensures
        wrong_keys(lookup, cells, upto) == 0,
    decreases upto,
{
    if upto > 0 {
        lemma_no_wrong_key(lookup, cells, (upto - 1) as nat);
    }
}

/// Holds the entries of the particles against the cells of the particles:
/// the number of entries, among the first as many as there are particles,
/// that do not hold the key of the cell of the particle they name.
pub fn count_wrong_keys(lookup: &Vec<SpatialLookupEntry>, cells: &Vec<GridCell>) -> (wrong: usize)
    requires
        cells@.len() <= MAX_PARTICLES,
        cells@.len() <= lookup@.len(),
    ensures
        wrong == wrong_keys(lookup@, cells@, cells@.len()),
        wrong <= cells@.len(),
{
    let count: u32 = cells.len() as u32;
    let mut wrong: usize = 0;
    let mut j: u32 = 0;
    while j < count
        invariant
            j <= count,
            count == cells@.len(),
            count <= lookup@.len(),
            wrong == wrong_keys(lookup@, cells@, j as nat),
            wrong <= j,
        decreases count - j,
    {
        let entry = lookup[j as usize];
        let right = entry.particle_index < count && cells[entry.particle_index as usize].key(count)
            == entry.cell_key;
        if !right {
            wrong = wrong + 1;
        }
        j = j + 1;
    }
    wrong
}

} // verus!

//! The grid binner: a key for every cell of the uniform grid, and the lookup
//! array that holds one keyed entry per particle.

use vstd::prelude::*;
use crate::lookup::{padding_entry, SpatialLookupEntry};
use crate::power::{lemma_padded_len, padded_len, padded_length, MAX_PARTICLES};
use crate::readback::entry_words;
use crate::wire::{filled, host_image, lemma_all_ones_image, repeated};

verus! {

/// Multiplier of the horizontal cell coordinate.
pub const HASH_PRIME_X: u32 = 73856093;

/// Multiplier of the vertical cell coordinate.
pub const HASH_PRIME_Y: u32 = 19349663;

/// Integer coordinates of a grid cell: a position divided by the smoothing
/// radius and rounded down.
#[derive(Clone, Copy, Debug, PartialEq, Eq, Structural)]
pub struct GridCell {
    pub x: i32,
    pub y: i32,
}

/// A signed coordinate moved up by 2^31, so that the lowest cell maps to 0.
pub open spec fn biased(c: i32) -> u32 {
    (c + 0x8000_0000) as u32
}

/// The hash of a cell: each biased coordinate times its prime, wrapping at 32
/// bits, the two products combined by exclusive or.
pub open spec fn cell_hash(cell: GridCell) -> u32 {
    vstd::wrapping::u32_specs::wrapping_mul(biased(cell.x), HASH_PRIME_X)
        ^ vstd::wrapping::u32_specs::wrapping_mul(biased(cell.y), HASH_PRIME_Y)
}

/// The key of a cell in a table of `table_size` slots.
pub open spec fn cell_key(cell: GridCell, table_size: u32) -> u32 {
    cell_hash(cell) % table_size
}

/// The cell `dx` columns and `dy` rows away, wrapping at the ends of the
/// coordinate range.
pub open spec fn cell_offset(cell: GridCell, dx: i32, dy: i32) -> GridCell {
    GridCell {
        x: vstd::wrapping::i32_specs::wrapping_add(cell.x, dx),
        y: vstd::wrapping::i32_specs::wrapping_add(cell.y, dy),
    }
}

/// The lookup array that the binner writes for the particles in `cells`:
/// entry `p` holds the key of the cell of particle `p`, and the tail up to
/// the next power of two holds padding.
pub open spec fn binned(cells: Seq<GridCell>) -> Seq<SpatialLookupEntry> {
    Seq::new(
        padded_len(cells.len()),
        |p: int|
            if p < cells.len() {
                SpatialLookupEntry {
                    cell_key: cell_key(cells[p], cells.len() as u32),
                    particle_index: p as u32,
                }
            } else {
                padding_entry()
            },
    )
}

impl GridCell {
    /// The hash of the cell.
    pub fn hash(&self) -> (h: u32)
        ensures
            h == cell_hash(*self),
    {
        let ux: u32 = (self.x as i64 + 0x8000_0000) as u32;
        let uy: u32 = (self.y as i64 + 0x8000_0000) as u32;
        ux.wrapping_mul(HASH_PRIME_X) ^ uy.wrapping_mul(HASH_PRIME_Y)
    }

    /// The key of the cell in a table of `table_size` slots.
    pub fn key(&self, table_size: u32) -> (k: u32)
        requires
            table_size > 0,
        ensures
            k == cell_key(*self, table_size),
            k < table_size,
    {
        self.hash() % table_size
    }

    /// The cell `dx` columns and `dy` rows away.
    pub fn offset(&self, dx: i32, dy: i32) -> (c: GridCell)
        ensures
            c == cell_offset(*self, dx, dy),
    {
        GridCell { x: self.x.wrapping_add(dx), y: self.y.wrapping_add(dy) }
    }
}

/// The binning dispatch: one keyed entry per particle, then padding up to the
/// next power of two.
pub fn bin_particles_in_grid(cells: &Vec<GridCell>) -> (lookup: Vec<SpatialLookupEntry>)
    requires
        cells@.len() <= MAX_PARTICLES,
    ensures
        lookup@ == binned(cells@),
{
    let count: u32 = cells.len() as u32;
    let n: u32 = padded_length(count);
    proof {
        lemma_padded_len(count as nat);
    }
    let mut lookup: Vec<SpatialLookupEntry> = Vec::new();
    let mut p: u32 = 0;
    while p < count
        invariant
            p <= count,
            count == cells@.len(),
            lookup@.len() == p,
            forall|q: int| 0 <= q < p ==> #[trigger] lookup@[q] == binned(cells@)[q],
            n == padded_len(cells@.len()),
            count <= n,
        decreases count - p,
    {
        let k: u32 = cells[p as usize].key(count);
        lookup.push(SpatialLookupEntry { cell_key: k, particle_index: p });
        p = p + 1;
    }
    while p < n
        invariant
            count <= p <= n,
            count == cells@.len(),
            lookup@.len() == p,
            forall|q: int| 0 <= q < p ==> #[trigger] lookup@[q] == binned(cells@)[q],
            n == padded_len(cells@.len()),
        decreases n - p,
    {
        lookup.push(SpatialLookupEntry::padding());
        p = p + 1;
    }
    assert(lookup@ =~= binned(cells@));
    lookup
}

/// The binning dispatch of a later frame: the entries of the particles are
/// written anew, and the padding that stands behind them is left as it is.
pub fn rebin_particles_in_grid(lookup: &mut Vec<SpatialLookupEntry>, cells: &Vec<GridCell>)
    requires
        cells@.len() <= MAX_PARTICLES,
        old(lookup)@.len() == padded_len(cells@.len()),
        forall|j: int| cells@.len() <= j < old(lookup)@.len() ==> old(lookup)@[j] == padding_entry(),
    ensures
        final(lookup)@ == binned(cells@),
{
    let count: u32 = cells.len() as u32;
    proof {
        lemma_padded_len(count as nat);
    }
    let ghost before = lookup@;
    let mut p: u32 = 0;
    while p < count
        invariant
            p <= count,
            count == cells@.len(),
            count <= lookup@.len(),
            lookup@.len() == before.len(),
            before.len() == padded_len(cells@.len()),
            forall|q: int| 0 <= q < p ==> #[trigger] lookup@[q] == binned(cells@)[q],
            forall|q: int| count <= q < lookup@.len() ==> lookup@[q] == padding_entry(),
        decreases count - p,
    {
        let k: u32 = cells[p as usize].key(count);
        lookup[p as usize] = SpatialLookupEntry { cell_key: k, particle_index: p };
        p = p + 1;
    }
    assert(lookup@ =~= binned(cells@));
}

/// The lookup array before the first frame: padding in every position.
pub open spec fn blank_lookup(count: nat) -> Seq<SpatialLookupEntry> {
    Seq::new(padded_len(count), |j: int| padding_entry())
}

/// The bytes that the lookup buffer is created with: the memory image of an
/// array of padding, so that the tail behind the particles holds padding
/// before the binner has written anything.
pub fn initial_lookup_bytes(particle_count: u32) -> (bytes: Vec<u8>)
    requires
        particle_count <= MAX_PARTICLES,
    ensures
        bytes@.len() == 8 * padded_len(particle_count as nat),
        bytes@ == filled(8 * padded_len(particle_count as nat), 0xff),
        host_image(bytes@, entry_words(blank_lookup(particle_count as nat))),
{
    let n: u32 = padded_length(particle_count);
    let total: u64 = 8 * (n as u64);
    let mut bytes: Vec<u8> = Vec::new();
    let mut i: u64 = 0;
    while i < total
        invariant
            i <= total,
            bytes@.len() == i,
            forall|q: int| 0 <= q < i ==> bytes@[q] == 0xff,
        decreases total - i,
    {
        bytes.push(0xffu8);
        i = i + 1;
    }
    proof {
        let words = entry_words(blank_lookup(particle_count as nat));
        assert(words =~= repeated(2 * padded_len(particle_count as nat), 0xffff_ffff));
        lemma_all_ones_image(2 * padded_len(particle_count as nat));
        assert(bytes@ =~= filled(8 * padded_len(particle_count as nat), 0xff));
    }
    bytes
}

} // verus!

//! The spatial index of one frame: the lookup array after binning and
//! sorting, with its offset table, and the neighbour scan over both.

use vstd::prelude::*;
use crate::grid::{bin_particles_in_grid, binned, cell_key, rebin_particles_in_grid, GridCell};
use crate::lookup::{
    distinct_particles, key_at, lemma_padding_sorts_last, lemma_real_entries_stay_distinct,
    padded_from, sorted_by_key, SpatialLookupEntry, SENTINEL,
};
use crate::neighbors::{
    block_cell, block_members, block_particles, block_residents, cell_members, cell_residents,
    lemma_resident_found, lemma_resident_position, lemma_residents_distinct,
    lemma_scan_finds_entry, lemma_scan_finds_only_key, neighbor_candidates, neighbor_members,
};
use crate::offsets::lemma_cell_start_sorted;
use crate::offsets::{calculate_spatial_lookup_offsets, offset_table};
use crate::power::{
    lemma_padded_len, lemma_pow2_is_pow2, lemma_stage_count_bound, lemma_stage_count_of_pow2,
    padded_len, stage_count, MAX_PARTICLES,
};
use crate::sorter::{network_result, sort_spatial_lookup};

verus! {

/// The lookup array and the offset table of one frame.
pub struct SpatialIndex {
    pub lookup: Vec<SpatialLookupEntry>,
    pub offsets: Vec<u32>,
}

/// The entry that the binner writes for particle `p`.
pub open spec fn entry_of(cells: Seq<GridCell>, p: int) -> SpatialLookupEntry {
    SpatialLookupEntry { cell_key: cell_key(cells[p], cells.len() as u32), particle_index: p as u32 }
}

/// One of the first `count` positions holds the entry `e`.
pub open spec fn holds_entry(lookup: Seq<SpatialLookupEntry>, count: int, e: SpatialLookupEntry) -> bool {
    exists|j: int| 0 <= j < count && #[trigger] lookup[j] == e
}

/// The lookup array is sorted, its real entries come first and name
/// different particles and keys below the particle count, and the offset
/// table is the one of the lookup array.
pub open spec fn index_wf(lookup: Seq<SpatialLookupEntry>, offsets: Seq<u32>) -> bool {
    &&& offsets.len() <= MAX_PARTICLES
    &&& lookup.len() == padded_len(offsets.len())
    &&& sorted_by_key(lookup)
    &&& padded_from(lookup, offsets.len() as int)
    &&& distinct_particles(lookup, offsets.len() as int)
    &&& forall|j: int|
        0 <= j < offsets.len() ==> key_at(lookup, j) < offsets.len() && (
        #[trigger] lookup[j]).particle_index < offsets.len()
    &&& offsets == offset_table(lookup, offsets.len())
}

/// The lookup array is the sorted array of the particles in `cells`: every
/// real entry is the entry of its particle, and every particle has one.
pub open spec fn index_of(lookup: Seq<SpatialLookupEntry>, cells: Seq<GridCell>) -> bool {
    &&& lookup == network_result(binned(cells), stage_count(cells.len()))
    &&& forall|j: int|
        0 <= j < cells.len() ==> #[trigger] lookup[j] == entry_of(
            cells,
            lookup[j].particle_index as int,
        )
    &&& forall|p: int|
        0 <= p < cells.len() ==> holds_entry(lookup, cells.len() as int, #[trigger] entry_of(cells, p))
}

/// The particles found in the first `upto` cells of a block include those
/// found in each of these cells.
proof fn lemma_block_includes_cell(
    s: Seq<SpatialLookupEntry>,
    offsets: Seq<u32>,
    cell: GridCell,
    upto: nat,
    c: int,
    v: u32,
)
    requires
        0 <= c < upto,
        cell_members(s, offsets, cell_key(block_cell(cell, c), offsets.len() as u32) as int)
            .contains(v),
    ensures
        block_members(s, offsets, cell, upto).contains(v),
    decreases upto,
{
    let head = block_members(s, offsets, cell, (upto - 1) as nat);
    let tail = cell_members(
        s,
        offsets,
        cell_key(block_cell(cell, upto - 1), offsets.len() as u32) as int,
    );
    if c == upto - 1 {
        let i = choose|i: int| 0 <= i < tail.len() && tail[i] == v;
        assert((head + tail)[head.len() + i] == v);
    } else {
        lemma_block_includes_cell(s, offsets, cell, (upto - 1) as nat, c, v);
        let i = choose|i: int| 0 <= i < head.len() && head[i] == v;
        assert((head + tail)[i] == v);
    }
}

/// Every particle found in the first `upto` cells of a block was found in
/// one of these cells.
proof fn lemma_block_member_cell(
    s: Seq<SpatialLookupEntry>,
    offsets: Seq<u32>,
    cell: GridCell,
    upto: nat,
    i: int,
) -> (c: int)
    requires
        0 <= i < block_members(s, offsets, cell, upto).len(),
    ensures
        0 <= c < upto,
        cell_members(s, offsets, cell_key(block_cell(cell, c), offsets.len() as u32) as int)
            .contains(block_members(s, offsets, cell, upto)[i]),
    decreases upto,
{
    let head = block_members(s, offsets, cell, (upto - 1) as nat);
    let tail = cell_members(
        s,
        offsets,
        cell_key(block_cell(cell, upto - 1), offsets.len() as u32) as int,
    );
    if i < head.len() {
        lemma_block_member_cell(s, offsets, cell, (upto - 1) as nat, i)
    } else {
        assert(tail[i - head.len()] == (head + tail)[i]);
        upto - 1
    }
}

/// The neighbour scan finds every particle whose cell has the key of a cell
/// of the block.
pub proof fn lemma_scan_complete(
    lookup: Seq<SpatialLookupEntry>,
    offsets: Seq<u32>,
    cells: Seq<GridCell>,
    cell: GridCell,
    p: int,
    c: int,
)
    requires
        index_wf(lookup, offsets),
        index_of(lookup, cells),
        cells.len() == offsets.len(),
        0 <= p < cells.len(),
        0 <= c < 9,
        cell_key(cells[p], cells.len() as u32) == cell_key(
            block_cell(cell, c),
            cells.len() as u32,
        ),
    ensures
        neighbor_members(lookup, offsets, cell).contains(p as u32),
{
    let count = cells.len();
    assert(holds_entry(lookup, count as int, entry_of(cells, p)));
    let j = choose|j: int| 0 <= j < count && #[trigger] lookup[j] == entry_of(cells, p);
    assert(key_at(lookup, j) < count);
    lemma_scan_finds_entry(lookup, count, j);
    lemma_block_includes_cell(lookup, offsets, cell, 9, c, p as u32);
}

/// The neighbour scan finds only particles whose cell has the key of a cell
/// of the block.
pub proof fn lemma_scan_sound(
    lookup: Seq<SpatialLookupEntry>,
    offsets: Seq<u32>,
    cells: Seq<GridCell>,
    cell: GridCell,
    i: int,
) -> (c: int)
    requires
        index_wf(lookup, offsets),
        index_of(lookup, cells),
        cells.len() == offsets.len(),
        0 <= i < neighbor_members(lookup, offsets, cell).len(),
    ensures
        0 <= c < 9,
        neighbor_members(lookup, offsets, cell)[i] < cells.len(),
        cell_key(
            cells[neighbor_members(lookup, offsets, cell)[i] as int],
            cells.len() as u32,
        ) == cell_key(block_cell(cell, c), cells.len() as u32),
{
    let c = lemma_block_member_cell(lookup, offsets, cell, 9, i);
    let k = cell_key(block_cell(cell, c), offsets.len() as u32) as int;
    let members = cell_members(lookup, offsets, k);
    let v = neighbor_members(lookup, offsets, cell)[i];
    let m = choose|m: int| 0 <= m < members.len() && members[m] == v;
    lemma_scan_finds_only_key(lookup, offsets, k, m);
    let j = offsets[k] + m;
    assert(lookup[j] == entry_of(cells, lookup[j].particle_index as int));
    c
}

/// The cells of a block differ from each other.
proof fn lemma_block_cells_differ(cell: GridCell, c1: int, c2: int)
    requires
        0 <= c1 < 9,
        0 <= c2 < 9,
        c1 != c2,
    ensures
        block_cell(cell, c1) != block_cell(cell, c2),
{
}

/// Every particle that the exact scan finds in the first `upto` cells of a
/// block has its cell among them.
proof fn lemma_block_resident_cell(
    s: Seq<SpatialLookupEntry>,
    offsets: Seq<u32>,
    cells: Seq<GridCell>,
    cell: GridCell,
    upto: nat,
    i: int,
) -> (c: int)
    requires
        0 <= i < block_residents(s, offsets, cells, cell, upto).len(),
    ensures
        0 <= c < upto,
        block_residents(s, offsets, cells, cell, upto)[i] < cells.len(),
        cells[block_residents(s, offsets, cells, cell, upto)[i] as int] == block_cell(cell, c),
    decreases upto,
{
    let head = block_residents(s, offsets, cells, cell, (upto - 1) as nat);
    let target = block_cell(cell, upto - 1);
    let tail = cell_residents(s, offsets, cells, target);
    if i < head.len() {
        lemma_block_resident_cell(s, offsets, cells, cell, (upto - 1) as nat, i)
    } else {
        let k = cell_key(target, offsets.len() as u32) as int;
        let j = lemma_resident_position(
            s,
            offsets[k] as int,
            offsets.len() as int,
            k,
            cells,
            target,
            i - head.len(),
        );
        upto - 1
    }
}

/// The exact scan finds every particle whose cell lies in the block.
pub proof fn lemma_block_scan_finds(
    lookup: Seq<SpatialLookupEntry>,
    offsets: Seq<u32>,
    cells: Seq<GridCell>,
    cell: GridCell,
    p: int,
    c: int,
)
    requires
        index_wf(lookup, offsets),
        index_of(lookup, cells),
        cells.len() == offsets.len(),
        0 <= p < cells.len(),
        0 <= c < 9,
        cells[p] == block_cell(cell, c),
    ensures
        block_residents(lookup, offsets, cells, cell, 9).contains(p as u32),
{
    let count = cells.len();
    let target = block_cell(cell, c);
    assert(holds_entry(lookup, count as int, entry_of(cells, p)));
    let j = choose|j: int| 0 <= j < count && #[trigger] lookup[j] == entry_of(cells, p);
    let k = key_at(lookup, j);
    assert(k < count);
    lemma_cell_start_sorted(lookup, count, j);
    lemma_resident_found(lookup, offsets[k] as int, count as int, k, cells, target, j);
    let found = cell_residents(lookup, offsets, cells, target);
    assert(found.contains(p as u32));
    lemma_residents_reach_block(lookup, offsets, cells, cell, 9, c, p as u32);
}

/// The particles found in the first `upto` cells of a block include those
/// found in each of these cells.
proof fn lemma_residents_reach_block(
    s: Seq<SpatialLookupEntry>,
    offsets: Seq<u32>,
    cells: Seq<GridCell>,
    cell: GridCell,
    upto: nat,
    c: int,
    v: u32,
)
    requires
        0 <= c < upto,
        cell_residents(s, offsets, cells, block_cell(cell, c)).contains(v),
    ensures
        block_residents(s, offsets, cells, cell, upto).contains(v),
    decreases upto,
{
    let head = block_residents(s, offsets, cells, cell, (upto - 1) as nat);
    let tail = cell_residents(s, offsets, cells, block_cell(cell, upto - 1));
    if c == upto - 1 {
        let i = choose|i: int| 0 <= i < tail.len() && tail[i] == v;
        assert((head + tail)[head.len() + i] == v);
    } else {
        lemma_residents_reach_block(s, offsets, cells, cell, (upto - 1) as nat, c, v);
        let i = choose|i: int| 0 <= i < head.len() && head[i] == v;
        assert((head + tail)[i] == v);
    }
}

/// The exact scan finds only particles whose cell lies in the block.
pub proof fn lemma_block_scan_finds_only(
    lookup: Seq<SpatialLookupEntry>,
    offsets: Seq<u32>,
    cells: Seq<GridCell>,
    cell: GridCell,
    i: int,
) -> (c: int)
    requires
        0 <= i < block_residents(lookup, offsets, cells, cell, 9).len(),
    ensures
        0 <= c < 9,
        block_residents(lookup, offsets, cells, cell, 9)[i] < cells.len(),
        cells[block_residents(lookup, offsets, cells, cell, 9)[i] as int] == block_cell(cell, c),
{
    lemma_block_resident_cell(lookup, offsets, cells, cell, 9, i)
}

/// The exact scan finds no particle twice.
pub proof fn lemma_block_scan_distinct(
    lookup: Seq<SpatialLookupEntry>,
    offsets: Seq<u32>,
    cells: Seq<GridCell>,
    cell: GridCell,
    upto: nat,
)
    requires
        distinct_particles(lookup, offsets.len() as int),
        upto <= 9,
    ensures
        block_residents(lookup, offsets, cells, cell, upto).no_duplicates(),
    decreases upto,
{
    if upto > 0 {
        let head = block_residents(lookup, offsets, cells, cell, (upto - 1) as nat);
        let target = block_cell(cell, upto - 1);
        let tail = cell_residents(lookup, offsets, cells, target);
        let k = cell_key(target, offsets.len() as u32) as int;
        lemma_block_scan_distinct(lookup, offsets, cells, cell, (upto - 1) as nat);
        if 0 <= k < offsets.len() && offsets[k] < offsets.len() {
            lemma_residents_distinct(
                lookup,
                offsets[k] as int,
                offsets.len() as int,
                k,
                cells,
                target,
            );
        }
        assert forall|i: int, j: int| 0 <= i < head.len() && 0 <= j < tail.len() implies head[i]
            != tail[j] by {
            let c = lemma_block_resident_cell(lookup, offsets, cells, cell, (upto - 1) as nat, i);
            lemma_resident_position(
                lookup,
                offsets[k] as int,
                offsets.len() as int,
                k,
                cells,
                target,
                j,
            );
            lemma_block_cells_differ(cell, c, upto - 1);
        }
        vstd::seq_lib::lemma_no_dup_in_concat(head, tail);
    }
}

/// The index of the particles holds no wrong key.
pub proof fn lemma_index_has_no_wrong_key(
    lookup: Seq<SpatialLookupEntry>,
    offsets: Seq<u32>,
    cells: Seq<GridCell>,
)
    requires
        index_wf(lookup, offsets),
        index_of(lookup, cells),
        cells.len() == offsets.len(),
    ensures
        crate::readback::wrong_keys(lookup, cells, cells.len()) == 0,
{
    lemma_padded_len(cells.len());
    assert forall|j: int| 0 <= j < cells.len() implies !crate::readback::key_is_wrong(
        #[trigger] lookup[j],
        cells,
    ) by {
        assert(lookup[j] == entry_of(cells, lookup[j].particle_index as int));
    }
    crate::readback::lemma_no_wrong_key(lookup, cells, cells.len());
}

/// The arrays of an index are a function of the cells of the particles: two
/// indexes of the same particles hold the same lookup array and the same
/// offset table.
pub proof fn lemma_index_determined(
    lookup_a: Seq<SpatialLookupEntry>,
    offsets_a: Seq<u32>,
    lookup_b: Seq<SpatialLookupEntry>,
    offsets_b: Seq<u32>,
    cells: Seq<GridCell>,
)
    requires
        index_wf(lookup_a, offsets_a),
        index_wf(lookup_b, offsets_b),
        index_of(lookup_a, cells),
        index_of(lookup_b, cells),
        offsets_a.len() == cells.len(),
        offsets_b.len() == cells.len(),
    ensures
        lookup_a == lookup_b,
        offsets_a == offsets_b,
{
}

/// The array that the binner writes has a length that the sorter takes,
/// its real entries come first, and they differ from each other.
proof fn lemma_bins_can_be_sorted(cells: Seq<GridCell>)
    requires
        cells.len() <= MAX_PARTICLES,
    ensures
        vstd::arithmetic::power2::is_pow2(binned(cells).len() as int),
        binned(cells).len() <= MAX_PARTICLES,
        binned(cells).len() == padded_len(cells.len()),
        stage_count(binned(cells).len()) == stage_count(cells.len()),
        padded_from(binned(cells), cells.len() as int),
        binned(cells).subrange(0, cells.len() as int).no_duplicates(),
{
    let count = cells.len();
    let before = binned(cells);
    lemma_padded_len(count);
    lemma_stage_count_bound(count);
    lemma_pow2_is_pow2(stage_count(count));
    lemma_stage_count_of_pow2(stage_count(count));
    assert forall|j: int| 0 <= j < count implies key_at(before, j) != SENTINEL by {
        assert(before[j] == entry_of(cells, j));
    }
    assert forall|a: int, b: int| 0 <= a < count && 0 <= b < count && a != b implies before
        .subrange(0, count as int)[a] != before.subrange(0, count as int)[b] by {
        assert(before[a] == entry_of(cells, a));
        assert(before[b] == entry_of(cells, b));
    }
}

/// The sorted array of the binner, with its offset table, is the index of
/// the particles.
proof fn lemma_sorted_bins_are_index(
    cells: Seq<GridCell>,
    lookup: Seq<SpatialLookupEntry>,
    offsets: Seq<u32>,
)
    requires
        cells.len() <= MAX_PARTICLES,
        lookup == network_result(binned(cells), stage_count(binned(cells).len())),
        lookup.len() == binned(cells).len(),
        lookup.to_multiset() == binned(cells).to_multiset(),
        sorted_by_key(lookup),
        offsets == offset_table(lookup, cells.len()),
    ensures
        index_wf(lookup, offsets),
        index_of(lookup, cells),
        offsets.len() == cells.len(),
{
    let count = cells.len();
    let before = binned(cells);
    lemma_bins_can_be_sorted(cells);
    lemma_padding_sorts_last(before, lookup, count as int);
    lemma_real_entries_stay_distinct(before, lookup, count as int);
    assert forall|j: int| 0 <= j < count implies #[trigger] lookup[j] == entry_of(
        cells,
        lookup[j].particle_index as int,
    ) && key_at(lookup, j) < count && lookup[j].particle_index < count by {
        assert(before.contains(lookup[j]));
        let i = choose|i: int| 0 <= i < before.len() && before[i] == lookup[j];
        assert(key_at(lookup, j) != SENTINEL);
        assert(before[i] == entry_of(cells, i));
    }
    assert forall|p: int| 0 <= p < count implies holds_entry(
        lookup,
        count as int,
        #[trigger] entry_of(cells, p),
    ) by {
        assert(before[p] == entry_of(cells, p));
        assert(lookup.contains(before[p]));
        let j = choose|j: int| 0 <= j < lookup.len() && lookup[j] == before[p];
        assert(key_at(lookup, j) != SENTINEL);
        assert(0 <= j < count && lookup[j] == entry_of(cells, p));
    }
    assert forall|a: int, b: int| 0 <= a < b < count implies (#[trigger] lookup[a]).particle_index
        != (#[trigger] lookup[b]).particle_index by {
        let prefix = lookup.subrange(0, count as int);
        assert(prefix[a] == lookup[a] && prefix[b] == lookup[b]);
        assert(prefix[a] != prefix[b]);
    }
}

impl SpatialIndex {
    /// The number of particles that the index holds.
    pub open spec fn count(&self) -> nat {
        self.offsets@.len()
    }

    /// The index is well formed.
    pub open spec fn wf(&self) -> bool {
        index_wf(self.lookup@, self.offsets@)
    }

    /// Binning, sorting and the offset table for the particles in `cells`.
    pub fn build(cells: &Vec<GridCell>) -> (index: SpatialIndex)
        requires
            cells@.len() <= MAX_PARTICLES,
        ensures
            index.wf(),
            index.count() == cells@.len(),
            index_of(index.lookup@, cells@),
    {
        let count: u32 = cells.len() as u32;
        let mut lookup = bin_particles_in_grid(cells);
        proof {
            lemma_bins_can_be_sorted(cells@);
        }
        sort_spatial_lookup(&mut lookup);
        let offsets = calculate_spatial_lookup_offsets(&lookup, count);
        proof {
            lemma_sorted_bins_are_index(cells@, lookup@, offsets@);
        }
        SpatialIndex { lookup, offsets }
    }

    /// The index of the next frame, in the arrays of this one: the entries
    /// of the particles are binned anew behind the padding that is already
    /// there, sorted, and the offset table is built again.
    pub fn update(&mut self, cells: &Vec<GridCell>)
        requires
            old(self).wf(),
            cells@.len() == old(self).count(),
        ensures
            final(self).wf(),
            final(self).count() == cells@.len(),
            index_of(final(self).lookup@, cells@),
    {
        let count: u32 = cells.len() as u32;
        rebin_particles_in_grid(&mut self.lookup, cells);
        proof {
            lemma_bins_can_be_sorted(cells@);
        }
        sort_spatial_lookup(&mut self.lookup);
        self.offsets = calculate_spatial_lookup_offsets(&self.lookup, count);
        proof {
            lemma_sorted_bins_are_index(cells@, self.lookup@, self.offsets@);
        }
    }

    /// The number of particles that the index holds.
    pub fn particle_count(&self) -> (count: usize)
        ensures
            count == self.count(),
    {
        self.offsets.len()
    }

    /// The exact neighbour scan around `cell`: the particles whose cells lie
    /// in the block, each once.
    pub fn block_particles(&self, cells: &Vec<GridCell>, cell: GridCell) -> (found: Vec<u32>)
        requires
            self.wf(),
        ensures
            found@ == block_residents(self.lookup@, self.offsets@, cells@, cell, 9),
            found@.no_duplicates(),
    {
        proof {
            lemma_padded_len(self.offsets@.len());
            lemma_block_scan_distinct(self.lookup@, self.offsets@, cells@, cell, 9);
        }
        block_particles(&self.lookup, &self.offsets, cells, cell)
    }

    /// The neighbour scan around `cell`.
    pub fn neighbors(&self, cell: GridCell) -> (found: Vec<u32>)
        requires
            self.wf(),
        ensures
            found@ == neighbor_members(self.lookup@, self.offsets@, cell),
    {
        proof {
            lemma_padded_len(self.offsets@.len());
        }
        neighbor_candidates(&self.lookup, &self.offsets, cell)
    }
}

} // verus!

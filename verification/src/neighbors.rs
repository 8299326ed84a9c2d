//! The neighbour scan shared by the density and the force pass: the
//! particles whose cells lie in the three by three block around a cell.

use vstd::prelude::*;
use crate::grid::{cell_key, cell_offset, GridCell};
use crate::lookup::{key_at, sorted_between, SpatialLookupEntry, SENTINEL};
use crate::offsets::{lemma_cell_start_sorted, offset_table};
use crate::power::MAX_PARTICLES;

verus! {

/// The number of entries from position `from` on, below `count`, that hold
/// the key `k` without a gap.
pub open spec fn run_len(s: Seq<SpatialLookupEntry>, from: int, count: int, k: int) -> nat
    decreases count - from,
{
    if 0 <= from < count && key_at(s, from) == k {
        1 + run_len(s, from + 1, count, k)
    } else {
        0
    }
}

/// The particles that the scan finds for the key `k`: those of the run that
/// begins where the offset table says, and none where the slot holds the
/// sentinel.
pub open spec fn cell_members(
    s: Seq<SpatialLookupEntry>,
    offsets: Seq<u32>,
    k: int,
) -> Seq<u32> {
    if 0 <= k < offsets.len() && offsets[k] < offsets.len() {
        Seq::new(
            run_len(s, offsets[k] as int, offsets.len() as int, k),
            |i: int| s[offsets[k] + i].particle_index,
        )
    } else {
        Seq::empty()
    }
}

/// Cell `c` of the block around `cell`, row by row from the lower left.
pub open spec fn block_cell(cell: GridCell, c: int) -> GridCell {
    cell_offset(cell, (c % 3 - 1) as i32, (c / 3 - 1) as i32)
}

/// The particles that the scan finds in the first `upto` cells of the block.
pub open spec fn block_members(
    s: Seq<SpatialLookupEntry>,
    offsets: Seq<u32>,
    cell: GridCell,
    upto: nat,
) -> Seq<u32>
    decreases upto,
{
    if upto == 0 {
        Seq::empty()
    } else {
        block_members(s, offsets, cell, (upto - 1) as nat) + cell_members(
            s,
            offsets,
            cell_key(block_cell(cell, upto - 1), offsets.len() as u32) as int,
        )
    }
}

/// The particles that the scan finds in the whole block.
pub open spec fn neighbor_members(
    s: Seq<SpatialLookupEntry>,
    offsets: Seq<u32>,
    cell: GridCell,
) -> Seq<u32> {
    block_members(s, offsets, cell, 9)
}

/// Every entry of a run holds the key of the run.
proof fn lemma_run_holds_key(s: Seq<SpatialLookupEntry>, from: int, count: int, k: int, i: int)
    requires
        0 <= i < run_len(s, from, count, k),
    ensures
        0 <= from,
        from + i < count,
        key_at(s, from + i) == k,
    decreases i,
{
    if i > 0 {
        lemma_run_holds_key(s, from + 1, count, k, i - 1);
    }
}

/// A stretch of equal keys lies inside the run that begins at its start.
proof fn lemma_run_covers(s: Seq<SpatialLookupEntry>, from: int, count: int, k: int, to: int)
    requires
        0 <= from <= to < count,
        forall|i: int| from <= i <= to ==> key_at(s, i) == k,
    ensures
        run_len(s, from, count, k) > to - from,
    decreases to - from,
{
    assert(key_at(s, from) == k);
    if from < to {
        lemma_run_covers(s, from + 1, count, k, to);
    }
}

/// Over a sorted array with its offset table, the scan of a key finds the
/// particle of every entry that holds the key.
pub proof fn lemma_scan_finds_entry(s: Seq<SpatialLookupEntry>, count: nat, j: int)
    requires
        count <= s.len(),
        count < SENTINEL,
        sorted_between(s, 0, count as int),
        0 <= j < count,
        key_at(s, j) < count,
    ensures
        cell_members(s, offset_table(s, count), key_at(s, j)).contains(s[j].particle_index),
{
    let k = key_at(s, j);
    let offsets = offset_table(s, count);
    let o = offsets[k] as int;
    lemma_cell_start_sorted(s, count, j);
    lemma_run_covers(s, o, count as int, k, j);
    let members = cell_members(s, offsets, k);
    assert(members[j - o] == s[j].particle_index);
}

/// The scan of a key finds only particles of entries that hold the key.
pub proof fn lemma_scan_finds_only_key(
    s: Seq<SpatialLookupEntry>,
    offsets: Seq<u32>,
    k: int,
    i: int,
)
    requires
        0 <= i < cell_members(s, offsets, k).len(),
    ensures
        0 <= k < offsets.len(),
        0 <= offsets[k] + i < offsets.len(),
        key_at(s, offsets[k] + i) == k,
        cell_members(s, offsets, k)[i] == s[offsets[k] + i].particle_index,
{
    lemma_run_holds_key(s, offsets[k] as int, offsets.len() as int, k, i);
}

/// The neighbour scan: for each cell of the block around `cell`, the
/// particles of the run that the offset table names for the key of that cell.
pub fn neighbor_candidates(
    lookup: &Vec<SpatialLookupEntry>,
    offsets: &Vec<u32>,
    cell: GridCell,
) -> (found: Vec<u32>)
    requires
        offsets@.len() <= lookup@.len(),
        offsets@.len() <= MAX_PARTICLES,
    ensures
        found@ == neighbor_members(lookup@, offsets@, cell),
{
    let count: u32 = offsets.len() as u32;
    let mut found: Vec<u32> = Vec::new();
    if count == 0 {
        assert(neighbor_members(lookup@, offsets@, cell) =~= Seq::<u32>::empty()) by {
            reveal_with_fuel(block_members, 10);
        }
        return found;
    }
    let mut c: u32 = 0;
    while c < 9
        invariant
            c <= 9,
            0 < count == offsets@.len() <= lookup@.len(),
            found@ == block_members(lookup@, offsets@, cell, c as nat),
        decreases 9 - c,
    {
        let dx: i32 = (c % 3) as i32 - 1;
        let dy: i32 = (c / 3) as i32 - 1;
        let key: u32 = cell.offset(dx, dy).key(count);
        let start: u32 = offsets[key as usize];
        let ghost head = found@;
        if start < count {
            let mut j: u32 = start;
            while j < count && lookup[j as usize].cell_key == key
                invariant
                    start <= j <= count == offsets@.len() <= lookup@.len(),
                    found@.len() == head.len() + (j - start),
                    forall|q: int| 0 <= q < head.len() ==> found@[q] == head[q],
                    forall|q: int|
                        head.len() <= q < found@.len() ==> #[trigger] found@[q] == lookup@[start
                            + (q - head.len())].particle_index,
                    run_len(lookup@, start as int, count as int, key as int) == (j - start)
                        + run_len(lookup@, j as int, count as int, key as int),
                decreases count - j,
            {
                found.push(lookup[j as usize].particle_index);
                j = j + 1;
            }
        }
        assert(found@ =~= head + cell_members(lookup@, offsets@, key as int));
        c = c + 1;
    }
    found
}

/// The particles of the run of key `k` from position `from` on whose own
/// cell is `target`: the scan without the particles that only share the key.
pub open spec fn run_residents(
    s: Seq<SpatialLookupEntry>,
    from: int,
    count: int,
    k: int,
    cells: Seq<GridCell>,
    target: GridCell,
) -> Seq<u32>
    decreases count - from,
{
    if 0 <= from < count && key_at(s, from) == k {
        let p = s[from].particle_index;
        let rest = run_residents(s, from + 1, count, k, cells, target);
        if p < cells.len() && cells[p as int] == target {
            seq![p] + rest
        } else {
            rest
        }
    } else {
        Seq::empty()
    }
}

/// The particles that the scan finds in the cell `target` itself.
pub open spec fn cell_residents(
    s: Seq<SpatialLookupEntry>,
    offsets: Seq<u32>,
    cells: Seq<GridCell>,
    target: GridCell,
) -> Seq<u32> {
    let k = cell_key(target, offsets.len() as u32) as int;
    if 0 <= k < offsets.len() && offsets[k] < offsets.len() {
        run_residents(s, offsets[k] as int, offsets.len() as int, k, cells, target)
    } else {
        Seq::empty()
    }
}

/// The particles whose cells are among the first `upto` cells of the block.
pub open spec fn block_residents(
    s: Seq<SpatialLookupEntry>,
    offsets: Seq<u32>,
    cells: Seq<GridCell>,
    cell: GridCell,
    upto: nat,
) -> Seq<u32>
    decreases upto,
{
    if upto == 0 {
        Seq::empty()
    } else {
        block_residents(s, offsets, cells, cell, (upto - 1) as nat) + cell_residents(
            s,
            offsets,
            cells,
            block_cell(cell, upto - 1),
        )
    }
}

/// Every resident of a run stands at a position of the run, and its cell is
/// the target.
pub proof fn lemma_resident_position(
    s: Seq<SpatialLookupEntry>,
    from: int,
    count: int,
    k: int,
    cells: Seq<GridCell>,
    target: GridCell,
    i: int,
) -> (j: int)
    requires
        0 <= i < run_residents(s, from, count, k, cells, target).len(),
    ensures
        0 <= from <= j < count,
        key_at(s, j) == k,
        s[j].particle_index == run_residents(s, from, count, k, cells, target)[i],
        s[j].particle_index < cells.len(),
        cells[s[j].particle_index as int] == target,
    decreases count - from,
{
    let p = s[from].particle_index;
    if p < cells.len() && cells[p as int] == target {
        if i == 0 {
            from
        } else {
            lemma_resident_position(s, from + 1, count, k, cells, target, i - 1)
        }
    } else {
        lemma_resident_position(s, from + 1, count, k, cells, target, i)
    }
}

/// A particle of the target cell that stands in a stretch of the key is
/// among the residents of the run that begins at the start of the stretch.
pub proof fn lemma_resident_found(
    s: Seq<SpatialLookupEntry>,
    from: int,
    count: int,
    k: int,
    cells: Seq<GridCell>,
    target: GridCell,
    j: int,
)
    requires
        0 <= from <= j < count,
        forall|i: int| from <= i <= j ==> key_at(s, i) == k,
        s[j].particle_index < cells.len(),
        cells[s[j].particle_index as int] == target,
    ensures
        run_residents(s, from, count, k, cells, target).contains(s[j].particle_index),
    decreases j - from,
{
    assert(key_at(s, from) == k);
    let here = run_residents(s, from, count, k, cells, target);
    let rest = run_residents(s, from + 1, count, k, cells, target);
    let p = s[from].particle_index;
    if from == j {
        assert(here[0] == p);
    } else {
        lemma_resident_found(s, from + 1, count, k, cells, target, j);
        let i = choose|i: int| 0 <= i < rest.len() && rest[i] == s[j].particle_index;
        if p < cells.len() && cells[p as int] == target {
            assert(here[i + 1] == rest[i]);
        }
    }
}

/// Where no two entries name the same particle, no resident of a run is
/// found twice.
pub proof fn lemma_residents_distinct(
    s: Seq<SpatialLookupEntry>,
    from: int,
    count: int,
    k: int,
    cells: Seq<GridCell>,
    target: GridCell,
)
    requires
        crate::lookup::distinct_particles(s, count),
    ensures
        run_residents(s, from, count, k, cells, target).no_duplicates(),
    decreases count - from,
{
    if 0 <= from < count && key_at(s, from) == k {
        let here = run_residents(s, from, count, k, cells, target);
        let rest = run_residents(s, from + 1, count, k, cells, target);
        let p = s[from].particle_index;
        lemma_residents_distinct(s, from + 1, count, k, cells, target);
        if p < cells.len() && cells[p as int] == target {
            assert forall|a: int, b: int|
                0 <= a < here.len() && 0 <= b < here.len() && a != b implies here[a]
                != here[b] by {
                if a == 0 {
                    let j = lemma_resident_position(s, from + 1, count, k, cells, target, b - 1);
                    assert(s[from].particle_index != s[j].particle_index);
                } else if b == 0 {
                    let j = lemma_resident_position(s, from + 1, count, k, cells, target, a - 1);
                    assert(s[from].particle_index != s[j].particle_index);
                } else {
                    assert(rest[a - 1] != rest[b - 1]);
                }
            }
        }
    }
}

/// The exact neighbour scan: of the particles that the scan finds for each
/// cell of the block, those whose own cell is that cell.
pub fn block_particles(
    lookup: &Vec<SpatialLookupEntry>,
    offsets: &Vec<u32>,
    cells: &Vec<GridCell>,
    cell: GridCell,
) -> (found: Vec<u32>)
    requires
        offsets@.len() <= lookup@.len(),
        offsets@.len() <= MAX_PARTICLES,
    ensures
        found@ == block_residents(lookup@, offsets@, cells@, cell, 9),
{
    let count: u32 = offsets.len() as u32;
    let mut found: Vec<u32> = Vec::new();
    if count == 0 {
        assert(block_residents(lookup@, offsets@, cells@, cell, 9) =~= Seq::<u32>::empty()) by {
            reveal_with_fuel(block_residents, 10);
        }
        return found;
    }
    let mut c: u32 = 0;
    while c < 9
        invariant
            c <= 9,
            0 < count == offsets@.len() <= lookup@.len(),
            found@ == block_residents(lookup@, offsets@, cells@, cell, c as nat),
        decreases 9 - c,
    {
        let dx: i32 = (c % 3) as i32 - 1;
        let dy: i32 = (c / 3) as i32 - 1;
        let target = cell.offset(dx, dy);
        let key: u32 = target.key(count);
        let start: u32 = offsets[key as usize];
        let ghost head = found@;
        if start < count {
            let mut j: u32 = start;
            while j < count && lookup[j as usize].cell_key == key
                invariant
                    start <= j <= count == offsets@.len() <= lookup@.len(),
                    found@ + run_residents(
                        lookup@,
                        j as int,
                        count as int,
                        key as int,
                        cells@,
                        target,
                    ) =~= head + run_residents(
                        lookup@,
                        start as int,
                        count as int,
                        key as int,
                        cells@,
                        target,
                    ),
                decreases count - j,
            {
                let p: u32 = lookup[j as usize].particle_index;
                let ghost rest = run_residents(
                    lookup@,
                    j + 1,
                    count as int,
                    key as int,
                    cells@,
                    target,
                );
                let ghost collected = found@;
                if (p as usize) < cells.len() && cells[p as usize] == target {
                    found.push(p);
                    assert(found@ + rest =~= collected + (seq![p] + rest));
                }
                j = j + 1;
            }
            assert(found@ =~= head + cell_residents(lookup@, offsets@, cells@, target));
        } else {
            assert(found@ =~= head + cell_residents(lookup@, offsets@, cells@, target));
        }
        c = c + 1;
    }
    found
}

} // verus!

use sph_pipeline::grid::{
    bin_particles_in_grid, rebin_particles_in_grid, GridCell, HASH_PRIME_X, HASH_PRIME_Y,
};
use sph_pipeline::index::SpatialIndex;
use sph_pipeline::lookup::{SpatialLookupEntry, SENTINEL};
use sph_pipeline::neighbors::{block_particles, neighbor_candidates};
use sph_pipeline::offsets::calculate_spatial_lookup_offsets;

fn cell(x: i32, y: i32) -> GridCell {
    GridCell { x, y }
}

fn entry(cell_key: u32, particle_index: u32) -> SpatialLookupEntry {
    SpatialLookupEntry { cell_key, particle_index }
}

#[test]
fn hash_of_known_cells() {
    assert_eq!(cell(0, 0).hash(), 0);
    assert_eq!(cell(1, 0).hash(), HASH_PRIME_X);
    assert_eq!(cell(0, 1).hash(), HASH_PRIME_Y);
    assert_eq!(cell(-1, -1).hash(), 88192194);
    assert_eq!(cell(3, -2).hash(), 4035290069);
    assert_eq!(cell(12, 7).hash(), 1019326469);
    assert_eq!(cell(i32::MAX, i32::MIN).hash(), 4221111203);
}

#[test]
fn key_is_hash_modulo_table_size() {
    assert_eq!(cell(1, 0).key(5), 3);
    assert_eq!(cell(-1, -1).key(5), 4);
    assert_eq!(cell(12, 7).key(50000), 26469);
    assert_eq!(cell(3, -2).key(1), 0);
    for x in -3..4 {
        for y in -3..4 {
            assert_eq!(cell(x, y).key(17), cell(x, y).hash() % 17);
        }
    }
}

#[test]
fn offset_wraps_at_the_ends_of_the_range() {
    assert_eq!(cell(4, -7).offset(-1, 1), cell(3, -6));
    assert_eq!(cell(4, -7).offset(0, 0), cell(4, -7));
    assert_eq!(cell(i32::MAX, i32::MIN).offset(1, -1), cell(i32::MIN, i32::MAX));
}

#[test]
fn binner_writes_one_entry_per_particle_and_pads() {
    let cells = vec![cell(1, 0), cell(0, 0), cell(-1, -1), cell(1, 0), cell(12, 7)];
    let lookup = bin_particles_in_grid(&cells);
    assert_eq!(lookup.len(), 8);
    assert_eq!(
        lookup,
        vec![
            entry(3, 0),
            entry(0, 1),
            entry(4, 2),
            entry(3, 3),
            entry(4, 4),
            SpatialLookupEntry::padding(),
            SpatialLookupEntry::padding(),
            SpatialLookupEntry::padding(),
        ]
    );
}

#[test]
fn binner_of_no_particle_is_one_padding_entry() {
    let lookup = bin_particles_in_grid(&Vec::new());
    assert_eq!(lookup, vec![SpatialLookupEntry::padding()]);
}

#[test]
fn binner_of_a_power_of_two_adds_no_padding() {
    let cells = vec![cell(0, 0), cell(5, 5), cell(-4, 2), cell(9, -9)];
    let lookup = bin_particles_in_grid(&cells);
    assert_eq!(lookup.len(), 4);
    for (p, e) in lookup.iter().enumerate() {
        assert_eq!(e.particle_index, p as u32);
        assert_eq!(e.cell_key, cells[p].hash() % 4);
    }
}

#[test]
fn offsets_name_the_first_entry_of_each_key() {
    let lookup = vec![
        entry(0, 4),
        entry(0, 1),
        entry(2, 0),
        entry(2, 5),
        entry(2, 2),
        entry(5, 3),
        SpatialLookupEntry::padding(),
        SpatialLookupEntry::padding(),
    ];
    let offsets = calculate_spatial_lookup_offsets(&lookup, 6);
    assert_eq!(offsets, vec![0, SENTINEL, 2, SENTINEL, SENTINEL, 5]);
}

#[test]
fn offsets_pass_over_keys_without_a_slot() {
    let lookup = vec![entry(1, 0), entry(7, 1), entry(SENTINEL, 2), entry(0, 3)];
    let offsets = calculate_spatial_lookup_offsets(&lookup, 3);
    assert_eq!(offsets, vec![SENTINEL, 0, SENTINEL]);
}

#[test]
fn offsets_of_a_split_key_name_its_last_run() {
    let lookup = vec![entry(1, 0), entry(0, 1), entry(1, 2), entry(1, 3)];
    let offsets = calculate_spatial_lookup_offsets(&lookup, 4);
    assert_eq!(offsets, vec![1, 2, SENTINEL, SENTINEL]);
}

#[test]
fn offsets_of_no_particle_are_empty() {
    let lookup = vec![SpatialLookupEntry::padding()];
    assert_eq!(calculate_spatial_lookup_offsets(&lookup, 0), Vec::<u32>::new());
}

#[test]
fn offset_points_at_a_run_start_for_every_present_key() {
    let cells: Vec<GridCell> = (0..40).map(|i| cell(i % 7 - 3, (i * 5) % 11 - 5)).collect();
    let index = SpatialIndex::build(&cells);
    let count = cells.len();
    for j in 0..count {
        let k = index.lookup[j].cell_key as usize;
        let o = index.offsets[k] as usize;
        assert!(o <= j);
        assert_eq!(index.lookup[o].cell_key as usize, k);
        assert!(o == 0 || index.lookup[o - 1].cell_key as usize != k);
    }
}

#[test]
fn index_is_sorted_and_holds_every_particle_once() {
    let cells: Vec<GridCell> = (0..37).map(|i| cell((i * 3) % 5, (i * 7) % 4 - 2)).collect();
    let index = SpatialIndex::build(&cells);
    assert_eq!(index.particle_count(), 37);
    assert_eq!(index.lookup.len(), 64);
    assert_eq!(index.offsets.len(), 37);
    for j in 1..37 {
        assert!(index.lookup[j - 1].cell_key <= index.lookup[j].cell_key);
    }
    for j in 0..37 {
        let e = index.lookup[j];
        assert_eq!(e.cell_key, cells[e.particle_index as usize].key(37));
    }
    for j in 37..64 {
        assert_eq!(index.lookup[j], SpatialLookupEntry::padding());
    }
    let mut particles: Vec<u32> = index.lookup[..37].iter().map(|e| e.particle_index).collect();
    particles.sort();
    assert_eq!(particles, (0..37).collect::<Vec<u32>>());
}

#[test]
fn scan_finds_the_particles_of_the_block() {
    let cells: Vec<GridCell> =
        (0..60).map(|i| cell((i * 13) % 9 - 4, (i * 29) % 7 - 3)).collect();
    let index = SpatialIndex::build(&cells);
    let count = cells.len() as u32;
    for centre in [cell(0, 0), cell(-4, 3), cell(2, -1), cell(100, 100)] {
        let found = index.neighbors(centre);
        let mut block_keys = Vec::new();
        for dy in -1..2 {
            for dx in -1..2 {
                block_keys.push(centre.offset(dx, dy).key(count));
            }
        }
        for p in 0..count {
            let key = cells[p as usize].key(count);
            let copies = block_keys.iter().filter(|k| **k == key).count();
            let times = found.iter().filter(|q| **q == p).count();
            assert_eq!(times, copies);
        }
    }
}

#[test]
fn scan_finds_a_particle_in_a_nearby_cell() {
    let cells = vec![cell(10, 10), cell(11, 9), cell(40, 40)];
    let index = SpatialIndex::build(&cells);
    let found = index.neighbors(cell(10, 10));
    assert!(found.contains(&0));
    assert!(found.contains(&1));
}

#[test]
fn scan_of_a_lone_particle_finds_only_itself() {
    let cells = vec![cell(3, 4)];
    let index = SpatialIndex::build(&cells);
    assert_eq!(index.lookup, vec![entry(0, 0)]);
    assert_eq!(index.offsets, vec![0]);
    assert_eq!(index.neighbors(cell(3, 4)), vec![0; 9]);
}

#[test]
fn scan_over_no_particle_finds_nothing() {
    let index = SpatialIndex::build(&Vec::new());
    assert_eq!(index.particle_count(), 0);
    assert_eq!(index.neighbors(cell(0, 0)), Vec::<u32>::new());
}

#[test]
fn scan_reads_the_run_that_the_table_names() {
    let lookup = vec![entry(0, 2), entry(1, 0), entry(1, 3), entry(3, 1)];
    let offsets = vec![0, 1, SENTINEL, 3];
    let found = neighbor_candidates(&lookup, &offsets, cell(0, 0));
    let mut expected = Vec::new();
    for dy in -1..2 {
        for dx in -1..2 {
            match cell(0, 0).offset(dx, dy).key(4) {
                0 => expected.push(2),
                1 => expected.extend([0, 3]),
                3 => expected.push(1),
                _ => {}
            }
        }
    }
    assert_eq!(found, expected);
}

#[test]
fn two_builds_give_the_same_index() {
    let cells: Vec<GridCell> = (0..100).map(|i| cell((i * 17) % 23 - 11, (i * 5) % 19 - 9)).collect();
    let first = SpatialIndex::build(&cells);
    let second = SpatialIndex::build(&cells);
    assert_eq!(first.lookup, second.lookup);
    assert_eq!(first.offsets, second.offsets);
}

#[test]
fn exact_scan_finds_the_particles_of_the_block_once() {
    let cells: Vec<GridCell> =
        (0..200).map(|i| cell((i * 13) % 9 - 4, (i * 29) % 7 - 3)).collect();
    let index = SpatialIndex::build(&cells);
    for centre in [cell(0, 0), cell(-4, 3), cell(2, -1), cell(4, -3), cell(100, 100)] {
        let mut found = index.block_particles(&cells, centre);
        let mut expected: Vec<u32> = Vec::new();
        for (p, c) in cells.iter().enumerate() {
            if (c.x - centre.x).abs() <= 1 && (c.y - centre.y).abs() <= 1 {
                expected.push(p as u32);
            }
        }
        found.sort();
        assert_eq!(found, expected);
    }
}

#[test]
fn exact_scan_leaves_out_particles_that_only_share_a_key() {
    // with two slots, far cells share keys with the cells of the block
    let cells = vec![cell(0, 0), cell(50, 50)];
    let index = SpatialIndex::build(&cells);
    assert_eq!(index.block_particles(&cells, cell(0, 0)), vec![0]);
    assert_eq!(index.block_particles(&cells, cell(49, 51)), vec![1]);
    assert_eq!(index.block_particles(&cells, cell(20, 20)), Vec::<u32>::new());
    assert!(index.neighbors(cell(20, 20)).len() > 0);
}

#[test]
fn exact_scan_wraps_at_the_ends_of_the_range() {
    let cells = vec![cell(i32::MIN, 0), cell(i32::MAX, 1), cell(0, 0)];
    let index = SpatialIndex::build(&cells);
    let mut found = index.block_particles(&cells, cell(i32::MAX, 0));
    found.sort();
    assert_eq!(found, vec![0, 1]);
}

#[test]
fn exact_scan_follows_the_rows_of_the_block() {
    let cells = vec![cell(1, 1), cell(-1, -1), cell(0, 0), cell(1, -1)];
    let lookup = SpatialIndex::build(&cells);
    let found = block_particles(&lookup.lookup, &lookup.offsets, &cells, cell(0, 0));
    assert_eq!(found, vec![1, 3, 2, 0]);
}

fn cell_of(position: [f32; 2], radius: f32) -> GridCell {
    cell((position[0] / radius).floor() as i32, (position[1] / radius).floor() as i32)
}

#[test]
fn lone_particle_has_no_neighbour_but_itself() {
    let radius = 9.0f32;
    let cells = vec![cell_of([123.5, -47.25], radius)];
    assert_eq!(cells[0], cell(13, -6));
    let index = SpatialIndex::build(&cells);
    assert_eq!(index.block_particles(&cells, cells[0]), vec![0]);
    // its density is its own kernel value at distance zero
    let norm = 10.0 / (std::f32::consts::PI * radius.powf(5.0));
    let density: f32 = index
        .block_particles(&cells, cells[0])
        .iter()
        .map(|_| (radius - 0.0) * (radius - 0.0) * norm)
        .sum();
    assert_eq!(density, radius * radius * norm);
}

#[test]
fn four_corners_of_a_small_square_find_each_other() {
    let radius = 9.0f32;
    let side = radius / 2.0;
    for origin in [[0.0f32, 0.0], [7.0, 7.0], [-2.0, 16.0], [-30.0, -30.0]] {
        let positions = [
            origin,
            [origin[0] + side, origin[1]],
            [origin[0], origin[1] + side],
            [origin[0] + side, origin[1] + side],
        ];
        let cells: Vec<GridCell> = positions.iter().map(|p| cell_of(*p, radius)).collect();
        let index = SpatialIndex::build(&cells);
        for p in 0..4 {
            let mut found = index.block_particles(&cells, cells[p]);
            found.sort();
            assert_eq!(found, vec![0, 1, 2, 3]);
        }
    }
}

#[test]
fn later_frames_bin_in_front_of_the_padding() {
    let first: Vec<GridCell> = (0..5).map(|i| cell(i, -i)).collect();
    let second: Vec<GridCell> = (0..5).map(|i| cell(2 * i - 3, i * i)).collect();
    let mut lookup = SpatialIndex::build(&first).lookup;
    rebin_particles_in_grid(&mut lookup, &second);
    assert_eq!(lookup, bin_particles_in_grid(&second));
    assert!(lookup[5..].iter().all(|e| *e == SpatialLookupEntry::padding()));
}

#[test]
fn updated_index_is_the_index_of_the_new_cells() {
    let first: Vec<GridCell> = (0..90).map(|i| cell((i * 7) % 13 - 6, (i * 3) % 11 - 5)).collect();
    let second: Vec<GridCell> = first.iter().map(|c| c.offset(1, -1)).collect();
    let mut index = SpatialIndex::build(&first);
    index.update(&second);
    let fresh = SpatialIndex::build(&second);
    assert_eq!(index.lookup, fresh.lookup);
    assert_eq!(index.offsets, fresh.offsets);
    assert_eq!(index.particle_count(), 90);
}

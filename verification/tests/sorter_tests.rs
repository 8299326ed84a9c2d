use sph_pipeline::lookup::{SpatialLookupEntry, SENTINEL};
use sph_pipeline::power::{padded_length, sort_stages};
use sph_pipeline::sort_table::{sorting_params_bytes, sorting_params_table, total_sort_iterations};
use sph_pipeline::sorter::{sort_particles, sort_spatial_lookup, SortingParams};

fn entry(cell_key: u32, particle_index: u32) -> SpatialLookupEntry {
    SpatialLookupEntry { cell_key, particle_index }
}

fn keys(entries: &[SpatialLookupEntry]) -> Vec<u32> {
    entries.iter().map(|e| e.cell_key).collect()
}

fn pseudo_random(seed: &mut u64) -> u32 {
    *seed = seed.wrapping_mul(6364136223846793005).wrapping_add(1442695040888963407);
    (*seed >> 33) as u32
}

#[test]
fn padded_length_is_next_power_of_two() {
    assert_eq!(padded_length(0), 1);
    assert_eq!(padded_length(1), 1);
    assert_eq!(padded_length(2), 2);
    assert_eq!(padded_length(3), 4);
    assert_eq!(padded_length(5), 8);
    assert_eq!(padded_length(50000), 65536);
    assert_eq!(padded_length(0x8000_0000), 0x8000_0000);
}

#[test]
fn sort_stages_is_log_of_padded_length() {
    assert_eq!(sort_stages(0), 0);
    assert_eq!(sort_stages(1), 0);
    assert_eq!(sort_stages(2), 1);
    assert_eq!(sort_stages(4), 2);
    assert_eq!(sort_stages(5), 3);
    assert_eq!(sort_stages(50000), 16);
    assert_eq!(sort_stages(0x8000_0000), 31);
}

#[test]
fn total_iterations_is_triangular() {
    assert_eq!(total_sort_iterations(1), 0);
    assert_eq!(total_sort_iterations(2), 1);
    assert_eq!(total_sort_iterations(4), 3);
    assert_eq!(total_sort_iterations(8), 6);
    assert_eq!(total_sort_iterations(50000), 136);
    assert_eq!(total_sort_iterations(0x8000_0000), 496);
}

#[test]
fn step_parameters_of_a_stage() {
    assert_eq!(
        SortingParams::for_step(8, 2, 0),
        SortingParams { n: 8, group_width: 4, group_height: 7, step_index: 0 }
    );
    assert_eq!(
        SortingParams::for_step(8, 2, 1),
        SortingParams { n: 8, group_width: 2, group_height: 3, step_index: 1 }
    );
    assert_eq!(
        SortingParams::for_step(8, 2, 2),
        SortingParams { n: 8, group_width: 1, group_height: 1, step_index: 2 }
    );
    assert_eq!(
        SortingParams::for_step(0x8000_0000, 30, 0),
        SortingParams {
            n: 0x8000_0000,
            group_width: 0x4000_0000,
            group_height: 0x7fff_ffff,
            step_index: 0
        }
    );
}

#[test]
fn mirror_step_pairs_positions_across_the_block() {
    let params = SortingParams::for_step(16, 2, 0);
    assert_eq!(params.thread_pair(0), (0, 7));
    assert_eq!(params.thread_pair(1), (1, 6));
    assert_eq!(params.thread_pair(3), (3, 4));
    assert_eq!(params.thread_pair(4), (8, 15));
    assert_eq!(params.thread_pair(7), (11, 12));
}

#[test]
fn later_steps_pair_positions_at_the_group_width() {
    let params = SortingParams::for_step(16, 2, 1);
    assert_eq!(params.thread_pair(0), (0, 2));
    assert_eq!(params.thread_pair(1), (1, 3));
    assert_eq!(params.thread_pair(2), (4, 6));
    assert_eq!(params.thread_pair(7), (13, 15));
    let last = SortingParams::for_step(16, 2, 2);
    assert_eq!(last.thread_pair(0), (0, 1));
    assert_eq!(last.thread_pair(5), (10, 11));
}

#[test]
fn every_position_belongs_to_one_pair() {
    for stage in 0..4u32 {
        for step in 0..=stage {
            let params = SortingParams::for_step(16, stage, step);
            let mut seen = vec![0u32; 16];
            for i in 0..8u32 {
                let (l, r) = params.thread_pair(i);
                assert!(l < r && r < 16);
                seen[l as usize] += 1;
                seen[r as usize] += 1;
            }
            assert_eq!(seen, vec![1u32; 16]);
        }
    }
}

#[test]
fn table_for_four_particles() {
    let table = sorting_params_table(4);
    assert_eq!(
        table,
        vec![
            SortingParams { n: 4, group_width: 1, group_height: 1, step_index: 0 },
            SortingParams { n: 4, group_width: 2, group_height: 3, step_index: 0 },
            SortingParams { n: 4, group_width: 1, group_height: 1, step_index: 1 },
        ]
    );
}

#[test]
fn table_pads_the_particle_count() {
    let table = sorting_params_table(5);
    assert_eq!(table.len(), 6);
    assert!(table.iter().all(|p| p.n == 8));
    assert_eq!(table[3], SortingParams { n: 8, group_width: 4, group_height: 7, step_index: 0 });
    assert_eq!(sorting_params_table(1).len(), 0);
    assert_eq!(sorting_params_table(50000).len(), 136);
}

#[test]
fn table_bytes_hold_each_record_in_its_slot() {
    let table = sorting_params_table(50000);
    let bytes = sorting_params_bytes(50000);
    assert_eq!(bytes.len(), 136 * 256);
    for (it, params) in table.iter().enumerate() {
        let slot = &bytes[it * 256..(it + 1) * 256];
        let word = |k: usize| u32::from_ne_bytes([slot[4 * k], slot[4 * k + 1], slot[4 * k + 2], slot[4 * k + 3]]);
        assert_eq!(word(0), params.n);
        assert_eq!(word(1), params.group_width);
        assert_eq!(word(2), params.group_height);
        assert_eq!(word(3), params.step_index);
        assert!(slot[16..].iter().all(|b| *b == 0));
    }
}

#[test]
fn table_bytes_for_four_particles() {
    let bytes = sorting_params_bytes(4);
    assert_eq!(bytes.len(), 3 * 256);
    let second: Vec<u8> = [4u32, 2, 3, 0].iter().flat_map(|w| w.to_ne_bytes()).collect();
    assert_eq!(&bytes[256..272], &second[..]);
    assert_eq!(sorting_params_bytes(1).len(), 0);
}

#[test]
fn one_step_orders_each_pair() {
    let mut entries = vec![entry(9, 0), entry(3, 1), entry(5, 2), entry(7, 3)];
    let params = SortingParams::for_step(4, 0, 0);
    sort_particles(&mut entries, &params);
    assert_eq!(entries, vec![entry(3, 1), entry(9, 0), entry(5, 2), entry(7, 3)]);
    let mirror = SortingParams::for_step(4, 1, 0);
    sort_particles(&mut entries, &mirror);
    assert_eq!(entries, vec![entry(3, 1), entry(5, 2), entry(9, 0), entry(7, 3)]);
    let last = SortingParams::for_step(4, 1, 1);
    sort_particles(&mut entries, &last);
    assert_eq!(entries, vec![entry(3, 1), entry(5, 2), entry(7, 3), entry(9, 0)]);
}

#[test]
fn equal_keys_do_not_change_places() {
    let mut entries = vec![entry(4, 0), entry(4, 1)];
    sort_particles(&mut entries, &SortingParams::for_step(2, 0, 0));
    assert_eq!(entries, vec![entry(4, 0), entry(4, 1)]);
}

#[test]
fn sorter_sorts_eight_entries() {
    let mut entries: Vec<SpatialLookupEntry> =
        [6u32, 1, 7, 3, 0, 5, 2, 4].iter().enumerate().map(|(i, k)| entry(*k, i as u32)).collect();
    sort_spatial_lookup(&mut entries);
    assert_eq!(keys(&entries), vec![0, 1, 2, 3, 4, 5, 6, 7]);
    let order: Vec<u32> = entries.iter().map(|e| e.particle_index).collect();
    assert_eq!(order, vec![4, 1, 6, 3, 7, 5, 0, 2]);
}

#[test]
fn sorter_sorts_descending_input() {
    let mut entries: Vec<SpatialLookupEntry> = (0..16u32).map(|i| entry(15 - i, i)).collect();
    sort_spatial_lookup(&mut entries);
    let expected: Vec<SpatialLookupEntry> = (0..16u32).map(|k| entry(k, 15 - k)).collect();
    assert_eq!(entries, expected);
}

#[test]
fn sorter_keeps_short_arrays() {
    let mut one = vec![entry(3, 0)];
    sort_spatial_lookup(&mut one);
    assert_eq!(one, vec![entry(3, 0)]);
    let mut two = vec![entry(8, 0), entry(2, 1)];
    sort_spatial_lookup(&mut two);
    assert_eq!(two, vec![entry(2, 1), entry(8, 0)]);
}

#[test]
fn padding_sorts_behind_every_real_entry() {
    let mut entries = vec![
        entry(2, 0),
        entry(0, 1),
        entry(2, 2),
        entry(1, 3),
        entry(4, 4),
        SpatialLookupEntry::padding(),
        SpatialLookupEntry::padding(),
        SpatialLookupEntry::padding(),
    ];
    sort_spatial_lookup(&mut entries);
    assert_eq!(keys(&entries), vec![0, 1, 2, 2, 4, SENTINEL, SENTINEL, SENTINEL]);
    assert!(entries[5..].iter().all(|e| *e == SpatialLookupEntry::padding()));
    let mut real: Vec<u32> = entries[..5].iter().map(|e| e.particle_index).collect();
    real.sort();
    assert_eq!(real, vec![0, 1, 2, 3, 4]);
}

#[test]
fn sorter_agrees_with_a_reference_sort() {
    let mut seed = 7u64;
    for log in 0..11u32 {
        let n = 1u32 << log;
        let mut entries: Vec<SpatialLookupEntry> =
            (0..n).map(|i| entry(pseudo_random(&mut seed) % 97, i)).collect();
        let mut expected_keys = keys(&entries);
        expected_keys.sort();
        let mut expected_entries = entries.clone();
        expected_entries.sort_by_key(|e| (e.cell_key, e.particle_index));
        sort_spatial_lookup(&mut entries);
        assert_eq!(keys(&entries), expected_keys);
        let mut got = entries.clone();
        got.sort_by_key(|e| (e.cell_key, e.particle_index));
        assert_eq!(got, expected_entries);
    }
}

#[test]
fn sorter_runs_the_steps_of_the_table() {
    let mut seed = 11u64;
    let mut by_table: Vec<SpatialLookupEntry> =
        (0..64u32).map(|i| entry(pseudo_random(&mut seed) % 13, i)).collect();
    let mut whole = by_table.clone();
    for params in sorting_params_table(64) {
        sort_particles(&mut by_table, &params);
    }
    sort_spatial_lookup(&mut whole);
    assert_eq!(by_table, whole);
}

#[test]
fn two_runs_give_the_same_array() {
    let mut seed = 3u64;
    let input: Vec<SpatialLookupEntry> =
        (0..256u32).map(|i| entry(pseudo_random(&mut seed) % 31, i)).collect();
    let mut first = input.clone();
    let mut second = input.clone();
    sort_spatial_lookup(&mut first);
    sort_spatial_lookup(&mut second);
    assert_eq!(first, second);
}

use sph_pipeline::buffers::{
    buffer_sizes, check_population, lookup_readback_size, words_readback_size, BindingKind,
    BufferRole, BufferSizes, SetupError, BINDING_COUNT,
};
use sph_pipeline::schedule::{frame_dispatches, workgroup_count, Dispatch, Pass, PipelineState};

#[test]
fn entry_points_have_their_names() {
    assert_eq!(Pass::BinParticlesInGrid.entry_point(), "bin_particles_in_grid");
    assert_eq!(Pass::SortParticles.entry_point(), "sort_particles");
    assert_eq!(
        Pass::CalculateSpatialLookupOffsets.entry_point(),
        "calculate_spatial_lookup_offsets"
    );
    assert_eq!(Pass::PreSimulationStep.entry_point(), "pre_simulation_step");
    assert_eq!(Pass::SimulationStep.entry_point(), "simulation_step");
}

#[test]
fn workgroups_round_up() {
    assert_eq!(workgroup_count(0), 0);
    assert_eq!(workgroup_count(1), 1);
    assert_eq!(workgroup_count(64), 1);
    assert_eq!(workgroup_count(65), 2);
    assert_eq!(workgroup_count(50000), 782);
    assert_eq!(workgroup_count(u32::MAX), 67108864);
}

#[test]
fn states_follow_each_other() {
    let stages = 2;
    let mut state = PipelineState::Idle;
    let mut seen = Vec::new();
    for _ in 0..8 {
        state = state.next(stages);
        seen.push(state);
    }
    assert_eq!(
        seen,
        vec![
            PipelineState::Binning,
            PipelineState::Sorting { stage: 0, step: 0 },
            PipelineState::Sorting { stage: 1, step: 0 },
            PipelineState::Sorting { stage: 1, step: 1 },
            PipelineState::OffsetBuild,
            PipelineState::Predicting,
            PipelineState::Integrating,
            PipelineState::Idle,
        ]
    );
}

#[test]
fn binning_of_one_particle_goes_straight_to_the_offsets() {
    assert_eq!(PipelineState::Binning.next(0), PipelineState::OffsetBuild);
}

#[test]
fn last_step_of_the_last_stage_leaves_sorting() {
    assert_eq!(
        PipelineState::Sorting { stage: 15, step: 15 }.next(16),
        PipelineState::OffsetBuild
    );
    assert_eq!(
        PipelineState::Sorting { stage: 14, step: 14 }.next(16),
        PipelineState::Sorting { stage: 15, step: 0 }
    );
    assert_eq!(
        PipelineState::Sorting { stage: 15, step: 3 }.next(16),
        PipelineState::Sorting { stage: 15, step: 4 }
    );
}

#[test]
fn idle_submits_nothing() {
    assert_eq!(PipelineState::Idle.dispatch(50000), None);
}

#[test]
fn sorting_state_submits_its_step() {
    assert_eq!(
        PipelineState::Sorting { stage: 3, step: 2 }.dispatch(50000),
        Some(Dispatch { pass: Pass::SortParticles, workgroups: 512, dynamic_offset: 8 * 256 })
    );
    assert_eq!(
        PipelineState::Sorting { stage: 15, step: 15 }.dispatch(50000),
        Some(Dispatch { pass: Pass::SortParticles, workgroups: 512, dynamic_offset: 135 * 256 })
    );
}

#[test]
fn frame_of_fifty_thousand_particles() {
    let plan = frame_dispatches(50000);
    assert_eq!(plan.len(), 140);
    assert_eq!(
        plan[0],
        Dispatch { pass: Pass::BinParticlesInGrid, workgroups: 782, dynamic_offset: 0 }
    );
    for it in 0..136u32 {
        assert_eq!(
            plan[1 + it as usize],
            Dispatch { pass: Pass::SortParticles, workgroups: 512, dynamic_offset: it * 256 }
        );
    }
    assert_eq!(
        plan[137],
        Dispatch { pass: Pass::CalculateSpatialLookupOffsets, workgroups: 782, dynamic_offset: 0 }
    );
    assert_eq!(
        plan[138],
        Dispatch { pass: Pass::PreSimulationStep, workgroups: 782, dynamic_offset: 0 }
    );
    assert_eq!(
        plan[139],
        Dispatch { pass: Pass::SimulationStep, workgroups: 782, dynamic_offset: 0 }
    );
}

#[test]
fn frame_of_one_particle_has_no_sort_step() {
    let plan = frame_dispatches(1);
    let passes: Vec<Pass> = plan.iter().map(|d| d.pass).collect();
    assert_eq!(
        passes,
        vec![
            Pass::BinParticlesInGrid,
            Pass::CalculateSpatialLookupOffsets,
            Pass::PreSimulationStep,
            Pass::SimulationStep,
        ]
    );
    assert!(plan.iter().all(|d| d.workgroups == 1 && d.dynamic_offset == 0));
}

#[test]
fn frame_of_three_particles_sorts_four_entries() {
    let plan = frame_dispatches(3);
    assert_eq!(plan.len(), 7);
    assert_eq!(plan[1], Dispatch { pass: Pass::SortParticles, workgroups: 1, dynamic_offset: 0 });
    assert_eq!(plan[3], Dispatch { pass: Pass::SortParticles, workgroups: 1, dynamic_offset: 512 });
}

#[test]
fn frame_follows_the_states() {
    let count = 1000;
    let plan = frame_dispatches(count);
    let mut state = PipelineState::Idle.next(10);
    let mut walked = Vec::new();
    while let Some(d) = state.dispatch(count) {
        walked.push(d);
        state = state.next(10);
    }
    assert_eq!(state, PipelineState::Idle);
    assert_eq!(walked, plan);
}

#[test]
fn sizes_for_fifty_thousand_particles() {
    assert_eq!(
        buffer_sizes(50000),
        Ok(BufferSizes {
            particles: 1_600_000,
            config: 144,
            spatial_lookup: 524_288,
            spatial_lookup_offsets: 200_000,
            particle_densities: 200_000,
            sorting_params: 34_816,
        })
    );
}

#[test]
fn sizes_for_one_particle() {
    assert_eq!(
        buffer_sizes(1),
        Ok(BufferSizes {
            particles: 32,
            config: 144,
            spatial_lookup: 8,
            spatial_lookup_offsets: 4,
            particle_densities: 4,
            sorting_params: 256,
        })
    );
}

#[test]
fn sizes_for_the_largest_population() {
    assert_eq!(
        buffer_sizes(0x8000_0000),
        Ok(BufferSizes {
            particles: 68_719_476_736,
            config: 144,
            spatial_lookup: 17_179_869_184,
            spatial_lookup_offsets: 8_589_934_592,
            particle_densities: 8_589_934_592,
            sorting_params: 126_976,
        })
    );
}

#[test]
fn no_particle_is_refused() {
    assert_eq!(buffer_sizes(0), Err(SetupError::NoParticles));
}

#[test]
fn too_many_particles_are_refused() {
    assert_eq!(buffer_sizes(0x8000_0001), Err(SetupError::TooManyParticles));
    assert_eq!(buffer_sizes(u32::MAX), Err(SetupError::TooManyParticles));
}

#[test]
fn readback_sizes() {
    assert_eq!(lookup_readback_size(50000), 400_000);
    assert_eq!(words_readback_size(50000), 200_000);
    assert_eq!(lookup_readback_size(u32::MAX), 34_359_738_360);
}

#[test]
fn every_binding_has_its_buffer() {
    let roles: Vec<BufferRole> = (0..BINDING_COUNT).filter_map(BufferRole::from_binding).collect();
    assert_eq!(
        roles,
        vec![
            BufferRole::Particles,
            BufferRole::Config,
            BufferRole::SortingParams,
            BufferRole::SpatialLookup,
            BufferRole::SpatialLookupOffsets,
        ]
    );
    for (binding, role) in roles.iter().enumerate() {
        assert_eq!(role.binding(), binding as u32);
    }
    assert_eq!(BINDING_COUNT, 5);
    assert_eq!(BufferRole::from_binding(5), None);
    assert_eq!(BufferRole::from_binding(u32::MAX), None);
}

#[test]
fn only_the_table_of_step_parameters_is_bound_by_record() {
    assert_eq!(BufferRole::Particles.kind(), BindingKind::Storage);
    assert_eq!(BufferRole::Config.kind(), BindingKind::Uniform);
    assert_eq!(BufferRole::SortingParams.kind(), BindingKind::DynamicUniform);
    assert_eq!(BufferRole::SpatialLookup.kind(), BindingKind::Storage);
    assert_eq!(BufferRole::SpatialLookupOffsets.kind(), BindingKind::Storage);
}

#[test]
fn bindings_cover_whole_buffers_and_one_record() {
    let sizes = buffer_sizes(50000).unwrap();
    assert_eq!(BufferRole::Particles.bound_size(&sizes), 1_600_000);
    assert_eq!(BufferRole::Config.bound_size(&sizes), 144);
    assert_eq!(BufferRole::SortingParams.bound_size(&sizes), 16);
    assert_eq!(BufferRole::SpatialLookup.bound_size(&sizes), 524_288);
    assert_eq!(BufferRole::SpatialLookupOffsets.bound_size(&sizes), 200_000);
    assert_eq!(BufferRole::SortingParams.buffer_size(&sizes), 34_816);
}

#[test]
fn every_binding_ends_inside_its_buffer() {
    for count in [1u32, 2, 3, 64, 50000, 0x8000_0000] {
        let sizes = buffer_sizes(count).unwrap();
        for role in (0..BINDING_COUNT).filter_map(BufferRole::from_binding) {
            assert!(role.bound_size(&sizes) > 0);
            assert!(role.bound_size(&sizes) <= role.buffer_size(&sizes));
        }
    }
}

#[test]
fn one_particle_has_a_table_of_one_empty_slot() {
    let sizes = buffer_sizes(1).unwrap();
    assert_eq!(sizes.sorting_params, 256);
    assert_eq!(sph_pipeline::sort_table::sorting_params_bytes(1).len(), 0);
    assert_eq!(sph_pipeline::sort_table::sorting_params_table(1).len(), 0);
    assert_eq!(frame_dispatches(1).len(), 4);
}

#[test]
fn population_is_checked_against_the_uploaded_particles() {
    assert_eq!(check_population(50000, 50000), buffer_sizes(50000));
    assert_eq!(check_population(1, 1), buffer_sizes(1));
    assert_eq!(check_population(50000, 49999), Err(SetupError::CountMismatch));
    assert_eq!(check_population(50000, 50001), Err(SetupError::CountMismatch));
    assert_eq!(check_population(3, 0), Err(SetupError::CountMismatch));
    assert_eq!(check_population(0, 0), Err(SetupError::NoParticles));
    assert_eq!(check_population(0, 7), Err(SetupError::NoParticles));
    assert_eq!(check_population(0x8000_0001, 5), Err(SetupError::TooManyParticles));
}

#[test]
fn every_sort_offset_leaves_room_for_its_record() {
    for count in [1u32, 2, 3, 100, 50000] {
        let sizes = buffer_sizes(count).unwrap();
        for dispatch in frame_dispatches(count) {
            assert_eq!(dispatch.dynamic_offset % 256, 0);
            assert!(dispatch.dynamic_offset as u64 + 16 <= sizes.sorting_params);
            if dispatch.pass != Pass::SortParticles {
                assert_eq!(dispatch.dynamic_offset, 0);
            }
        }
    }
}

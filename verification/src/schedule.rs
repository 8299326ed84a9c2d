//! The orchestrator: the states that a frame walks through, and the
//! dispatch that each state submits.

use vstd::prelude::*;
use crate::buffers::sizes_for;
use crate::power::{lemma_stage_count_bound, padded_len, padded_length, sort_stages, stage_count, MAX_PARTICLES};
use crate::sort_table::{iteration_index, lemma_triangle_closed_form, lemma_triangle_grows, triangle};

verus! {

/// Threads of one workgroup of every compute program.
pub const WORKGROUP_SIZE: u32 = 64;

/// The compute programs of the pipeline, in the order of a frame.
#[derive(Clone, Copy, Debug, PartialEq, Eq, Structural)]
pub enum Pass {
    BinParticlesInGrid,
    SortParticles,
    CalculateSpatialLookupOffsets,
    PreSimulationStep,
    SimulationStep,
}

/// One submission: the program, the number of workgroups, and the offset of
/// its record in the table of step parameters.
#[derive(Clone, Copy, Debug, PartialEq, Eq, Structural)]
pub struct Dispatch {
    pub pass: Pass,
    pub workgroups: u32,
    pub dynamic_offset: u32,
}

/// Where the orchestrator stands inside a frame.
#[derive(Clone, Copy, Debug, PartialEq, Eq, Structural)]
pub enum PipelineState {
    Idle,
    Binning,
    Sorting { stage: u32, step: u32 },
    OffsetBuild,
    Predicting,
    Integrating,
}

/// The name of the entry point of a program.
pub open spec fn entry_point_name(pass: Pass) -> Seq<char> {
    match pass {
        Pass::BinParticlesInGrid => "bin_particles_in_grid"@,
        Pass::SortParticles => "sort_particles"@,
        Pass::CalculateSpatialLookupOffsets => "calculate_spatial_lookup_offsets"@,
        Pass::PreSimulationStep => "pre_simulation_step"@,
        Pass::SimulationStep => "simulation_step"@,
    }
}

/// Workgroups that cover `threads` threads.
pub open spec fn workgroups_for(threads: nat) -> nat {
    (threads + 63) / 64
}

/// The dispatch of a pass that runs one thread per particle.
pub open spec fn particle_dispatch(pass: Pass, count: nat) -> Dispatch {
    Dispatch { pass, workgroups: workgroups_for(count) as u32, dynamic_offset: 0 }
}

/// The dispatch of step `it` of the sorter: one thread per pair.
pub open spec fn sort_dispatch(count: nat, it: int) -> Dispatch {
    Dispatch {
        pass: Pass::SortParticles,
        workgroups: workgroups_for(padded_len(count) / 2) as u32,
        dynamic_offset: (256 * it) as u32,
    }
}

/// The dispatches of one frame, in order: binning, every step of the sorter,
/// the offset table, the predictor and the integrator.
pub open spec fn frame_plan(count: nat) -> Seq<Dispatch> {
    seq![particle_dispatch(Pass::BinParticlesInGrid, count)] + Seq::new(
        triangle(stage_count(count)),
        |it: int| sort_dispatch(count, it),
    ) + seq![
        particle_dispatch(Pass::CalculateSpatialLookupOffsets, count),
        particle_dispatch(Pass::PreSimulationStep, count),
        particle_dispatch(Pass::SimulationStep, count),
    ]
}

impl Pass {
    /// The name of the entry point of the program.
    pub fn entry_point(&self) -> (name: &'static str)
        ensures
            name@ == entry_point_name(*self),
    {
        match self {
            Pass::BinParticlesInGrid => "bin_particles_in_grid",
            Pass::SortParticles => "sort_particles",
            Pass::CalculateSpatialLookupOffsets => "calculate_spatial_lookup_offsets",
            Pass::PreSimulationStep => "pre_simulation_step",
            Pass::SimulationStep => "simulation_step",
        }
    }
}

/// The number of workgroups that cover `threads` threads.
pub fn workgroup_count(threads: u32) -> (groups: u32)
    ensures
        groups == workgroups_for(threads as nat),
{
    ((threads as u64 + (WORKGROUP_SIZE as u64 - 1)) / (WORKGROUP_SIZE as u64)) as u32
}

impl PipelineState {
    /// A sorting state names a step of the network of `stages` stages.
    pub open spec fn valid(self, stages: nat) -> bool {
        match self {
            PipelineState::Sorting { stage, step } => step <= stage < stages,
            _ => true,
        }
    }

    /// The state that follows.
    pub open spec fn successor(self, stages: nat) -> PipelineState {
        match self {
            PipelineState::Idle => PipelineState::Binning,
            PipelineState::Binning => if stages == 0 {
                PipelineState::OffsetBuild
            } else {
                PipelineState::Sorting { stage: 0, step: 0 }
            },
            PipelineState::Sorting { stage, step } => if step < stage {
                PipelineState::Sorting { stage, step: (step + 1) as u32 }
            } else if stage + 1 < stages {
                PipelineState::Sorting { stage: (stage + 1) as u32, step: 0 }
            } else {
                PipelineState::OffsetBuild
            },
            PipelineState::OffsetBuild => PipelineState::Predicting,
            PipelineState::Predicting => PipelineState::Integrating,
            PipelineState::Integrating => PipelineState::Idle,
        }
    }

    /// The number of dispatches of the frame that come before the state's own.
    pub open spec fn position(self, stages: nat) -> nat {
        match self {
            PipelineState::Binning => 0,
            PipelineState::Sorting { stage, step } => 1 + triangle(stage as nat) + step as nat,
            PipelineState::OffsetBuild => 1 + triangle(stages),
            PipelineState::Predicting => 2 + triangle(stages),
            PipelineState::Integrating => 3 + triangle(stages),
            PipelineState::Idle => 4 + triangle(stages),
        }
    }

    /// The dispatch that the state submits; an idle pipeline submits none.
    pub open spec fn dispatch_of(self, count: nat) -> Option<Dispatch> {
        match self {
            PipelineState::Idle => None,
            PipelineState::Binning => Some(particle_dispatch(Pass::BinParticlesInGrid, count)),
            PipelineState::Sorting { stage, step } => Some(
                sort_dispatch(count, iteration_index(stage as nat, step as nat)),
            ),
            PipelineState::OffsetBuild => Some(
                particle_dispatch(Pass::CalculateSpatialLookupOffsets, count),
            ),
            PipelineState::Predicting => Some(particle_dispatch(Pass::PreSimulationStep, count)),
            PipelineState::Integrating => Some(particle_dispatch(Pass::SimulationStep, count)),
        }
    }

    /// The state that follows, for a network of `stages` stages.
    pub fn next(&self, stages: u32) -> (s: PipelineState)
        ensures
            s == self.successor(stages as nat),
            self.valid(stages as nat) ==> s.valid(stages as nat),
    {
        match *self {
            PipelineState::Idle => PipelineState::Binning,
            PipelineState::Binning => {
                if stages == 0 {
                    PipelineState::OffsetBuild
                } else {
                    PipelineState::Sorting { stage: 0, step: 0 }
                }
            },
            PipelineState::Sorting { stage, step } => {
                if step < stage {
                    PipelineState::Sorting { stage, step: step + 1 }
                } else if stage < u32::MAX && stage + 1 < stages {
                    PipelineState::Sorting { stage: stage + 1, step: 0 }
                } else {
                    PipelineState::OffsetBuild
                }
            },
            PipelineState::OffsetBuild => PipelineState::Predicting,
            PipelineState::Predicting => PipelineState::Integrating,
            PipelineState::Integrating => PipelineState::Idle,
        }
    }

    /// The dispatch that the state submits for `particle_count` particles.
    pub fn dispatch(&self, particle_count: u32) -> (d: Option<Dispatch>)
        requires
            particle_count <= MAX_PARTICLES,
            self.valid(stage_count(particle_count as nat)),
        ensures
            d == self.dispatch_of(particle_count as nat),
    {
        match *self {
            PipelineState::Idle => None,
            PipelineState::Binning => Some(
                Dispatch {
                    pass: Pass::BinParticlesInGrid,
                    workgroups: workgroup_count(particle_count),
                    dynamic_offset: 0,
                },
            ),
            PipelineState::Sorting { stage, step } => {
                let num_pairs: u32 = padded_length(particle_count) / 2;
                proof {
                    lemma_stage_count_bound(particle_count as nat);
                    lemma_triangle_closed_form(stage as nat);
                    assert(stage * (stage + 1) <= 30 * 31) by (nonlinear_arith)
                        requires
                            stage <= 30,
                    ;
                }
                let iteration: u32 = stage * (stage + 1) / 2 + step;
                Some(
                    Dispatch {
                        pass: Pass::SortParticles,
                        workgroups: workgroup_count(num_pairs),
                        dynamic_offset: iteration * 256,
                    },
                )
            },
            PipelineState::OffsetBuild => Some(
                Dispatch {
                    pass: Pass::CalculateSpatialLookupOffsets,
                    workgroups: workgroup_count(particle_count),
                    dynamic_offset: 0,
                },
            ),
            PipelineState::Predicting => Some(
                Dispatch {
                    pass: Pass::PreSimulationStep,
                    workgroups: workgroup_count(particle_count),
                    dynamic_offset: 0,
                },
            ),
            PipelineState::Integrating => Some(
                Dispatch {
                    pass: Pass::SimulationStep,
                    workgroups: workgroup_count(particle_count),
                    dynamic_offset: 0,
                },
            ),
        }
    }
}

/// A state that is not idle submits the dispatch of the frame plan at its
/// position, and its successor stands one position later.
pub proof fn lemma_state_follows_plan(state: PipelineState, count: nat)
    requires
        count <= MAX_PARTICLES,
        state.valid(stage_count(count)),
        state != PipelineState::Idle,
    ensures
        state.position(stage_count(count)) < frame_plan(count).len(),
        frame_plan(count).len() == 4 + triangle(stage_count(count)),
        state.dispatch_of(count) == Some(
            frame_plan(count)[state.position(stage_count(count)) as int],
        ),
        state.successor(stage_count(count)).position(stage_count(count)) == state.position(
            stage_count(count),
        ) + 1,
{
    let stages = stage_count(count);
    lemma_stage_count_bound(count);
    match state {
        PipelineState::Sorting { stage, step } => {
            lemma_triangle_grows((stage + 1) as nat, stages);
            assert(triangle((stage + 1) as nat) == triangle(stage as nat) + stage + 1);
        },
        _ => {},
    }
}

/// Every dynamic offset of a frame keeps the alignment of the table and
/// addresses a whole record inside the buffer of the table; only a sort step
/// has an offset other than zero.
pub proof fn lemma_offsets_address_records(count: nat, i: int)
    requires
        count <= MAX_PARTICLES,
        0 <= i < frame_plan(count).len(),
    ensures
        frame_plan(count)[i].dynamic_offset % 256 == 0,
        frame_plan(count)[i].pass != Pass::SortParticles ==> frame_plan(count)[i].dynamic_offset
            == 0,
        frame_plan(count)[i].dynamic_offset + 16 <= sizes_for(count).sorting_params,
{
    let stages = stage_count(count);
    lemma_stage_count_bound(count);
    lemma_triangle_closed_form(stages);
    assert(stages * (stages + 1) <= 31 * 32) by (nonlinear_arith)
        requires
            stages <= 31,
    ;
}

/// The dispatches of one frame, in order: the orchestrator leaves the idle
/// state, submits the dispatch of every state it passes, and is idle again.
pub fn frame_dispatches(particle_count: u32) -> (plan: Vec<Dispatch>)
    requires
        particle_count <= MAX_PARTICLES,
    ensures
        plan@ == frame_plan(particle_count as nat),
{
    let stages: u32 = sort_stages(particle_count);
    let ghost count = particle_count as nat;
    let mut plan: Vec<Dispatch> = Vec::new();
    let mut state = PipelineState::Idle.next(stages);
    loop
        invariant_except_break
            particle_count <= MAX_PARTICLES,
            count == particle_count,
            stages == stage_count(count),
            state.valid(stages as nat),
            state.position(stages as nat) <= frame_plan(count).len(),
            frame_plan(count).len() == 4 + triangle(stages as nat),
            plan@ == frame_plan(count).subrange(0, state.position(stages as nat) as int),
        ensures
            plan@ == frame_plan(count),
        decreases 4 + triangle(stages as nat) - state.position(stages as nat),
    {
        match state.dispatch(particle_count) {
            Some(d) => {
                proof {
                    lemma_state_follows_plan(state, count);
                }
                plan.push(d);
                state = state.next(stages);
                assert(plan@ =~= frame_plan(count).subrange(
                    0,
                    state.position(stages as nat) as int,
                ));
            },
            None => {
                assert(plan@ =~= frame_plan(count));
                break ;
            },
        }
    }
    plan
}

} // verus!

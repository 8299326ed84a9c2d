//! Sizes of the device buffers that one population of particles needs, and
//! the check that the population can be set up at all.

use vstd::prelude::*;
use crate::power::{lemma_padded_len, padded_len, padded_length, stage_count, MAX_PARTICLES};
use crate::sort_table::{total_sort_iterations, triangle};

verus! {

/// Bytes of one particle record: position, velocity and colour.
pub const PARTICLE_STRIDE: u64 = 32;

/// Bytes of the configuration block.
pub const CONFIG_BLOCK_SIZE: u64 = 144;

/// Bytes of one entry of the lookup array.
pub const LOOKUP_ENTRY_SIZE: u64 = 8;

/// Bytes of one slot of the offset table, and of one density.
pub const WORD_SIZE: u64 = 4;

/// Bytes of one slot of the table of step parameters.
pub const SORTING_PARAMS_STRIDE: u64 = 256;

/// Why a population cannot be set up.
#[derive(Clone, Copy, Debug, PartialEq, Eq, Structural)]
pub enum SetupError {
    /// No particle: every buffer would be empty.
    NoParticles,
    /// More particles than a lookup array with 32-bit positions can pad.
    TooManyParticles,
    /// The particle array that is uploaded does not hold as many particles
    /// as the configuration counts.
    CountMismatch,
}

/// Sizes in bytes of the buffers of the pipeline.
#[derive(Clone, Copy, Debug, PartialEq, Eq, Structural)]
pub struct BufferSizes {
    pub particles: u64,
    pub config: u64,
    pub spatial_lookup: u64,
    pub spatial_lookup_offsets: u64,
    pub particle_densities: u64,
    pub sorting_params: u64,
}

/// The buffers of bind group 0, which the render and the compute programs
/// share. The densities have a buffer of their own that no program is bound
/// to through this group.
#[derive(Clone, Copy, Debug, PartialEq, Eq, Structural)]
pub enum BufferRole {
    Particles,
    Config,
    SortingParams,
    SpatialLookup,
    SpatialLookupOffsets,
}

/// How a program sees a buffer.
#[derive(Clone, Copy, Debug, PartialEq, Eq, Structural)]
pub enum BindingKind {
    /// Read and written by the programs.
    Storage,
    /// Read only, the whole block at once.
    Uniform,
    /// Read only, one record at the offset that the dispatch gives.
    DynamicUniform,
}

/// Number of buffers in bind group 0.
pub const BINDING_COUNT: u32 = 5;

/// The slots of the table of step parameters: one per step of the network,
/// and one where the network has no step, so that the binding of a record
/// always has a record to cover.
pub open spec fn table_slots(count: nat) -> nat {
    if triangle(stage_count(count)) == 0 {
        1
    } else {
        triangle(stage_count(count))
    }
}

/// The sizes for `count` particles.
pub open spec fn sizes_for(count: nat) -> BufferSizes {
    BufferSizes {
        particles: (32 * count) as u64,
        config: 144,
        spatial_lookup: (8 * padded_len(count)) as u64,
        spatial_lookup_offsets: (4 * count) as u64,
        particle_densities: (4 * count) as u64,
        sorting_params: (256 * table_slots(count)) as u64,
    }
}

/// Every binding covers at least one byte and ends inside its buffer.
pub open spec fn windows_fit(sizes: BufferSizes) -> bool {
    forall|role: BufferRole|
        0 < #[trigger] role.bound_size_of(sizes) <= role.buffer_size_of(sizes)
}

/// What the set-up answers for `count` particles.
pub open spec fn sizes_outcome(count: u32) -> Result<BufferSizes, SetupError> {
    if count == 0 {
        Err(SetupError::NoParticles)
    } else if count > MAX_PARTICLES {
        Err(SetupError::TooManyParticles)
    } else {
        Ok(sizes_for(count as nat))
    }
}

/// What the set-up answers for `count` particles and an uploaded array of
/// `uploaded` particles.
pub open spec fn population_outcome(count: u32, uploaded: nat) -> Result<BufferSizes, SetupError> {
    if count == 0 {
        Err(SetupError::NoParticles)
    } else if count > MAX_PARTICLES {
        Err(SetupError::TooManyParticles)
    } else if uploaded != count {
        Err(SetupError::CountMismatch)
    } else {
        Ok(sizes_for(count as nat))
    }
}

/// The sizes of the buffers for `particle_count` particles, or the reason why
/// there are none. Every buffer holds at least one byte, and every binding
/// ends inside its buffer.
pub fn buffer_sizes(particle_count: u32) -> (r: Result<BufferSizes, SetupError>)
    ensures
        r == sizes_outcome(particle_count),
        r matches Ok(sizes) ==> {
            &&& windows_fit(sizes)
            &&& sizes.spatial_lookup >= 8 * particle_count
            &&& sizes.particle_densities > 0
            &&& sizes.sorting_params >= 256
        },
{
    if particle_count == 0 {
        return Err(SetupError::NoParticles);
    }
    if particle_count > MAX_PARTICLES {
        return Err(SetupError::TooManyParticles);
    }
    let n: u32 = padded_length(particle_count);
    let iterations: u32 = total_sort_iterations(particle_count);
    let slots: u32 = if iterations == 0 {
        1
    } else {
        iterations
    };
    proof {
        lemma_padded_len(particle_count as nat);
    }
    let count: u64 = particle_count as u64;
    Ok(
        BufferSizes {
            particles: PARTICLE_STRIDE * count,
            config: CONFIG_BLOCK_SIZE,
            spatial_lookup: LOOKUP_ENTRY_SIZE * (n as u64),
            spatial_lookup_offsets: WORD_SIZE * count,
            particle_densities: WORD_SIZE * count,
            sorting_params: SORTING_PARAMS_STRIDE * (slots as u64),
        },
    )
}

/// The set-up check: the sizes of the buffers, where the configuration
/// counts at least one particle, no more than the lookup array can pad, and
/// exactly as many as the uploaded particle array holds.
pub fn check_population(particle_count: u32, uploaded: usize) -> (r: Result<
    BufferSizes,
    SetupError,
>)
    ensures
        r == population_outcome(particle_count, uploaded as nat),
        r matches Ok(sizes) ==> windows_fit(sizes),
{
    match buffer_sizes(particle_count) {
        Ok(sizes) => {
            if uploaded != particle_count as usize {
                Err(SetupError::CountMismatch)
            } else {
                Ok(sizes)
            }
        },
        Err(error) => Err(error),
    }
}

/// Bytes that a readback of the first `particle_count` entries of the lookup
/// array copies.
pub fn lookup_readback_size(particle_count: u32) -> (size: u64)
    ensures
        size == 8 * particle_count,
{
    (particle_count as u64) * LOOKUP_ENTRY_SIZE
}

/// Bytes that a readback of `particle_count` words copies.
pub fn words_readback_size(particle_count: u32) -> (size: u64)
    ensures
        size == 4 * particle_count,
{
    (particle_count as u64) * WORD_SIZE
}

impl BufferRole {
    /// The binding number of the buffer.
    pub open spec fn binding_of(self) -> u32 {
        match self {
            BufferRole::Particles => 0,
            BufferRole::Config => 1,
            BufferRole::SortingParams => 2,
            BufferRole::SpatialLookup => 3,
            BufferRole::SpatialLookupOffsets => 4,
        }
    }

    /// How the programs see the buffer.
    pub open spec fn kind_of(self) -> BindingKind {
        match self {
            BufferRole::Config => BindingKind::Uniform,
            BufferRole::SortingParams => BindingKind::DynamicUniform,
            _ => BindingKind::Storage,
        }
    }

    /// The bytes of the whole buffer.
    pub open spec fn buffer_size_of(self, sizes: BufferSizes) -> u64 {
        match self {
            BufferRole::Particles => sizes.particles,
            BufferRole::Config => sizes.config,
            BufferRole::SortingParams => sizes.sorting_params,
            BufferRole::SpatialLookup => sizes.spatial_lookup,
            BufferRole::SpatialLookupOffsets => sizes.spatial_lookup_offsets,
        }
    }

    /// The bytes of the buffer that a binding covers: one record of the
    /// table of step parameters, and the whole of every other buffer.
    pub open spec fn bound_size_of(self, sizes: BufferSizes) -> u64 {
        match self {
            BufferRole::SortingParams => 16,
            _ => self.buffer_size_of(sizes),
        }
    }

    /// The buffer with the binding number `binding`.
    pub fn from_binding(binding: u32) -> (role: Option<BufferRole>)
        ensures
            role is Some <==> binding < BINDING_COUNT,
            role matches Some(r) ==> r.binding_of() == binding,
    {
        match binding {
            0 => Some(BufferRole::Particles),
            1 => Some(BufferRole::Config),
            2 => Some(BufferRole::SortingParams),
            3 => Some(BufferRole::SpatialLookup),
            4 => Some(BufferRole::SpatialLookupOffsets),
            _ => None,
        }
    }

    /// The binding number of the buffer.
    pub fn binding(&self) -> (binding: u32)
        ensures
            binding == self.binding_of(),
            binding < BINDING_COUNT,
    {
        match self {
            BufferRole::Particles => 0,
            BufferRole::Config => 1,
            BufferRole::SortingParams => 2,
            BufferRole::SpatialLookup => 3,
            BufferRole::SpatialLookupOffsets => 4,
        }
    }

    /// How the programs see the buffer.
    pub fn kind(&self) -> (kind: BindingKind)
        ensures
            kind == self.kind_of(),
    {
        match self {
            BufferRole::Config => BindingKind::Uniform,
            BufferRole::SortingParams => BindingKind::DynamicUniform,
            _ => BindingKind::Storage,
        }
    }

    /// The bytes of the whole buffer.
    pub fn buffer_size(&self, sizes: &BufferSizes) -> (size: u64)
        ensures
            size == self.buffer_size_of(*sizes),
    {
        match self {
            BufferRole::Particles => sizes.particles,
            BufferRole::Config => sizes.config,
            BufferRole::SortingParams => sizes.sorting_params,
            BufferRole::SpatialLookup => sizes.spatial_lookup,
            BufferRole::SpatialLookupOffsets => sizes.spatial_lookup_offsets,
        }
    }

    /// The bytes of the buffer that a binding covers.
    pub fn bound_size(&self, sizes: &BufferSizes) -> (size: u64)
        ensures
            size == self.bound_size_of(*sizes),
    {
        match self {
            BufferRole::SortingParams => 16,
            _ => self.buffer_size(sizes),
        }
    }
}

/// Two buffers never share a binding number.
pub proof fn lemma_bindings_differ(a: BufferRole, b: BufferRole)
    requires
        a != b,
    ensures
        a.binding_of() != b.binding_of(),
{
}

} // verus!

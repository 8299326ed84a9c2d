//! Host-side model of a particle fluid pipeline: grid keys, the sorting
//! network over the spatial lookup array, cell offsets and the per-frame
//! dispatch schedule.

pub mod buffers;
pub mod grid;
pub mod index;
pub mod lookup;
pub mod neighbors;
pub mod network;
pub mod offsets;
pub mod power;
pub mod readback;
pub mod schedule;
pub mod sort_table;
pub mod sorter;
pub mod wire;

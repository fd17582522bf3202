//! Random plane partitions, seen as lozenge tilings, under optional periodic
//! boundary conditions.
//!
//! The engine, [`PeriodicLozengeTiling`], holds a stack of boxes in the
//! corner of a room as a sparse field of column heights, together with the
//! places where a box can be put and the boxes that can be taken away. Its
//! state is modelled by [`configuration::Configuration`]; the modules
//! `lattice` and `stack` define the geometry, `invariants`, `laws` and
//! `bounds` prove what holds of every state, and `voxels` lists what can be
//! seen.

pub mod bounds;
pub mod box_map;
pub mod configuration;
pub mod invariants;
pub mod lattice;
pub mod laws;
pub mod stack;
pub mod tiling;
pub mod vector2;
pub mod vector3;
pub mod vector3_set;
pub mod voxels;

pub use box_map::BoxMap;
pub use tiling::{DrawDistance, LozengeTilingPeriods, PeriodicLozengeTiling};
pub use vector2::Vector2;
pub use vector3::Vector3;
pub use vector3_set::Vector3Set;
pub use voxels::VoxelKind;

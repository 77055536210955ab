//! Core of an interactive 3D level editor: a planar geometry kernel that
//! decides whether a drawn polygon is a legal building footprint, a
//! half-space convex-solid kernel, and a transactional sparse voxel world
//! with undo, symmetry mirroring and per-column render offsets.
//!
//! All coordinates are integer grid coordinates; world coordinates are grid
//! coordinates times a fixed voxel-size scale. Geometric predicates are
//! computed with exact integer and rational arithmetic, so every tolerance
//! in the contracts is exact rather than approximate.

pub mod building;
pub mod csg;
pub mod editor_state;
pub mod geometry;
pub mod math;
pub mod store;
pub mod voxels;

#![allow(non_camel_case_types)]
//! A deterministic n-body simulation engine.
//!
//! The engine advances the state (position, velocity) of N point masses
//! under pairwise gravitational attraction, one fixed timestep at a time:
//! a Force Phase fills the pairwise `ForceBuffer` (exactly over all
//! pairs, or through the Barnes-Hut octree), then a Position Phase
//! integrates every body. The `WorkPartitioner` splits both phases over
//! workers with proven coverage and disjointness, so the partitioned
//! protocol computes exactly what the sequential reference does.
//!
//! All physical quantities (masses, positions, velocities, forces) are
//! held in signed fixed-point micro-units: a scalar `s` stands for the
//! real number `s / 1_000_000`. Every operation is exact integer
//! arithmetic, so each function's result is pinned down by its contract.

pub mod engine;
pub mod forces;
pub mod octree;
pub mod partition;
pub mod physics;

pub use engine::Coordinator;
pub use engine::Msg;
pub use engine::Phase;
pub use engine::sequential_loop;
pub use engine::tick;
pub use forces::ForceBuffer;
pub use octree::Corner;
pub use octree::Octree_member;
pub use octree::create_octree_sequential;
pub use partition::Assigned_work;
pub use partition::make_assignments;
pub use physics::Body;
pub use physics::Vec3;
pub use physics::gravitational_force;

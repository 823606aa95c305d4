//! Deterministic terrain core for a chunked, procedurally generated world:
//! a seeded permutation table driving gradient-noise lookups, strided
//! height-field slicing with halo rows for seamless chunk edges, a
//! level-of-detail mesher, an immutable chunk store, and a radius-based
//! streaming scheduler.
pub mod heightfield;
pub mod input;
pub mod items;
pub mod mesh;
pub mod noise;
pub mod scheduler;
pub mod store;

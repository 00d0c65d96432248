//! Gameplay core for a 2D arcade puzzle in which the player shatters a tree
//! of particles: each struck particle decomposes into its children until the
//! level's particle population reaches zero and the level ends.
//!
//! The crate models the collision classifier, the recursive particle
//! decomposition engine, the invincibility timer, the level progression state
//! machine, the time-scale controller and the level data model with its
//! textual file format. Rendering, audio, input capture and the rigid-body
//! physics simulation are external collaborators and are not modelled here;
//! positions, velocities and radii are carried as plain integer coordinates.

pub mod classifier;
pub mod codec;
pub mod editor;
pub mod geometry;
pub mod invincibility;
pub mod level;
pub mod level_loading;
pub mod particle;
pub mod session;
pub mod timescale;
pub mod world;

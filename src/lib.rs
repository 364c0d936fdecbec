//! An artificial-life kernel: organisms made of typed cells living in a bounded
//! grid of food and wall blocks, advanced one tick at a time, with an octree
//! index over organism positions.

pub mod block;
pub mod random;
pub mod cell;
pub mod world;
pub mod organism;
pub mod octrees;
pub mod geometry;
pub mod simulation;

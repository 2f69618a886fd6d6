//! An unbounded Game of Life: the sparse simulation engine, the pan/zoom view
//! transform, the click-versus-drag gesture machine and the fixed-timestep clock,
//! each stated over a mathematical model and proved against it.

pub mod geometry;
pub mod rule;
pub mod world;
pub mod engine;
pub mod viewport;
pub mod clock;
pub mod gesture;
pub mod session;

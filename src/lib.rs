pub mod color;
mod rng;
pub mod geometry;
pub mod placement;
pub mod scene;
pub mod drag;

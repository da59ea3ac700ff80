pub mod arena;
pub mod clock;
pub mod genetic;
pub mod heuristics;
pub mod location_maps;
pub mod minimax;
pub mod tree;

pub mod container;
pub mod fixed;
pub mod laws;
pub mod particles;
pub mod simulation;

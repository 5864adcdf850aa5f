pub mod velocity;
pub mod movement;
pub mod physics;

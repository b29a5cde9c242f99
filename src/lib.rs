//! Entity motion, formation following, collision and lifecycle rules of a
//! small arcade shooter, on an integer world model.
pub mod geometry;
pub mod entity;
pub mod motion;
pub mod formation;
pub mod collision;
pub mod explosion;
pub mod world;
mod random;

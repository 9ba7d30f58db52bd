//! A small tile-grid ray caster: an 8x8 occupancy map, a camera that turns and
//! moves over it, and a grid-stepping caster that finds where a ray first meets
//! a wall, all in integer and fixed-point arithmetic.
pub mod geometry;
pub mod grid;
pub mod raycast;
pub mod laws;
pub mod camera;
pub mod render;

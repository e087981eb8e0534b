//! A grid ray caster: the core of a first-person view of a tile map whose
//! tiles carry a floor height.
//!
//! A frame is built column by column. The camera fans one ray for each
//! column of the screen ([`camera`]); each ray is walked across the grid
//! lines that it crosses, nearest first ([`dda`]); each crossing is resolved
//! to the sector that the ray enters there ([`map`]); and the first crossing
//! into a sector with a higher floor becomes the wall slice of that column
//! ([`display`]). Finished frames go from the builder to the presenter and
//! their display lists come back, two lists in all ([`handoff`]).
//!
//! All lengths are fixed-point integers, [`fixed::UNIT`] steps to one world
//! unit; quotients are rounded down. What is computed is stated exactly, in
//! this arithmetic, by the spec functions beside each function. Sums that
//! may leave the range of their type are held at its bound, and the
//! functions that multiply ask their arguments to stay within the limits
//! named in [`geom`] and [`camera`], which leave room for a level some
//! sixteen million world units across.

pub mod camera;
pub mod component;
pub mod dda;
pub mod display;
pub mod fixed;
pub mod geom;
pub mod handoff;
pub mod map;
pub mod movement;

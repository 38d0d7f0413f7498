//! Lays a cheat sheet of named command groups out into fixed-width,
//! side-by-side columns that fit a terminal's height.

pub mod column;
pub mod config;
pub mod pack_laws;
pub mod packer;
pub mod sheet;
pub mod text;

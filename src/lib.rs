//! Procedural voxel-scene logic: pixel-map parsing, voxel grid placement,
//! wave animation phases and camera preset selection.

pub mod camera;
pub mod components;
pub mod grid;
pub mod pixmap;
pub mod text;
pub mod wave;

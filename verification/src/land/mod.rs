//! Grids, the terrain kept in them, and the records a landscape is made of.

pub mod conversions;
pub mod grid_access;
pub mod height_map;
pub mod landscape;
pub mod landscape_diff;
pub mod terrain_map;
pub mod textures;

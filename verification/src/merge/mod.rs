//! Differences from a reference terrain, and the strategies that combine them.

pub mod cells;
pub mod conflict;
pub mod ignore_strategy;
pub mod merge_strategy;
pub mod overwrite_strategy;
pub mod relative_terrain_map;
pub mod relative_to;
pub mod resolve_conflict_strategy;
pub mod round_to;
pub mod wide;

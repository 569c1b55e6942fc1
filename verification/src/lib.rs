//! Merging of terrain edits made by independent plugins to a shared, tile-based landscape.
//!
//! Every cell of the world carries up to five terrain channels. Each plugin's edit of a channel
//! is held as a difference from a reference grid, differences from successive plugins are folded
//! together position by position, and the merged elevation is finally repaired so that
//! neighbouring cells agree on the vertices they share.

pub mod cli;
pub mod io;
pub mod land;
pub mod landmass;
pub mod merge;
pub mod pipeline;
pub mod repair;

use crate::merge::conflict::ConflictResolver;
use crate::merge::merge_strategy::{MergeRule, MergeStrategy};
use crate::merge::relative_terrain_map::RelativeTerrainMap;
use crate::merge::relative_to::RelativeTo;
use vstd::prelude::*;

verus! {

/// Drops the new side: the deltas of the old side are kept as they are.
#[derive(Clone, Copy, Debug)]
pub struct IgnoreStrategy {}

impl Default for IgnoreStrategy {
    fn default() -> Self {
        Self {  }
    }
}

impl MergeStrategy for IgnoreStrategy {
    open spec fn rule(&self) -> MergeRule {
        MergeRule::Ignore
    }

    fn apply<U: RelativeTo, const T: usize>(
        &self,
        lhs: &RelativeTerrainMap<U, T>,
        rhs: &RelativeTerrainMap<U, T>,
    ) -> (r: RelativeTerrainMap<U, T>) where <U as RelativeTo>::Delta: ConflictResolver {
        lhs.duplicate()
    }
}

} // verus!

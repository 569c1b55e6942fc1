use crate::merge::conflict::ConflictResolver;
use crate::merge::merge_strategy::{combined, merge_with, MergeRule, MergeStrategy};
use crate::merge::relative_terrain_map::RelativeTerrainMap;
use crate::merge::relative_to::RelativeTo;
use vstd::prelude::*;

verus! {

/// The last writer wins: wherever the new side changed a position, its delta is taken.
#[derive(Clone, Copy, Debug)]
pub struct OverwriteStrategy {}

impl Default for OverwriteStrategy {
    fn default() -> Self {
        Self {  }
    }
}

impl MergeStrategy for OverwriteStrategy {
    open spec fn rule(&self) -> MergeRule {
        MergeRule::Overwrite
    }

    fn apply<U: RelativeTo, const T: usize>(
        &self,
        lhs: &RelativeTerrainMap<U, T>,
        rhs: &RelativeTerrainMap<U, T>,
    ) -> (r: RelativeTerrainMap<U, T>) where <U as RelativeTo>::Delta: ConflictResolver {
        let combine = |lhs_diff: U::Delta, rhs_diff: U::Delta| -> (diff: U::Delta)
            ensures
                diff == combined::<U>(MergeRule::Overwrite, lhs_diff, rhs_diff),
            {
                if U::is_zero(rhs_diff) {
                    lhs_diff
                } else {
                    rhs_diff
                }
            };
        merge_with(
            lhs,
            rhs,
            combine,
            Ghost(|l: U::Delta, r: U::Delta| combined::<U>(MergeRule::Overwrite, l, r)),
        )
    }
}

} // verus!

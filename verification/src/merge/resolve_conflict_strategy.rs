use crate::merge::conflict::{ConflictParams, ConflictResolver, ConflictType};
use crate::merge::merge_strategy::{combined, merge_with, MergeRule, MergeStrategy};
use crate::merge::relative_terrain_map::RelativeTerrainMap;
use crate::merge::relative_to::RelativeTo;
use vstd::prelude::*;

verus! {

/// Merges both sides: where only one side changed a position, its delta is taken; where both
/// did, the delta that resolves the conflict between the two.
#[derive(Clone, Copy, Debug)]
pub struct ResolveConflictStrategy {}

impl Default for ResolveConflictStrategy {
    fn default() -> Self {
        Self {  }
    }
}

impl MergeStrategy for ResolveConflictStrategy {
    open spec fn rule(&self) -> MergeRule {
        MergeRule::Resolve
    }

    fn apply<U: RelativeTo, const T: usize>(
        &self,
        lhs: &RelativeTerrainMap<U, T>,
        rhs: &RelativeTerrainMap<U, T>,
    ) -> (r: RelativeTerrainMap<U, T>) where <U as RelativeTo>::Delta: ConflictResolver {
        let params = ConflictParams::default();
        let combine = |lhs_diff: U::Delta, rhs_diff: U::Delta| -> (diff: U::Delta)
            ensures
                diff == combined::<U>(MergeRule::Resolve, lhs_diff, rhs_diff),
            {
                if U::is_zero(rhs_diff) {
                    lhs_diff
                } else if U::is_zero(lhs_diff) {
                    rhs_diff
                } else {
                    match lhs_diff.average(rhs_diff, &params) {
                        None => lhs_diff,
                        Some(ConflictType::Minor(value)) => value,
                        Some(ConflictType::Major(value)) => value,
                    }
                }
            };
        merge_with(
            lhs,
            rhs,
            combine,
            Ghost(|l: U::Delta, r: U::Delta| combined::<U>(MergeRule::Resolve, l, r)),
        )
    }
}

} // verus!

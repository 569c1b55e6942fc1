use merged_lands::io::meta_schema::ConflictStrategy;
use merged_lands::land::grid_access::Index2D;
use merged_lands::land::terrain_map::TerrainMap;
use merged_lands::merge::ignore_strategy::IgnoreStrategy;
use merged_lands::merge::merge_strategy::{
    apply_merge_strategy, apply_preferred_strategy, apply_strategy, Channel, MergeStrategy,
};
use merged_lands::merge::overwrite_strategy::OverwriteStrategy;
use merged_lands::merge::relative_terrain_map::RelativeTerrainMap;
use merged_lands::merge::resolve_conflict_strategy::ResolveConflictStrategy;

fn map_of(reference: i32, deltas: [[i32; 3]; 3]) -> RelativeTerrainMap<i32, 3> {
    let mut map = RelativeTerrainMap::empty(TerrainMap::new(reference));
    for y in 0..3 {
        for x in 0..3 {
            map.set_difference(Index2D::new(x, y), deltas[y][x]);
        }
    }
    map
}

fn deltas_of(map: &RelativeTerrainMap<i32, 3>) -> [[i32; 3]; 3] {
    let mut deltas = [[0; 3]; 3];
    for y in 0..3 {
        for x in 0..3 {
            let coords = Index2D::new(x, y);
            deltas[y][x] = map.get_difference(coords);
            assert_eq!(map.has_difference(coords), deltas[y][x] != 0);
        }
    }
    deltas
}

const OLD: [[i32; 3]; 3] = [[0, 5, 0], [100, 10, 7], [0, -4, 0]];
const NEW: [[i32; 3]; 3] = [[0, 0, 6], [103, 50, 7], [0, 4, 0]];

#[test]
fn resolve_takes_one_sided_changes_and_averages_conflicts() {
    let merged = ResolveConflictStrategy::default().apply(&map_of(8, OLD), &map_of(8, NEW));
    assert_eq!(deltas_of(&merged), [[0, 5, 6], [101, 46, 7], [0, 0, 0]]);
    assert_eq!(merged.get_value(Index2D::new(1, 1)), 54);
    assert_eq!(merged.get_value(Index2D::new(0, 0)), 8);
}

#[test]
fn resolve_changes_nothing_in_a_map_merged_with_itself() {
    let map = map_of(8, OLD);
    let merged = ResolveConflictStrategy::default().apply(&map, &map);
    assert_eq!(deltas_of(&merged), OLD);
    for y in 0..3 {
        for x in 0..3 {
            let coords = Index2D::new(x, y);
            assert_eq!(merged.has_difference(coords), map.has_difference(coords));
            assert_eq!(merged.get_value(coords), map.get_value(coords));
        }
    }
}

#[test]
fn overwrite_takes_the_new_side_wherever_it_changed() {
    let old = map_of(8, OLD);
    let new = map_of(8, NEW);
    let merged = OverwriteStrategy::default().apply(&old, &new);
    assert_eq!(deltas_of(&merged), [[0, 5, 6], [103, 50, 7], [0, 4, 0]]);
    for y in 0..3 {
        for x in 0..3 {
            let coords = Index2D::new(x, y);
            if old.has_difference(coords) && new.has_difference(coords) {
                assert_eq!(merged.get_value(coords), new.get_value(coords));
            }
        }
    }
}

#[test]
fn ignore_keeps_the_old_side() {
    let merged = IgnoreStrategy::default().apply(&map_of(8, OLD), &map_of(9, NEW));
    assert_eq!(deltas_of(&merged), OLD);
    assert_eq!(merged.get_value(Index2D::new(0, 0)), 8);
}

#[test]
fn the_merged_map_has_the_reference_of_the_old_side() {
    let merged = OverwriteStrategy::default().apply(&map_of(8, OLD), &map_of(20, NEW));
    assert_eq!(merged.get_value(Index2D::new(0, 0)), 8);
    assert_eq!(merged.get_value(Index2D::new(1, 1)), 58);
}

#[test]
fn a_missing_side_leaves_the_other() {
    let old = map_of(8, OLD);
    let new = map_of(9, NEW);
    let strategy = ResolveConflictStrategy::default();
    let only_old = apply_strategy(Some(&old), None, &strategy).expect("the old side is there");
    assert_eq!(deltas_of(&only_old), OLD);
    assert_eq!(only_old.get_value(Index2D::new(0, 0)), 8);
    let only_new = apply_strategy(None, Some(&new), &strategy).expect("the new side is there");
    assert_eq!(deltas_of(&only_new), NEW);
    assert_eq!(only_new.get_value(Index2D::new(0, 0)), 9);
    let only_new = apply_strategy(None, Some(&new), &IgnoreStrategy::default());
    assert_eq!(deltas_of(&only_new.expect("the new side is there")), NEW);
    let neither: Option<RelativeTerrainMap<i32, 3>> = apply_strategy(None, None, &strategy);
    assert!(neither.is_none());
    let both = apply_strategy(Some(&old), Some(&new), &strategy).expect("both sides are there");
    assert_eq!(deltas_of(&both), [[0, 5, 6], [101, 46, 7], [0, 0, 0]]);
}

#[test]
fn a_named_strategy_is_preferred_to_the_default() {
    let old = map_of(8, OLD);
    let new = map_of(8, NEW);
    let resolved = [[0, 5, 6], [101, 46, 7], [0, 0, 0]];
    let overwritten = [[0, 5, 6], [103, 50, 7], [0, 4, 0]];
    let auto = OverwriteStrategy::default();
    let merged = |strategy| {
        deltas_of(&apply_preferred_strategy(Some(&old), Some(&new), strategy, &auto).expect("merged"))
    };
    assert_eq!(merged(ConflictStrategy::Auto), overwritten);
    assert_eq!(merged(ConflictStrategy::Resolve), resolved);
    assert_eq!(merged(ConflictStrategy::Overwrite), overwritten);
    assert_eq!(merged(ConflictStrategy::Ignore), OLD);
}

#[test]
fn textures_are_overwritten_and_all_else_is_resolved() {
    let old = map_of(8, OLD);
    let new = map_of(8, NEW);
    let resolved = [[0, 5, 6], [101, 46, 7], [0, 0, 0]];
    let overwritten = [[0, 5, 6], [103, 50, 7], [0, 4, 0]];
    let merged = |value, strategy| {
        deltas_of(&apply_merge_strategy(value, Some(&old), Some(&new), strategy).expect("merged"))
    };
    assert_eq!(merged(Channel::HeightMap, ConflictStrategy::Auto), resolved);
    assert_eq!(merged(Channel::VertexNormals, ConflictStrategy::Auto), resolved);
    assert_eq!(merged(Channel::VertexColors, ConflictStrategy::Auto), resolved);
    assert_eq!(merged(Channel::WorldMapData, ConflictStrategy::Auto), resolved);
    assert_eq!(merged(Channel::TextureIndices, ConflictStrategy::Auto), overwritten);
    assert_eq!(merged(Channel::TextureIndices, ConflictStrategy::Resolve), resolved);
    assert_eq!(merged(Channel::HeightMap, ConflictStrategy::Overwrite), overwritten);
    assert_eq!(merged(Channel::HeightMap, ConflictStrategy::Ignore), OLD);
}

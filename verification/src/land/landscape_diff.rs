use crate::io::parsed_plugins::ParsedPlugin;
use crate::land::conversions::{
    coordinates, landscape_flags, texture_indices, vertex_colors, vertex_normals, world_map_data,
};
use crate::land::grid_access::{walked, Index2D};
use crate::land::height_map::{has_height_map, height_at, try_calculate_height_map};
use crate::land::landscape::{Landscape, ObjectFlags};
use crate::land::terrain_map::{LandData, TerrainMap, Vec2, Vec3};
use crate::merge::merge_strategy::held;
use crate::merge::relative_to::RelativeTo;
use crate::land::textures::IndexVTEX;
use crate::merge::relative_terrain_map::{IsModified, OptionalTerrainMap, RelativeTerrainMap};
use std::sync::Arc;
use vstd::prelude::*;

verus! {

/// A [LandscapeDiff] is all of the [OptionalTerrainMap] to describe the changes
/// between some reference landscape and successive changes by plugin landscapes.
pub struct LandscapeDiff {
    pub coords: Vec2<i32>,
    pub flags: ObjectFlags,
    pub height_map: Option<RelativeTerrainMap<i32, 65>>,
    pub vertex_normals: Option<RelativeTerrainMap<Vec3<i8>, 65>>,
    pub world_map_data: Option<RelativeTerrainMap<u8, 9>>,
    pub vertex_colors: Option<RelativeTerrainMap<Vec3<u8>, 65>>,
    pub texture_indices: Option<RelativeTerrainMap<IndexVTEX, 16>>,
    pub plugins: Vec<(Arc<ParsedPlugin>, LandData)>,
}

impl LandscapeDiff {
    /// In every kind of terrain data that is held, the marks agree with the deltas.
    pub open spec fn wf(self) -> bool {
        &&& self.height_map matches Some(map) ==> map.wf()
        &&& self.vertex_normals matches Some(map) ==> map.wf()
        &&& self.world_map_data matches Some(map) ==> map.wf()
        &&& self.vertex_colors matches Some(map) ==> map.wf()
        &&& self.texture_indices matches Some(map) ==> map.wf()
    }


    /// The kinds of terrain data in which some position differs from the reference.
    pub open spec fn modified_kinds(self) -> LandData {
        LandData {
            vertex_colors: self.vertex_colors.modified(),
            textures: self.texture_indices.modified(),
            vertex_heights: self.height_map.modified(),
            vertex_normals: self.vertex_normals.modified(),
            world_map: self.world_map_data.modified(),
        }
    }

    /// Returns `true` if the landscape is modified.
    pub fn is_modified(&self) -> (r: bool)
        ensures
            r == (self.modified_kinds() != LandData::nothing()),
    {
        self.height_map.is_modified() || self.vertex_normals.is_modified()
            || self.world_map_data.is_modified() || self.vertex_colors.is_modified()
            || self.texture_indices.is_modified()
    }

    /// Returns [LandData] representing which portions of the landscape are modified.
    pub fn modified_data(&self) -> (r: LandData)
        ensures
            r == self.modified_kinds(),
    {
        let mut modified = LandData::empty();

        if self.height_map.is_modified() {
            modified.vertex_heights = true;
        }

        if self.vertex_normals.is_modified() {
            modified.vertex_normals = true;
        }

        if self.world_map_data.is_modified() {
            modified.world_map = true;
        }

        if self.vertex_colors.is_modified() {
            modified.vertex_colors = true;
        }

        if self.texture_indices.is_modified() {
            modified.textures = true;
        }

        modified
    }
}

/// The delta that a plugin leaves at a position: the delta between its value and the
/// reference where the position is allowed, and none where it is not.
pub open spec fn allowed_difference<U: RelativeTo>(reference: U, plugin: U, allowed: bool) -> U::Delta {
    if allowed {
        U::difference(plugin, reference)
    } else {
        U::zero()
    }
}

/// What a plugin changes in one kind of terrain data. Where the kind is `included` and the
/// plugin leaves a delta at some position, `result` holds the reference and the deltas; and
/// else it holds nothing.
pub open spec fn is_difference_of<U: RelativeTo, const T: usize>(
    result: OptionalTerrainMap<U, T>,
    included: bool,
    reference: spec_fn(Index2D) -> U,
    plugin: spec_fn(Index2D) -> U,
    allowed: spec_fn(Index2D) -> bool,
) -> bool {
    if included && exists|p: Index2D|
        p.within(T) && #[trigger] allowed_difference(reference(p), plugin(p), allowed(p))
            != U::zero() {
        result matches Some(map) && map.wf() && forall|p: Index2D|
            p.within(T) ==> #[trigger] map.reference_at(p) == reference(p) && map.difference_at(p)
                == allowed_difference(reference(p), plugin(p), allowed(p))
    } else {
        result.is_none()
    }
}

/// The values of an optional grid: those of the grid, or the base value everywhere where
/// there is no grid.
pub open spec fn values_or_base<U: RelativeTo, const T: usize>(
    grid: Option<&TerrainMap<U, T>>,
) -> spec_fn(Index2D) -> U {
    |p: Index2D|
        match grid {
            Some(grid) => grid[p],
            None => U::base(),
        }
}

/// The positions that a mask allows: all of them where no mask is used, those that the mask
/// marks where it is used and there is one, and none where it is used and there is none.
pub open spec fn mask_allows<const T: usize>(
    use_mask: bool,
    allow: Option<&TerrainMap<bool, T>>,
) -> spec_fn(Index2D) -> bool {
    |p: Index2D| !use_mask || (allow matches Some(allowed) && allowed[p])
}

/// What a plugin changes in one kind of terrain data is the same for references, plugins
/// and masks that agree on the grid.
pub proof fn lemma_difference_of_same<U: RelativeTo, const T: usize>(
    result: OptionalTerrainMap<U, T>,
    included: bool,
    reference: spec_fn(Index2D) -> U,
    plugin: spec_fn(Index2D) -> U,
    allowed: spec_fn(Index2D) -> bool,
    reference2: spec_fn(Index2D) -> U,
    plugin2: spec_fn(Index2D) -> U,
    allowed2: spec_fn(Index2D) -> bool,
)
    requires
        is_difference_of(result, included, reference, plugin, allowed),
        included ==> forall|p: Index2D|
            p.within(T) ==> #[trigger] reference(p) == reference2(p) && plugin(p) == plugin2(p)
                && allowed(p) == allowed2(p),
    ensures
        is_difference_of(result, included, reference2, plugin2, allowed2),
{
    if included {
        if exists|p: Index2D|
            p.within(T) && #[trigger] allowed_difference(reference(p), plugin(p), allowed(p))
                != U::zero() {
            let p = choose|p: Index2D|
                p.within(T) && #[trigger] allowed_difference(reference(p), plugin(p), allowed(p))
                    != U::zero();
            assert(reference(p) == reference2(p));
            assert(allowed_difference(reference2(p), plugin2(p), allowed2(p)) != U::zero());
            let map = result.unwrap();
            assert forall|q: Index2D| q.within(T) implies #[trigger] map.reference_at(q)
                == reference2(q) && map.difference_at(q) == allowed_difference(
                reference2(q),
                plugin2(q),
                allowed2(q),
            ) by {
                assert(reference(q) == reference2(q));
                assert(map.reference_at(q) == reference(q) && map.difference_at(q)
                    == allowed_difference(reference(q), plugin(q), allowed(q)));
            }
        } else {
            if exists|p: Index2D|
                p.within(T) && #[trigger] allowed_difference(
                    reference2(p),
                    plugin2(p),
                    allowed2(p),
                ) != U::zero() {
                let p = choose|p: Index2D|
                    p.within(T) && #[trigger] allowed_difference(
                        reference2(p),
                        plugin2(p),
                        allowed2(p),
                    ) != U::zero();
                assert(reference(p) == reference2(p));
                assert(allowed_difference(reference(p), plugin(p), allowed(p)) != U::zero());
            }
        }
    }
}

impl LandscapeDiff {
    /// Create a new [RelativeTerrainMap] by applying the `allow` [TerrainMap]
    /// mask to the `old` [RelativeTerrainMap]: the deltas are kept where the mask allows
    /// them, and dropped everywhere else, and everywhere where there is no mask.
    pub fn apply_mask<U: RelativeTo, const T: usize>(
        old: &RelativeTerrainMap<U, T>,
        allow: Option<&TerrainMap<bool, T>>,
    ) -> (new: RelativeTerrainMap<U, T>)
        requires
            old.wf(),
        ensures
            new.wf(),
            forall|p: Index2D| p.within(T) ==> #[trigger] new.reference_at(p) == old.reference_at(p),
            forall|p: Index2D|
                p.within(T) ==> #[trigger] new.difference_at(p) == if allow matches Some(allowed)
                    && allowed[p] {
                    old.difference_at(p)
                } else {
                    U::zero()
                },
    {
        let mut new = old.duplicate();

        if let Some(allowed) = allow {
            let mut y: usize = 0;
            while y < T
                invariant
                    y <= T,
                    new.wf(),
                    forall|p: Index2D|
                        p.within(T) ==> #[trigger] new.reference_at(p) == old.reference_at(p),
                    forall|p: Index2D|
                        p.within(T) ==> #[trigger] new.difference_at(p) == if walked(p, 0, y)
                            && !allowed[p] {
                            U::zero()
                        } else {
                            old.difference_at(p)
                        },
                decreases T - y,
            {
                let mut x: usize = 0;
                while x < T
                    invariant
                        x <= T,
                        y < T,
                        new.wf(),
                        forall|p: Index2D|
                            p.within(T) ==> #[trigger] new.reference_at(p) == old.reference_at(p),
                        forall|p: Index2D|
                            p.within(T) ==> #[trigger] new.difference_at(p) == if walked(p, x, y)
                                && !allowed[p] {
                                U::zero()
                            } else {
                                old.difference_at(p)
                            },
                    decreases T - x,
                {
                    let coords = Index2D::new(x, y);
                    if !allowed.at(coords) {
                        new.set_difference(coords, U::no_difference());
                    }
                    x = x + 1;
                }
                y = y + 1;
            }
        } else {
            new.clean_all();
        }

        new
    }

    /// Returns an [OptionalTerrainMap] of the differences between `reference` and `plugin`,
    /// after applying any provided `allow` [TerrainMap] mask with [Self::apply_mask].
    /// Where there is no `reference`, the differences are taken from a grid that holds the
    /// base value everywhere.
    pub fn calculate_differences_with_mask<U: RelativeTo, const T: usize>(
        should_include: bool,
        reference: Option<&TerrainMap<U, T>>,
        plugin: Option<&TerrainMap<U, T>>,
        use_mask: bool,
        allow: Option<&TerrainMap<bool, T>>,
    ) -> (r: OptionalTerrainMap<U, T>)
        ensures
            is_difference_of(
                r,
                should_include && plugin.is_some(),
                values_or_base(reference),
                values_or_base(plugin),
                mask_allows(use_mask, allow),
            ),
    {
        let ghost reference_at = values_or_base(reference);
        let ghost plugin_at = values_or_base(plugin);
        let ghost allowed_at = mask_allows(use_mask, allow);
        if !should_include {
            return None;
        }
        let plugin = match plugin {
            Some(plugin) => plugin,
            None => {
                return None;
            },
        };

        let relative = if let Some(reference) = reference {
            RelativeTerrainMap::from_difference(reference, plugin)
        } else {
            let default = plugin.uniform_like(U::base_value());
            RelativeTerrainMap::from_difference(&default, plugin)
        };
        proof {
            assert forall|p: Index2D| p.within(T) implies #[trigger] relative.reference_at(p)
                == reference_at(p) && relative.difference_at(p) == U::difference(
                plugin_at(p),
                reference_at(p),
            ) by {}
        }

        if !relative.any_difference() {
            proof {
                if exists|p: Index2D|
                    p.within(T) && #[trigger] allowed_difference(
                        reference_at(p),
                        plugin_at(p),
                        allowed_at(p),
                    ) != U::zero() {
                    let p = choose|p: Index2D|
                        p.within(T) && #[trigger] allowed_difference(
                            reference_at(p),
                            plugin_at(p),
                            allowed_at(p),
                        ) != U::zero();
                    assert(relative.changed_at(p));
                }
            }
            return None;
        }
        if use_mask {
            let masked = Self::apply_mask(&relative, allow);
            proof {
                assert forall|p: Index2D| p.within(T) implies #[trigger] masked.reference_at(p)
                    == reference_at(p) && masked.difference_at(p) == allowed_difference(
                    reference_at(p),
                    plugin_at(p),
                    allowed_at(p),
                ) by {
                    assert(relative.difference_at(p) == U::difference(
                        plugin_at(p),
                        reference_at(p),
                    ));
                }
            }
            if masked.any_difference() {
                proof {
                    let p = choose|p: Index2D| p.within(T) && #[trigger] masked.changed_at(p);
                    assert(allowed_difference(reference_at(p), plugin_at(p), allowed_at(p))
                        != U::zero());
                }
                Some(masked)
            } else {
                proof {
                    if exists|p: Index2D|
                        p.within(T) && #[trigger] allowed_difference(
                            reference_at(p),
                            plugin_at(p),
                            allowed_at(p),
                        ) != U::zero() {
                        let p = choose|p: Index2D|
                            p.within(T) && #[trigger] allowed_difference(
                                reference_at(p),
                                plugin_at(p),
                                allowed_at(p),
                            ) != U::zero();
                        assert(masked.changed_at(p));
                    }
                }
                None
            }
        } else {
            proof {
                let p = choose|p: Index2D| p.within(T) && #[trigger] relative.changed_at(p);
                assert(allowed_difference(reference_at(p), plugin_at(p), allowed_at(p))
                    != U::zero());
            }
            Some(relative)
        }
    }

    /// Returns an [OptionalTerrainMap] of the differences between `reference` and `plugin`.
    pub fn calculate_differences<U: RelativeTo, const T: usize>(
        should_include: bool,
        reference: Option<&TerrainMap<U, T>>,
        plugin: Option<&TerrainMap<U, T>>,
    ) -> (r: OptionalTerrainMap<U, T>)
        ensures
            is_difference_of(
                r,
                should_include && plugin.is_some(),
                values_or_base(reference),
                values_or_base(plugin),
                mask_allows::<T>(false, None),
            ),
    {
        Self::calculate_differences_with_mask(should_include, reference, plugin, false, None)
    }

    /// Returns [RelativeTerrainMap::empty] if `plugin` is [Some] and `should_include`.
    pub fn calculate_reference<U: RelativeTo, const T: usize>(
        should_include: bool,
        plugin: Option<&TerrainMap<U, T>>,
    ) -> (r: OptionalTerrainMap<U, T>)
        ensures
            r.is_some() == (should_include && plugin.is_some()),
            r matches Some(map) ==> map.wf() && map.is_clean() && forall|p: Index2D|
                p.within(T) ==> #[trigger] map.reference_at(p) == plugin.unwrap()[p],
    {
        if !should_include {
            return None;
        }
        match plugin {
            Some(plugin) => Some(RelativeTerrainMap::empty(plugin.duplicate())),
            None => None,
        }
    }
}

/// One kind of terrain data of a reference: where the kind is `included`, `result` holds
/// the `values` as its reference and no deltas; and else it holds nothing.
pub open spec fn is_reference_of<U: RelativeTo, const T: usize>(
    result: OptionalTerrainMap<U, T>,
    included: bool,
    values: spec_fn(Index2D) -> U,
) -> bool {
    if included {
        result matches Some(map) && map.wf() && map.is_clean() && forall|p: Index2D|
            p.within(T) ==> #[trigger] map.reference_at(p) == values(p)
    } else {
        result.is_none()
    }
}

/// The heights of an optional landscape record: zero everywhere where there is no record
/// or it has no heights.
pub open spec fn heights_of(land: Option<Landscape>) -> spec_fn(Index2D) -> i32 {
    |p: Index2D|
        match land {
            Some(land) if has_height_map(land) => height_at(land, p),
            _ => 0i32,
        }
}

/// The vertex normals of an optional landscape record: zero everywhere where there is no
/// record or it has no normals.
pub open spec fn normals_of(land: Option<Landscape>) -> spec_fn(Index2D) -> Vec3<i8> {
    |p: Index2D|
        match land {
            Some(land) if land.vertex_normals.is_some() => land.normal_at(p),
            _ => Vec3 { x: 0i8, y: 0i8, z: 0i8 },
        }
}

/// The vertex colors of an optional landscape record: zero everywhere where there is no
/// record or it has no colors.
pub open spec fn colors_of(land: Option<Landscape>) -> spec_fn(Index2D) -> Vec3<u8> {
    |p: Index2D|
        match land {
            Some(land) if land.vertex_colors.is_some() => land.color_at(p),
            _ => Vec3 { x: 0u8, y: 0u8, z: 0u8 },
        }
}

/// The textures of an optional landscape record: the default texture everywhere where
/// there is no record or it names no textures.
pub open spec fn textures_of(land: Option<Landscape>) -> spec_fn(Index2D) -> IndexVTEX {
    |p: Index2D|
        match land {
            Some(land) if land.texture_indices.is_some() => land.texture_at(p),
            _ => IndexVTEX(0),
        }
}

/// The world map of an optional landscape record: zero everywhere where there is no
/// record or it has no world map.
pub open spec fn world_map_of(land: Option<Landscape>) -> spec_fn(Index2D) -> u8 {
    |p: Index2D|
        match land {
            Some(land) if land.world_map_data.is_some() => land.world_map_at(p),
            _ => 0u8,
        }
}

/// The positions at which an optional elevation differs from its reference.
pub open spec fn changed_heights(
    height_map: OptionalTerrainMap<i32, 65>,
) -> spec_fn(Index2D) -> bool {
    |p: Index2D| height_map matches Some(map) && map.changed_at(p)
}

impl LandscapeDiff {
    /// The landscape diff holds the terrain of the record `land` as its reference, as far
    /// as `allowed_data` allows, and no deltas; and it notes `plugin` as its only source.
    pub open spec fn is_reference(
        self,
        plugin: Arc<ParsedPlugin>,
        land: Landscape,
        allowed_data: LandData,
    ) -> bool {
        &&& self.wf()
        &&& self.coords.x == land.grid.0
        &&& self.coords.y == land.grid.1
        &&& self.flags == land.flags
        &&& self.plugins@ == seq![(plugin, LandData::nothing())]
        &&& self.modified_kinds() == LandData::nothing()
        &&& is_reference_of(
            self.height_map,
            allowed_data.vertex_heights && has_height_map(land),
            heights_of(Some(land)),
        )
        &&& is_reference_of(
            self.vertex_normals,
            land.landscape_flags.uses_vertex_heights_and_normals && allowed_data.vertex_normals
                && land.vertex_normals.is_some(),
            normals_of(Some(land)),
        )
        &&& is_reference_of(
            self.world_map_data,
            land.landscape_flags.uses_world_map_data() && allowed_data.world_map
                && land.world_map_data.is_some(),
            world_map_of(Some(land)),
        )
        &&& is_reference_of(
            self.vertex_colors,
            land.landscape_flags.uses_vertex_colors && allowed_data.vertex_colors
                && land.vertex_colors.is_some(),
            colors_of(Some(land)),
        )
        &&& is_reference_of(
            self.texture_indices,
            land.landscape_flags.uses_textures && allowed_data.textures
                && land.texture_indices.is_some(),
            textures_of(Some(land)),
        )
    }

    /// The landscape diff holds what the record `land` changes in the record `reference`,
    /// as far as `allowed_data` allows: for every kind of terrain data the terrain of the
    /// reference, and the deltas that lead to the terrain of `land`. Vertex normals differ
    /// only where the elevation differs. No source is noted.
    pub open spec fn is_difference(
        self,
        land: Landscape,
        reference: Option<Landscape>,
        allowed_data: LandData,
    ) -> bool {
        &&& self.wf()
        &&& self.coords.x == land.grid.0
        &&& self.coords.y == land.grid.1
        &&& self.flags == land.flags
        &&& self.plugins@.len() == 0
        &&& is_difference_of(
            self.height_map,
            allowed_data.vertex_heights && has_height_map(land),
            heights_of(reference),
            heights_of(Some(land)),
            mask_allows::<65>(false, None),
        )
        &&& is_difference_of(
            self.vertex_normals,
            land.landscape_flags.uses_vertex_heights_and_normals && allowed_data.vertex_normals
                && land.vertex_normals.is_some(),
            normals_of(reference),
            normals_of(Some(land)),
            changed_heights(self.height_map),
        )
        &&& is_difference_of(
            self.world_map_data,
            land.landscape_flags.uses_world_map_data() && allowed_data.world_map
                && land.world_map_data.is_some(),
            world_map_of(reference),
            world_map_of(Some(land)),
            mask_allows::<9>(false, None),
        )
        &&& is_difference_of(
            self.vertex_colors,
            land.landscape_flags.uses_vertex_colors && allowed_data.vertex_colors
                && land.vertex_colors.is_some(),
            colors_of(reference),
            colors_of(Some(land)),
            mask_allows::<65>(false, None),
        )
        &&& is_difference_of(
            self.texture_indices,
            land.landscape_flags.uses_textures && allowed_data.textures
                && land.texture_indices.is_some(),
            textures_of(reference),
            textures_of(Some(land)),
            mask_allows::<16>(false, None),
        )
    }

    /// Creates a new [LandscapeDiff] from the provided [Landscape] and allowed [LandData].
    /// It holds the terrain of the landscape as its reference, and no deltas.
    pub fn from_reference(plugin: Arc<ParsedPlugin>, land: &Landscape, allowed_data: LandData) -> (r:
        Self)
        ensures
            r.is_reference(plugin, *land, allowed_data),
    {
        let included_data = landscape_flags(land);

        let heights = try_calculate_height_map(land);
        let height_map = Self::calculate_reference(
            included_data.uses_vertex_heights_and_normals && allowed_data.vertex_heights,
            heights.as_ref(),
        );

        let normals = vertex_normals(land);
        let vertex_normals = Self::calculate_reference(
            included_data.uses_vertex_heights_and_normals && allowed_data.vertex_normals,
            normals.as_ref(),
        );

        let world_map = world_map_data(land);
        let world_map_data = Self::calculate_reference(
            included_data.uses_world_map_data() && allowed_data.world_map,
            world_map.as_ref(),
        );

        let colors = vertex_colors(land);
        let vertex_colors = Self::calculate_reference(
            included_data.uses_vertex_colors && allowed_data.vertex_colors,
            colors.as_ref(),
        );

        let textures = texture_indices(land);
        let texture_indices = Self::calculate_reference(
            included_data.uses_textures && allowed_data.textures,
            textures.as_ref(),
        );

        let mut plugins: Vec<(Arc<ParsedPlugin>, LandData)> = Vec::new();
        plugins.push((plugin, LandData::empty()));

        let r = Self {
            coords: coordinates(land),
            flags: land.flags,
            height_map,
            vertex_normals,
            world_map_data,
            vertex_colors,
            texture_indices,
            plugins,
        };
        proof {
            assert(r.plugins@ =~= seq![(plugin, LandData::nothing())]);
            lemma_clean_is_unmodified(r.height_map);
            lemma_clean_is_unmodified(r.vertex_normals);
            lemma_clean_is_unmodified(r.world_map_data);
            lemma_clean_is_unmodified(r.vertex_colors);
            lemma_clean_is_unmodified(r.texture_indices);
            if r.world_map_data.is_some() {
                let map = r.world_map_data.unwrap();
                assert forall|p: Index2D| p.within(9) implies #[trigger] map.reference_at(p)
                    == world_map_of(Some(*land))(p) by {
                    assert(world_map.unwrap()[p] == land.world_map_data.unwrap()[p]);
                }
            }
        }
        r
    }

    /// Creates a new [LandscapeDiff] from the provided `land` [Landscape] and allowed
    /// [LandData]. The differences are computed by comparing `land` to the `reference`
    /// [Landscape]. Vertex normals differ only where the elevation differs.
    pub fn from_difference(land: &Landscape, reference: Option<&Landscape>, allowed_data: LandData) -> (r:
        Self)
        ensures
            r.is_difference(*land, held(reference), allowed_data),
    {
        let included_data = landscape_flags(land);

        let reference_heights = match reference {
            Some(reference) => try_calculate_height_map(reference),
            None => None,
        };
        let reference_heights_ref = reference_heights.as_ref();
        let heights = try_calculate_height_map(land);
        let heights_ref = heights.as_ref();
        let height_map = Self::calculate_differences(
            included_data.uses_vertex_heights_and_normals && allowed_data.vertex_heights,
            reference_heights_ref,
            heights_ref,
        );
        proof {
            lemma_difference_of_same(
                height_map,
                allowed_data.vertex_heights && has_height_map(*land),
                values_or_base(reference_heights_ref),
                values_or_base(heights_ref),
                mask_allows::<65>(false, None),
                heights_of(held(reference)),
                heights_of(Some(*land)),
                mask_allows::<65>(false, None),
            );
        }

        let reference_normals = match reference {
            Some(reference) => vertex_normals(reference),
            None => None,
        };
        let reference_normals_ref = reference_normals.as_ref();
        let normals = vertex_normals(land);
        let normals_ref = normals.as_ref();
        let changed = match &height_map {
            Some(map) => Some(map.differences()),
            None => None,
        };
        let vertex_normals = Self::calculate_differences_with_mask(
            included_data.uses_vertex_heights_and_normals && allowed_data.vertex_normals,
            reference_normals_ref,
            normals_ref,
            true,
            changed,
        );
        proof {
            lemma_difference_of_same(
                vertex_normals,
                land.landscape_flags.uses_vertex_heights_and_normals
                    && allowed_data.vertex_normals && land.vertex_normals.is_some(),
                values_or_base(reference_normals_ref),
                values_or_base(normals_ref),
                mask_allows(true, changed),
                normals_of(held(reference)),
                normals_of(Some(*land)),
                changed_heights(height_map),
            );
        }

        let reference_world_map = match reference {
            Some(reference) => world_map_data(reference),
            None => None,
        };
        let reference_world_map_ref = reference_world_map.as_ref();
        let world_map = world_map_data(land);
        let world_map_ref = world_map.as_ref();
        let world_map_data = Self::calculate_differences(
            included_data.uses_world_map_data() && allowed_data.world_map,
            reference_world_map_ref,
            world_map_ref,
        );
        proof {
            assert forall|p: Index2D| p.within(9) implies #[trigger] values_or_base(
                reference_world_map_ref,
            )(p) == world_map_of(held(reference))(p) && values_or_base(world_map_ref)(p)
                == world_map_of(Some(*land))(p) by {
                if reference.is_some() && reference.unwrap().world_map_data.is_some() {
                    let record = reference.unwrap();
                    assert(reference_world_map.unwrap()[p] == record.world_map_data.unwrap()[p]);
                }
                if land.world_map_data.is_some() {
                    assert(world_map.unwrap()[p] == land.world_map_data.unwrap()[p]);
                }
            }
            lemma_difference_of_same(
                world_map_data,
                land.landscape_flags.uses_world_map_data() && allowed_data.world_map
                    && land.world_map_data.is_some(),
                values_or_base(reference_world_map_ref),
                values_or_base(world_map_ref),
                mask_allows::<9>(false, None),
                world_map_of(held(reference)),
                world_map_of(Some(*land)),
                mask_allows::<9>(false, None),
            );
        }

        let reference_colors = match reference {
            Some(reference) => vertex_colors(reference),
            None => None,
        };
        let reference_colors_ref = reference_colors.as_ref();
        let colors = vertex_colors(land);
        let colors_ref = colors.as_ref();
        let vertex_colors = Self::calculate_differences(
            included_data.uses_vertex_colors && allowed_data.vertex_colors,
            reference_colors_ref,
            colors_ref,
        );
        proof {
            lemma_difference_of_same(
                vertex_colors,
                land.landscape_flags.uses_vertex_colors && allowed_data.vertex_colors
                    && land.vertex_colors.is_some(),
                values_or_base(reference_colors_ref),
                values_or_base(colors_ref),
                mask_allows::<65>(false, None),
                colors_of(held(reference)),
                colors_of(Some(*land)),
                mask_allows::<65>(false, None),
            );
        }

        let reference_textures = match reference {
            Some(reference) => texture_indices(reference),
            None => None,
        };
        let reference_textures_ref = reference_textures.as_ref();
        let textures = texture_indices(land);
        let textures_ref = textures.as_ref();
        let texture_indices = Self::calculate_differences(
            included_data.uses_textures && allowed_data.textures,
            reference_textures_ref,
            textures_ref,
        );
        proof {
            lemma_difference_of_same(
                texture_indices,
                land.landscape_flags.uses_textures && allowed_data.textures
                    && land.texture_indices.is_some(),
                values_or_base(reference_textures_ref),
                values_or_base(textures_ref),
                mask_allows::<16>(false, None),
                textures_of(held(reference)),
                textures_of(Some(*land)),
                mask_allows::<16>(false, None),
            );
        }

        Self {
            coords: coordinates(land),
            flags: land.flags,
            height_map,
            vertex_normals,
            world_map_data,
            vertex_colors,
            texture_indices,
            plugins: Vec::new(),
        }
    }
}

/// A kind of terrain data without deltas is not modified.
pub proof fn lemma_clean_is_unmodified<U: RelativeTo, const T: usize>(
    map: OptionalTerrainMap<U, T>,
)
    requires
        map matches Some(map) ==> map.wf() && map.is_clean(),
    ensures
        !map.modified(),
{
    if map.is_some() {
        let map = map.unwrap();
        if map.has_differences() {
            let p = choose|p: Index2D| p.within(T) && #[trigger] map.changed_at(p);
            assert(map.difference_at(p) == U::zero());
        }
    }
}

/// Two optional kinds of terrain data hold the same.
pub open spec fn same_terrain<U: RelativeTo, const T: usize>(
    first: OptionalTerrainMap<U, T>,
    second: OptionalTerrainMap<U, T>,
) -> bool {
    match (first, second) {
        (Some(first), Some(second)) => first.agrees_with(second) && first.wf() == second.wf(),
        (None, None) => true,
        _ => false,
    }
}

impl LandscapeDiff {
    /// The two landscape diffs hold the same.
    pub open spec fn agrees_with(self, other: LandscapeDiff) -> bool {
        &&& self.coords == other.coords
        &&& self.flags == other.flags
        &&& self.plugins@ == other.plugins@
        &&& same_terrain(self.height_map, other.height_map)
        &&& same_terrain(self.vertex_normals, other.vertex_normals)
        &&& same_terrain(self.world_map_data, other.world_map_data)
        &&& same_terrain(self.vertex_colors, other.vertex_colors)
        &&& same_terrain(self.texture_indices, other.texture_indices)
    }

    /// A copy of the landscape diff.
    pub fn duplicate(&self) -> (r: Self)
        ensures
            r.agrees_with(*self),
            self.wf() ==> r.wf(),
    {
        let mut plugins: Vec<(Arc<ParsedPlugin>, LandData)> = Vec::new();
        let mut i: usize = 0;
        while i < self.plugins.len()
            invariant
                i <= self.plugins.len(),
                plugins@ == self.plugins@.subrange(0, i as int),
            decreases self.plugins.len() - i,
        {
            let entry = &self.plugins[i];
            plugins.push((entry.0.clone(), entry.1));
            proof {
                assert(plugins@ == self.plugins@.subrange(0, i + 1));
            }
            i = i + 1;
        }
        proof {
            assert(self.plugins@.subrange(0, self.plugins.len() as int) == self.plugins@);
        }
        Self {
            coords: self.coords,
            flags: self.flags,
            height_map: duplicate_terrain(&self.height_map),
            vertex_normals: duplicate_terrain(&self.vertex_normals),
            world_map_data: duplicate_terrain(&self.world_map_data),
            vertex_colors: duplicate_terrain(&self.vertex_colors),
            texture_indices: duplicate_terrain(&self.texture_indices),
            plugins,
        }
    }
}

/// A copy of an optional kind of terrain data.
pub fn duplicate_terrain<U: RelativeTo, const T: usize>(map: &OptionalTerrainMap<U, T>) -> (r:
    OptionalTerrainMap<U, T>)
    ensures
        same_terrain(r, *map),
        r matches Some(copy) ==> (map.unwrap().wf() ==> copy.wf()),
{
    match map {
        Some(map) => {
            let copy = map.duplicate();
            proof {
                if copy.wf() && !map.wf() {
                    let p = choose|p: Index2D|
                        p.within(T) && #[trigger] map.changed_at(p) != (map.difference_at(p)
                            != U::zero());
                    assert(copy.changed_at(p) == map.changed_at(p));
                    assert(copy.difference_at(p) == map.difference_at(p));
                }
            }
            Some(copy)
        },
        None => None,
    }
}

} // verus!

use crate::land::conversions::{convert_terrain_map, vec3_into_array};
use crate::land::grid_access::{walked, Index2D};
use crate::land::height_map::{
    calculate_vertex_heights_tes3, heights_of_grid, is_stored_form,
    lemma_stored_form_of_same_heights, vertex_normal,
};
use crate::land::landscape::{Landscape, LandscapeFlags};
use crate::land::landscape_diff::LandscapeDiff;
use crate::land::terrain_map::{TerrainMap, Vec2, Vec3};
use crate::land::textures::{remap, IndexVTEX, KnownTextures, RemappedTextures};
use crate::landmass::{lemma_subrange_grows, Landmass, LandmassDiff, LandscapeEntry};
use crate::merge::cells::MergedCells;
use crate::merge::relative_terrain_map::{
    recompute_vertex_normals, DefaultRelativeTerrainMap, RelativeTerrainMap,
};
use vstd::prelude::*;

verus! {

/// The height that a landscape diff has at `coords`: zero where it holds no elevation.
pub open spec fn written_height(landscape: LandscapeDiff, coords: Index2D) -> i32 {
    match landscape.height_map {
        Some(map) => map.value_at(coords),
        None => 0i32,
    }
}

/// The vertex normal that is written for the vertex at `coords`: the one that the landscape
/// diff holds where the elevation does not differ from its reference there, and the normal
/// of the elevation everywhere else, and everywhere where the diff holds no normals.
pub open spec fn written_normal(landscape: LandscapeDiff, coords: Index2D) -> Vec3<i8> {
    let changed = landscape.height_map matches Some(map) && map.changed_at(coords);
    if changed {
        vertex_normal(|q: Index2D| written_height(landscape, q), 65, coords)
    } else {
        match landscape.vertex_normals {
            Some(normals) => normals.value_at(coords),
            None => Vec3 { x: 0i8, y: 0i8, z: 0i8 },
        }
    }
}

/// Whether `remapped_textures` has a new index for every texture that the landscape diff
/// names.
pub open spec fn names_remapped(landscape: LandscapeDiff, remapped_textures: Map<u16, u16>) -> bool {
    landscape.texture_indices matches Some(textures) ==> forall|p: Index2D|
        p.within(16) ==> remap(remapped_textures, #[trigger] textures.value_at(p)).is_some()
}

/// `record` is the landscape record that is written for a landscape diff: it holds the
/// terrain of the diff, with the elevation in its stored form, the vertex normals taken
/// from the elevation wherever it differs from its reference, and the textures remapped.
pub open spec fn is_written_record(
    record: Landscape,
    landscape: LandscapeDiff,
    remapped_textures: Map<u16, u16>,
) -> bool {
    &&& record.flags == landscape.flags
    &&& record.grid.0 == landscape.coords.x
    &&& record.grid.1 == landscape.coords.y
    &&& record.landscape_flags == (LandscapeFlags {
        uses_vertex_heights_and_normals: true,
        uses_vertex_colors: true,
        uses_textures: true,
        unknown: true,
    })
    &&& record.vertex_heights matches Some(stored) && is_stored_form(
        |q: Index2D| written_height(landscape, q),
        stored.offset,
        stored.data,
    )
    &&& record.vertex_normals matches Some(normals) && forall|p: Index2D|
        p.within(65) ==> (#[trigger] normals[p])[0] == written_normal(landscape, p).x
            && normals[p][1] == written_normal(landscape, p).y && normals[p][2]
            == written_normal(landscape, p).z
    &&& record.vertex_colors.is_some() == landscape.vertex_colors.is_some()
    &&& record.vertex_colors matches Some(colors) ==> forall|p: Index2D|
        p.within(65) ==> (#[trigger] colors[p])[0] == landscape.vertex_colors.unwrap().value_at(p).x
            && colors[p][1] == landscape.vertex_colors.unwrap().value_at(p).y && colors[p][2]
            == landscape.vertex_colors.unwrap().value_at(p).z
    &&& record.texture_indices.is_some() == landscape.texture_indices.is_some()
    &&& record.texture_indices matches Some(indices) ==> forall|p: Index2D|
        p.within(16) ==> Some(IndexVTEX(#[trigger] indices[p])) == remap(
            remapped_textures,
            landscape.texture_indices.unwrap().value_at(p),
        )
    &&& record.world_map_data.is_some() == landscape.world_map_data.is_some()
    &&& record.world_map_data matches Some(world_map) ==> forall|p: Index2D|
        p.within(9) ==> (#[trigger] world_map[p]) == landscape.world_map_data.unwrap().value_at(p)
}

/// Converts a [LandscapeDiff] to a [Landscape].
/// The [RemappedTextures] is used to update any texture indices.
pub fn convert_landscape_diff_to_landscape(
    landscape: &LandscapeDiff,
    remapped_textures: &RemappedTextures,
) -> (r: Landscape)
    requires
        landscape.wf(),
        landscape.plugins@.len() > 0,
        names_remapped(*landscape, remapped_textures@),
    ensures
        is_written_record(r, *landscape, remapped_textures@),
{
    let default_height_map = DefaultRelativeTerrainMap::height_map();
    let default_vertex_normals = DefaultRelativeTerrainMap::vertex_normals();
    let height_map = match &landscape.height_map {
        Some(height_map) => height_map,
        None => &default_height_map,
    };
    let vertex_normals = match &landscape.vertex_normals {
        Some(vertex_normals) => vertex_normals,
        None => &default_vertex_normals,
    };
    proof {
        assert forall|p: Index2D| p.within(65) implies #[trigger] height_map.value_at(p)
            == written_height(*landscape, p) by {
            if landscape.height_map.is_none() {
                crate::merge::relative_terrain_map::lemma_marks_and_values(default_height_map, p);
            }
        }
    }

    let heights = height_map.to_terrain();
    let vertex_heights = calculate_vertex_heights_tes3(&heights);
    proof {
        lemma_stored_form_of_same_heights(
            heights_of_grid(heights),
            |q: Index2D| written_height(*landscape, q),
            vertex_heights.offset,
            vertex_heights.data,
        );
    }

    let normals = recompute_vertex_normals(height_map, Some(vertex_normals));
    proof {
        assert forall|p: Index2D| p.within(65) implies #[trigger] normals[p] == written_normal(
            *landscape,
            p,
        ) by {
            crate::merge::relative_terrain_map::lemma_normal_of_same_heights(
                |q: Index2D| height_map.value_at(q),
                |q: Index2D| written_height(*landscape, q),
                65,
                p,
            );
            if landscape.height_map.is_none() {
                assert(!default_height_map.changed_at(p)) by {
                    crate::merge::relative_terrain_map::lemma_marks_and_values(
                        default_height_map,
                        p,
                    );
                }
            }
            if landscape.vertex_normals.is_none() {
                crate::merge::relative_terrain_map::lemma_marks_and_values(
                    default_vertex_normals,
                    p,
                );
            }
        }
    }
    let vertex_normals_data = convert_terrain_map(&normals, vec3_into_array::<i8>);

    let vertex_colors = match &landscape.vertex_colors {
        Some(vertex_colors) => Some(
            convert_terrain_map(&vertex_colors.to_terrain(), vec3_into_array::<u8>),
        ),
        None => None,
    };

    let texture_indices = match &landscape.texture_indices {
        Some(texture_indices) => Some(remap_textures(texture_indices, remapped_textures)),
        None => None,
    };

    let world_map_data = match &landscape.world_map_data {
        Some(world_map_data) => Some(world_map_data.to_terrain()),
        None => None,
    };

    Landscape {
        flags: landscape.flags,
        grid: (landscape.coords.x, landscape.coords.y),
        landscape_flags: LandscapeFlags {
            uses_vertex_heights_and_normals: true,
            uses_vertex_colors: true,
            uses_textures: true,
            unknown: true,
        },
        vertex_heights: Some(vertex_heights),
        vertex_normals: Some(vertex_normals_data),
        vertex_colors,
        texture_indices,
        world_map_data,
    }
}

/// The textures that a texture grid names, remapped.
fn remap_textures(textures: &RelativeTerrainMap<IndexVTEX, 16>, remapped_textures: &RemappedTextures) -> (r:
    TerrainMap<u16, 16>)
    requires
        forall|p: Index2D|
            p.within(16) ==> remap(remapped_textures@, #[trigger] textures.value_at(p)).is_some(),
    ensures
        forall|p: Index2D|
            p.within(16) ==> Some(IndexVTEX(#[trigger] r[p])) == remap(
                remapped_textures@,
                textures.value_at(p),
            ),
{
    let values = textures.to_terrain();
    let mut indices: TerrainMap<u16, 16> = values.uniform_like(0u16);
    let mut y: usize = 0;
    while y < 16
        invariant
            y <= 16,
            forall|p: Index2D| p.within(16) ==> #[trigger] values[p] == textures.value_at(p),
            forall|p: Index2D|
                p.within(16) ==> remap(remapped_textures@, #[trigger] textures.value_at(p)).is_some(),
            forall|p: Index2D|
                p.within(16) && walked(p, 0, y) ==> Some(IndexVTEX(#[trigger] indices[p])) == remap(
                    remapped_textures@,
                    textures.value_at(p),
                ),
        decreases 16 - y,
    {
        let mut x: usize = 0;
        while x < 16
            invariant
                x <= 16,
                y < 16,
                forall|p: Index2D| p.within(16) ==> #[trigger] values[p] == textures.value_at(p),
                forall|p: Index2D|
                    p.within(16) ==> remap(
                        remapped_textures@,
                        #[trigger] textures.value_at(p),
                    ).is_some(),
                forall|p: Index2D|
                    p.within(16) && walked(p, x, y) ==> Some(IndexVTEX(#[trigger] indices[p]))
                        == remap(remapped_textures@, textures.value_at(p)),
            decreases 16 - x,
        {
            let coords = Index2D::new(x, y);
            proof {
                assert(remap(remapped_textures@, textures.value_at(coords)).is_some());
            }
            indices.set(coords, remapped_textures.remapped_index(values.at(coords)).as_u16());
            x = x + 1;
        }
        y = y + 1;
    }
    indices
}

/// `written` holds, for every one of `cells`, the record that is written for it, beside
/// the last source of the cell.
pub open spec fn is_written_landmass(
    written: Map<Vec2<i32>, LandscapeEntry>,
    cells: Map<Vec2<i32>, LandscapeDiff>,
    remapped_textures: Map<u16, u16>,
) -> bool {
    &&& written.dom() == cells.dom()
    &&& forall|coords: Vec2<i32>| #[trigger]
        written.dom().contains(coords) ==> written[coords].1 == cells[coords].plugins@.last().0
            && exists|record: Landscape| #[trigger]
            written[coords].0.same_as(record) && is_written_record(
                record,
                cells[coords],
                remapped_textures,
            )
}

/// Converts a [LandmassDiff] to a [Landmass]: every cell is converted to its record, and
/// holds it beside the last source of the cell.
/// The [RemappedTextures] is used to update any texture indices.
pub fn convert_landmass_diff_to_landmass(landmass: &LandmassDiff, remapped_textures: &RemappedTextures) -> (r:
    Landmass)
    requires
        landmass.wf(),
        forall|coords: Vec2<i32>| #[trigger]
            landmass@.dom().contains(coords) ==> landmass@[coords].plugins@.len() > 0
                && names_remapped(landmass@[coords], remapped_textures@),
    ensures
        r.plugin == landmass.plugin,
        is_written_landmass(r@, landmass@, remapped_textures@),
{
    let mut new_landmass = Landmass::new(landmass.plugin.clone());
    let keys = landmass.sorted();

    let mut i: usize = 0;
    while i < keys.len()
        invariant
            i <= keys.len(),
            landmass.wf(),
            forall|coords: Vec2<i32>| keys@.contains(coords) == landmass@.dom().contains(coords),
            forall|coords: Vec2<i32>| #[trigger]
                landmass@.dom().contains(coords) ==> landmass@[coords].plugins@.len() > 0
                    && names_remapped(landmass@[coords], remapped_textures@),
            new_landmass.plugin == landmass.plugin,
            forall|coords: Vec2<i32>| #[trigger]
                new_landmass@.dom().contains(coords) == keys@.subrange(0, i as int).contains(
                    coords,
                ),
            forall|coords: Vec2<i32>| #[trigger]
                new_landmass@.dom().contains(coords) ==> new_landmass@[coords].1
                    == landmass@[coords].plugins@.last().0 && exists|record: Landscape| #[trigger]
                    new_landmass@[coords].0.same_as(record) && is_written_record(
                        record,
                        landmass@[coords],
                        remapped_textures@,
                    ),
        decreases keys.len() - i,
    {
        let coords = keys[i];
        proof {
            assert(keys@.contains(coords));
            lemma_subrange_grows(keys@, i as int);
        }
        match landmass.get(coords) {
            Some(land) => {
                let landscape = convert_landscape_diff_to_landscape(land, remapped_textures);
                let last_plugin = land.plugins[land.plugins.len() - 1].0.clone();
                let ghost before = new_landmass@;
                new_landmass.insert_land(coords, &last_plugin, &landscape);
                proof {
                    let after = new_landmass@;
                    assert(after[coords].0.same_as(landscape));
                    assert forall|other: Vec2<i32>| #[trigger]
                        after.dom().contains(other) == keys@.subrange(0, i + 1).contains(
                            other,
                        ) by {
                        assert(before.dom().contains(other) == keys@.subrange(
                            0,
                            i as int,
                        ).contains(other));
                    }
                    assert forall|other: Vec2<i32>| #[trigger]
                        after.dom().contains(other) implies after[other].1
                        == landmass@[other].plugins@.last().0 && exists|record: Landscape| #[trigger]
                        after[other].0.same_as(record) && is_written_record(
                            record,
                            landmass@[other],
                            remapped_textures@,
                        ) by {
                        if other != coords {
                            assert(before.dom().contains(other));
                            assert(after[other] == before[other]);
                        }
                    }
                }
            },
            None => {
                proof {
                    assert(false);
                }
            },
        }
        i = i + 1;
    }
    proof {
        assert(keys@.subrange(0, keys.len() as int) == keys@);
        assert(new_landmass@.dom() =~= landmass@.dom());
    }

    new_landmass
}

/// Names of plugins, each once, kept in a `hashbrown::HashSet`.
#[verifier::external_body]
pub struct NameSet {
    inner: hashbrown::HashSet<String>,
}

/// The names that a [NameSet] holds.
pub uninterp spec fn name_entries(set: NameSet) -> Set<Seq<char>>;

/// `hashbrown::HashSet::new`: the new set holds nothing.
#[verifier::external_body]
fn name_set_new() -> (set: NameSet)
    ensures
        name_entries(set) == Set::<Seq<char>>::empty(),
{
    NameSet { inner: hashbrown::HashSet::new() }
}

/// `hashbrown::HashSet::insert`: afterwards the set holds `name` and what it held before;
/// the result tells whether `name` is new to it.
#[verifier::external_body]
fn name_set_insert(set: &mut NameSet, name: String) -> (r: bool)
    ensures
        name_entries(*final(set)) == name_entries(*old(set)).insert(name@),
        r == !name_entries(*old(set)).contains(name@),
{
    set.inner.insert(name)
}

/// `hashbrown::HashSet::drain`: hands out the names that the set holds, each once, in no
/// order that could be told beforehand, and leaves the set empty.
#[verifier::external_body]
fn name_set_drain(set: &mut NameSet) -> (r: Vec<String>)
    ensures
        name_entries(*final(set)) == Set::<Seq<char>>::empty(),
        r@.map_values(|name: String| name@).no_duplicates(),
        forall|name: Seq<char>|
            r@.map_values(|name: String| name@).contains(name) == name_entries(*old(set)).contains(
                name,
            ),
{
    set.inner.drain().collect()
}

/// Whether the texture that is known under `id` was contributed by the plugin named
/// `name`.
pub open spec fn contributes_texture(known_textures: KnownTextures, id: Seq<char>, name: Seq<char>) -> bool {
    known_textures@.dom().contains(id) && known_textures@[id].plugin.name@ == name
}

/// Whether the landscape of the cell at `coords` was last taken from the plugin named
/// `name`, or that is the last plugin that holds the cell.
pub open spec fn holds_cell(
    landmass: Landmass,
    cells: MergedCells,
    coords: Vec2<i32>,
    name: Seq<char>,
) -> bool {
    landmass@.dom().contains(coords) && (landmass@[coords].1.name@ == name
        || cells@[coords].plugins@.last().name@ == name)
}

/// Whether the plugin named `name` is one that the written plugin depends on: a plugin
/// that contributes a texture, a plugin that a landscape was last taken from, or the last
/// plugin that holds the cell of a landscape.
pub open spec fn is_dependency(
    name: Seq<char>,
    landmass: Landmass,
    known_textures: KnownTextures,
    cells: MergedCells,
) -> bool {
    ||| exists|id: Seq<char>| #[trigger] contributes_texture(known_textures, id, name)
    ||| exists|coords: Vec2<i32>| #[trigger] holds_cell(landmass, cells, coords, name)
}

/// Whether one of the first `count` of `ids` names a texture that the plugin named `name`
/// contributed.
pub open spec fn some_contributes(
    known_textures: KnownTextures,
    ids: Seq<String>,
    count: int,
    name: Seq<char>,
) -> bool {
    exists|k: int| 0 <= k < count && #[trigger] contributes_texture(known_textures, ids[k]@, name)
}

/// Whether the plugin named `name` holds one of the first `count` cells of `keys`.
pub open spec fn some_holds_cell(
    landmass: Landmass,
    cells: MergedCells,
    keys: Seq<Vec2<i32>>,
    count: int,
    name: Seq<char>,
) -> bool {
    exists|k: int| 0 <= k < count && #[trigger] holds_cell(landmass, cells, keys[k], name)
}

/// One more texture counts.
proof fn lemma_some_contributes_grows(
    known_textures: KnownTextures,
    ids: Seq<String>,
    count: int,
    name: Seq<char>,
)
    requires
        0 <= count < ids.len(),
    ensures
        some_contributes(known_textures, ids, count + 1, name) == (some_contributes(
            known_textures,
            ids,
            count,
            name,
        ) || contributes_texture(known_textures, ids[count]@, name)),
{
    if some_contributes(known_textures, ids, count, name) {
        let k = choose|k: int|
            0 <= k < count && #[trigger] contributes_texture(known_textures, ids[k]@, name);
        assert(contributes_texture(known_textures, ids[k]@, name));
    }
    if some_contributes(known_textures, ids, count + 1, name) {
        let k = choose|k: int|
            0 <= k < count + 1 && #[trigger] contributes_texture(known_textures, ids[k]@, name);
        if k < count {
            assert(contributes_texture(known_textures, ids[k]@, name));
        }
    }
}

/// One more cell counts.
proof fn lemma_some_holds_cell_grows(
    landmass: Landmass,
    cells: MergedCells,
    keys: Seq<Vec2<i32>>,
    count: int,
    name: Seq<char>,
)
    requires
        0 <= count < keys.len(),
    ensures
        some_holds_cell(landmass, cells, keys, count + 1, name) == (some_holds_cell(
            landmass,
            cells,
            keys,
            count,
            name,
        ) || holds_cell(landmass, cells, keys[count], name)),
{
    if some_holds_cell(landmass, cells, keys, count, name) {
        let k = choose|k: int|
            0 <= k < count && #[trigger] holds_cell(landmass, cells, keys[k], name);
        assert(holds_cell(landmass, cells, keys[k], name));
    }
    if some_holds_cell(landmass, cells, keys, count + 1, name) {
        let k = choose|k: int|
            0 <= k < count + 1 && #[trigger] holds_cell(landmass, cells, keys[k], name);
        if k < count {
            assert(holds_cell(landmass, cells, keys[k], name));
        }
    }
}

/// Whether every landscape of `landmass` has its cell among `cells`.
pub open spec fn has_cells(landmass: Landmass, cells: MergedCells) -> bool {
    forall|coords: Vec2<i32>| #[trigger]
        landmass@.dom().contains(coords) ==> cells@.dom().contains(coords)
}

/// `names` are the names of the plugins that the written plugin depends on, each once.
pub open spec fn are_dependencies(
    names: Seq<String>,
    landmass: Landmass,
    known_textures: KnownTextures,
    cells: MergedCells,
) -> bool {
    &&& names.map_values(|name: String| name@).no_duplicates()
    &&& forall|name: Seq<char>|
        names.map_values(|name: String| name@).contains(name) == is_dependency(
            name,
            landmass,
            known_textures,
            cells,
        )
}

/// Determines the plugins that the written plugin depends on, each once. Nothing is
/// returned where the cell of a landscape is missing.
pub fn find_dependencies(landmass: &Landmass, known_textures: &KnownTextures, cells: &MergedCells) -> (r:
    Option<Vec<String>>)
    requires
        known_textures.wf(),
        cells.wf(),
    ensures
        r.is_some() == has_cells(*landmass, *cells),
        r matches Some(names) ==> are_dependencies(names@, *landmass, *known_textures, *cells),
{
    let mut dependencies = name_set_new();

    // Add plugins that contribute textures.
    let ids = known_textures.all_ids();
    let mut i: usize = 0;
    while i < ids.len()
        invariant
            i <= ids.len(),
            forall|id: Seq<char>|
                ids@.map_values(|id: String| id@).contains(id) == known_textures@.dom().contains(id),
            forall|name: Seq<char>| #[trigger]
                name_entries(dependencies).contains(name) == some_contributes(
                    *known_textures,
                    ids@,
                    i as int,
                    name,
                ),
        decreases ids.len() - i,
    {
        proof {
            let views = ids@.map_values(|id: String| id@);
            assert(views[i as int] == ids[i as int]@);
            assert(views.contains(ids[i as int]@));
        }
        match known_textures.get(&ids[i]) {
            Some(texture) => {
                let ghost before = name_entries(dependencies);
                name_set_insert(&mut dependencies, texture.plugin.name.clone());
                proof {
                    assert forall|name: Seq<char>| #[trigger]
                        name_entries(dependencies).contains(name) == some_contributes(
                            *known_textures,
                            ids@,
                            i + 1,
                            name,
                        ) by {
                        lemma_some_contributes_grows(*known_textures, ids@, i as int, name);
                        assert(before.contains(name) == some_contributes(
                            *known_textures,
                            ids@,
                            i as int,
                            name,
                        ));
                    }
                }
            },
            None => {
                proof {
                    assert(false);
                }
            },
        }
        i = i + 1;
    }
    let ghost from_textures = name_entries(dependencies);

    // Add plugins used for the land, and plugins that modified cells.
    let keys = landmass.sorted();
    let mut j: usize = 0;
    while j < keys.len()
        invariant
            j <= keys.len(),
            cells.wf(),
            forall|coords: Vec2<i32>| keys@.contains(coords) == landmass@.dom().contains(coords),
            forall|k: int| 0 <= k < j ==> cells@.dom().contains(#[trigger] keys[k]),
            forall|name: Seq<char>| #[trigger]
                name_entries(dependencies).contains(name) == (from_textures.contains(name)
                    || some_holds_cell(*landmass, *cells, keys@, j as int, name)),
        decreases keys.len() - j,
    {
        let coords = keys[j];
        proof {
            assert(keys@.contains(coords));
        }
        match (landmass.plugin_of(coords), cells.get(coords)) {
            (Some(plugin), Some(cell)) => {
                let ghost before = name_entries(dependencies);
                name_set_insert(&mut dependencies, plugin.name.clone());
                let last = &cell.plugins[cell.plugins.len() - 1];
                name_set_insert(&mut dependencies, last.name.clone());
                proof {
                    assert forall|name: Seq<char>| #[trigger]
                        name_entries(dependencies).contains(name) == (from_textures.contains(name)
                            || some_holds_cell(*landmass, *cells, keys@, j + 1, name)) by {
                        lemma_some_holds_cell_grows(*landmass, *cells, keys@, j as int, name);
                        assert(before.contains(name) == (from_textures.contains(name)
                            || some_holds_cell(*landmass, *cells, keys@, j as int, name)));
                    }
                }
            },
            _ => {
                proof {
                    assert(!cells@.dom().contains(coords));
                }
                return None;
            },
        }
        j = j + 1;
    }

    let ghost all = name_entries(dependencies);
    let names = name_set_drain(&mut dependencies);
    proof {
        assert forall|coords: Vec2<i32>| #[trigger]
            landmass@.dom().contains(coords) implies cells@.dom().contains(coords) by {
            assert(keys@.contains(coords));
            let k = choose|k: int| 0 <= k < keys@.len() && keys@[k] == coords;
            assert(cells@.dom().contains(keys[k]));
        }
        assert forall|name: Seq<char>|
            names@.map_values(|name: String| name@).contains(name) == is_dependency(
                name,
                *landmass,
                *known_textures,
                *cells,
            ) by {
            let views = ids@.map_values(|id: String| id@);
            assert(names@.map_values(|name: String| name@).contains(name) == all.contains(name));
            assert(all.contains(name) == (from_textures.contains(name) || some_holds_cell(
                *landmass,
                *cells,
                keys@,
                keys@.len() as int,
                name,
            )));
            assert(from_textures.contains(name) == some_contributes(
                *known_textures,
                ids@,
                ids@.len() as int,
                name,
            ));
            if some_contributes(*known_textures, ids@, ids@.len() as int, name) {
                let k = choose|k: int|
                    0 <= k < ids@.len() && #[trigger] contributes_texture(
                        *known_textures,
                        ids@[k]@,
                        name,
                    );
                assert(contributes_texture(*known_textures, ids@[k]@, name));
            }
            if exists|id: Seq<char>| #[trigger] contributes_texture(*known_textures, id, name) {
                let id = choose|id: Seq<char>| #[trigger]
                    contributes_texture(*known_textures, id, name);
                assert(views.contains(id));
                let k = choose|k: int| 0 <= k < views.len() && views[k] == id;
                assert(ids@[k]@ == id);
                assert(contributes_texture(*known_textures, ids@[k]@, name));
            }
            if some_holds_cell(*landmass, *cells, keys@, keys@.len() as int, name) {
                let k = choose|k: int|
                    0 <= k < keys@.len() && #[trigger] holds_cell(
                        *landmass,
                        *cells,
                        keys@[k],
                        name,
                    );
                assert(holds_cell(*landmass, *cells, keys@[k], name));
            }
            if exists|coords: Vec2<i32>| #[trigger] holds_cell(*landmass, *cells, coords, name) {
                let coords = choose|coords: Vec2<i32>| #[trigger]
                    holds_cell(*landmass, *cells, coords, name);
                assert(keys@.contains(coords));
                let k = choose|k: int| 0 <= k < keys@.len() && keys@[k] == coords;
                assert(holds_cell(*landmass, *cells, keys@[k], name));
            }
        }
    }
    Some(names)
}

} // verus!

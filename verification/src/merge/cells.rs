use crate::io::meta_schema::MetaType;
use crate::io::parsed_plugins::{ParsedPlugin, ParsedPlugins};
use crate::land::landscape::ObjectFlags;
use crate::land::terrain_map::Vec2;
use std::sync::Arc;
use vstd::prelude::*;

verus! {

/// The data of a cell record: its flags, and where the cell lies.
#[derive(Clone, Copy, Debug)]
pub struct CellData {
    pub flags: u32,
    pub grid: (i32, i32),
}

/// One cell record of a plugin, as far as a merge reads it.
pub struct Cell {
    pub flags: ObjectFlags,
    pub id: String,
    pub data: CellData,
    pub region: Option<String>,
    /// Whether the record holds a color for the map.
    pub has_map_color: bool,
    /// Whether the record holds the height of the water.
    pub has_water_height: bool,
    /// Whether the record holds data of the atmosphere.
    pub has_atmosphere_data: bool,
}

/// A cell record that is merged from the records of plugins, and the plugins that changed
/// it, the last of which is the last plugin that holds the cell.
pub struct ModifiedCell {
    pub inner: Cell,
    pub plugins: Vec<Arc<ParsedPlugin>>,
}

impl Cell {
    /// Whether the record holds one of the kinds of data that count as a change whenever a
    /// plugin brings the cell.
    pub open spec fn holds_optional_data(self) -> bool {
        self.region.is_some() || self.has_map_color || self.has_water_height
            || self.has_atmosphere_data
    }

    /// A copy of the record.
    pub fn duplicate(&self) -> (r: Self)
        ensures
            r == *self,
    {
        Cell {
            flags: self.flags,
            id: self.id.clone(),
            data: self.data,
            region: match &self.region {
                Some(region) => Some(region.clone()),
                None => None,
            },
            has_map_color: self.has_map_color,
            has_water_height: self.has_water_height,
            has_atmosphere_data: self.has_atmosphere_data,
        }
    }
}

/// Whether the record `rhs` of a plugin changes the merged record `lhs`.
pub open spec fn modifies_cell(lhs: Cell, rhs: Cell) -> bool {
    lhs.flags != rhs.flags || lhs.data != rhs.data || (rhs.id@.len() > 0 && lhs.id@ != rhs.id@)
        || lhs.holds_optional_data()
}

/// What the merge of the record `rhs` of `plugin` into the merged cell `lhs` leaves: the
/// flags of both, the name of `rhs` where it has one, and all else of `lhs`. The plugin is
/// added to the plugins that changed the cell where it did change it, and else it takes the
/// place of the last plugin.
pub open spec fn is_cell_merge(
    merged: ModifiedCell,
    lhs: ModifiedCell,
    rhs: Cell,
    plugin: Arc<ParsedPlugin>,
) -> bool {
    &&& merged.inner.flags.bits == lhs.inner.flags.bits | rhs.flags.bits
    &&& merged.inner.flags.deleted == (lhs.inner.flags.deleted || rhs.flags.deleted)
    &&& merged.inner.data.grid == lhs.inner.data.grid
    &&& merged.inner.data.flags == lhs.inner.data.flags | rhs.data.flags
    &&& merged.inner.id@ == if rhs.id@.len() > 0 {
        rhs.id@
    } else {
        lhs.inner.id@
    }
    &&& merged.inner.region == lhs.inner.region
    &&& merged.inner.has_map_color == lhs.inner.has_map_color
    &&& merged.inner.has_water_height == lhs.inner.has_water_height
    &&& merged.inner.has_atmosphere_data == lhs.inner.has_atmosphere_data
    &&& merged.plugins@ == if modifies_cell(lhs.inner, rhs) {
        lhs.plugins@.push(plugin)
    } else {
        lhs.plugins@.drop_last().push(plugin)
    }
}

/// Merges the record `rhs` of `plugin` into the merged cell `lhs`.
pub fn merge_cell_into(lhs: &mut ModifiedCell, rhs: &Cell, plugin: &Arc<ParsedPlugin>)
    requires
        old(lhs).plugins@.len() > 0,
        old(lhs).inner.data.grid == rhs.data.grid,
    ensures
        is_cell_merge(*final(lhs), *old(lhs), *rhs, *plugin),
        final(lhs).plugins@.len() > 0,
{
    let mut is_modified = false;

    if !lhs.inner.flags.same(&rhs.flags) {
        lhs.inner.flags = ObjectFlags {
            bits: lhs.inner.flags.bits | rhs.flags.bits,
            deleted: lhs.inner.flags.deleted || rhs.flags.deleted,
        };
        is_modified = true;
    } else {
        proof {
            let bits = lhs.inner.flags.bits;
            assert(bits | bits == bits) by (bit_vector);
        }
    }

    if lhs.inner.data.flags != rhs.data.flags {
        lhs.inner.data.flags = lhs.inner.data.flags | rhs.data.flags;
        is_modified = true;
    } else {
        proof {
            let bits = lhs.inner.data.flags;
            assert(bits | bits == bits) by (bit_vector);
        }
    }

    if !rhs.id.as_str().is_empty() && !(lhs.inner.id == rhs.id) {
        lhs.inner.id = rhs.id.clone();
        is_modified = true;
    }

    if lhs.inner.region.is_some() || lhs.inner.has_map_color || lhs.inner.has_water_height
        || lhs.inner.has_atmosphere_data {
        is_modified = true;
    }

    if is_modified {
        lhs.plugins.push(plugin.clone());
    } else {
        lhs.plugins.pop();
        lhs.plugins.push(plugin.clone());
    }
}

/// The merged cells, each under its coordinates, kept in a `hashbrown::HashMap`.
#[verifier::external_body]
pub struct CellMap {
    inner: hashbrown::HashMap<(i32, i32), ModifiedCell>,
}

/// The merged cells that a [CellMap] holds, each under its coordinates.
pub uninterp spec fn cell_entries(map: CellMap) -> Map<Vec2<i32>, ModifiedCell>;

/// `hashbrown::HashMap::new`: the new map holds nothing.
#[verifier::external_body]
fn cell_map_new() -> (map: CellMap)
    ensures
        cell_entries(map).dom() == Set::<Vec2<i32>>::empty(),
{
    CellMap { inner: hashbrown::HashMap::new() }
}

/// `hashbrown::HashMap::insert`: afterwards the map holds `cell` under `coords` and is
/// otherwise as before; what it held under `coords` before, if anything, is handed back.
#[verifier::external_body]
fn cell_map_insert(map: &mut CellMap, coords: Vec2<i32>, cell: ModifiedCell) -> (r: Option<
    ModifiedCell,
>)
    ensures
        cell_entries(*final(map)) == cell_entries(*old(map)).insert(coords, cell),
        r == cell_entries(*old(map)).get(coords),
{
    map.inner.insert((coords.x, coords.y), cell)
}

/// `hashbrown::HashMap::remove`: afterwards the map holds nothing under `coords` and is
/// otherwise as before; what it held under `coords` before, if anything, is handed back.
#[verifier::external_body]
fn cell_map_remove(map: &mut CellMap, coords: Vec2<i32>) -> (r: Option<ModifiedCell>)
    ensures
        cell_entries(*final(map)) == cell_entries(*old(map)).remove(coords),
        r == cell_entries(*old(map)).get(coords),
{
    map.inner.remove(&(coords.x, coords.y))
}

/// `hashbrown::HashMap::get`: a reference to what the map holds under `coords`, if anything.
#[verifier::external_body]
fn cell_map_get(map: &CellMap, coords: Vec2<i32>) -> (r: Option<&ModifiedCell>)
    ensures
        r.is_some() == cell_entries(*map).dom().contains(coords),
        r matches Some(cell) ==> *cell == cell_entries(*map)[coords],
{
    map.inner.get(&(coords.x, coords.y))
}

/// The merged cells of all plugins, each under its coordinates.
pub struct MergedCells {
    pub inner: CellMap,
}

impl MergedCells {
    /// The merged cells, each under its coordinates.
    pub open spec fn view(self) -> Map<Vec2<i32>, ModifiedCell> {
        cell_entries(self.inner)
    }

    /// Every cell lies where it is kept, and some plugin holds it.
    pub open spec fn wf(self) -> bool {
        forall|coords: Vec2<i32>| #[trigger]
            self@.dom().contains(coords) ==> self@[coords].plugins@.len() > 0
                && self@[coords].inner.data.grid.0 == coords.x && self@[coords].inner.data.grid.1
                == coords.y
    }

    /// No cells.
    pub fn new() -> (r: Self)
        ensures
            r@ == Map::<Vec2<i32>, ModifiedCell>::empty(),
            r.wf(),
    {
        let r = Self { inner: cell_map_new() };
        assert(r@ =~= Map::<Vec2<i32>, ModifiedCell>::empty());
        r
    }

    /// The merged cell at `coords`, if there is one.
    pub fn get(&self, coords: Vec2<i32>) -> (r: Option<&ModifiedCell>)
        ensures
            r.is_some() == self@.dom().contains(coords),
            r matches Some(cell) ==> *cell == self@[coords],
    {
        cell_map_get(&self.inner, coords)
    }
}

/// Whether one of the first `count` cell records of `plugin` is the record of the cell at
/// `coords`.
pub open spec fn brings_cell(plugin: ParsedPlugin, count: int, coords: Vec2<i32>) -> bool {
    plugin.meta.meta_type != MetaType::MergedLands && exists|k: int|
        0 <= k < count && (#[trigger] plugin.records.cells@[k]).data.grid.0 == coords.x
            && plugin.records.cells@[k].data.grid.1 == coords.y
}

/// Whether one of the first `count` of `plugins` brings the cell at `coords`.
pub open spec fn some_brings_cell(plugins: Seq<Arc<ParsedPlugin>>, count: int, coords: Vec2<i32>) -> bool {
    exists|i: int|
        0 <= i < count && #[trigger] brings_cell(
            *plugins[i],
            plugins[i].records.cells@.len() as int,
            coords,
        )
}

/// The merged cell that `cells` holds at `coords`, if any.
pub open spec fn cell_at(cells: Map<Vec2<i32>, ModifiedCell>, coords: Vec2<i32>) -> Option<ModifiedCell> {
    if cells.dom().contains(coords) {
        Some(cells[coords])
    } else {
        None
    }
}

/// Whether a cell record is the record of the cell at `coords`.
pub open spec fn lies_at(record: Cell, coords: Vec2<i32>) -> bool {
    record.data.grid.0 == coords.x && record.data.grid.1 == coords.y
}

/// What the cell record `record` of `plugin` leaves of the merged cell `before` of its
/// coordinates: where there was none, the record as it is, with the plugin as its one
/// source; and else what the merge of the record into the cell leaves.
pub open spec fn is_record_step(
    after: Option<ModifiedCell>,
    before: Option<ModifiedCell>,
    record: Cell,
    plugin: Arc<ParsedPlugin>,
) -> bool {
    after matches Some(cell) && match before {
        Some(lhs) => is_cell_merge(cell, lhs, record, plugin),
        None => cell.inner == record && cell.plugins@ == seq![plugin],
    }
}

/// What the first `count` cell records of `plugin` leave of the merged cell `before` at
/// `coords`: the records of that cell are merged into it one after the other.
pub open spec fn is_after_records(
    after: Option<ModifiedCell>,
    before: Option<ModifiedCell>,
    plugin: Arc<ParsedPlugin>,
    count: nat,
    coords: Vec2<i32>,
) -> bool
    decreases count,
{
    if count == 0 {
        after == before
    } else if lies_at(plugin.records.cells@[count - 1], coords) {
        exists|earlier: Option<ModifiedCell>|
            is_after_records(earlier, before, plugin, (count - 1) as nat, coords)
                && #[trigger] is_record_step(
                after,
                earlier,
                plugin.records.cells@[count - 1],
                plugin,
            )
    } else {
        is_after_records(after, before, plugin, (count - 1) as nat, coords)
    }
}

/// What `plugin` leaves of the merged cell `before` at `coords`: nothing else where it is an
/// earlier result of a merge, and else what all its cell records leave of it.
pub open spec fn is_after_plugin(
    after: Option<ModifiedCell>,
    before: Option<ModifiedCell>,
    plugin: Arc<ParsedPlugin>,
    coords: Vec2<i32>,
) -> bool {
    if plugin.meta.meta_type == MetaType::MergedLands {
        after == before
    } else {
        is_after_records(after, before, plugin, plugin.records.cells@.len(), coords)
    }
}

/// What the first `count` of `plugins` leave of the merged cell `before` at `coords`, one
/// after the other.
pub open spec fn is_after_plugins(
    after: Option<ModifiedCell>,
    before: Option<ModifiedCell>,
    plugins: Seq<Arc<ParsedPlugin>>,
    count: nat,
    coords: Vec2<i32>,
) -> bool
    decreases count,
{
    if count == 0 {
        after == before
    } else {
        exists|earlier: Option<ModifiedCell>|
            is_after_plugins(earlier, before, plugins, (count - 1) as nat, coords)
                && #[trigger] is_after_plugin(after, earlier, plugins[count - 1], coords)
    }
}

/// What the first `count` cell records of `plugin` leave of the merged cell `before` at
/// `coords`.
pub open spec fn records_leave(
    after: Option<ModifiedCell>,
    before: Option<ModifiedCell>,
    plugin: Arc<ParsedPlugin>,
    count: nat,
    coords: Vec2<i32>,
) -> bool {
    is_after_records(after, before, plugin, count, coords)
}

/// What the first `count` of `plugins` leave of the merged cell `before` at `coords`.
pub open spec fn plugins_leave(
    after: Option<ModifiedCell>,
    before: Option<ModifiedCell>,
    plugins: Seq<Arc<ParsedPlugin>>,
    count: nat,
    coords: Vec2<i32>,
) -> bool {
    is_after_plugins(after, before, plugins, count, coords)
}

/// A record of the cell at `coords` leads from what the records before it leave to what
/// one more record leaves.
pub proof fn lemma_record_taken(
    after: Option<ModifiedCell>,
    earlier: Option<ModifiedCell>,
    before: Option<ModifiedCell>,
    plugin: Arc<ParsedPlugin>,
    count: nat,
    coords: Vec2<i32>,
)
    requires
        0 < count <= plugin.records.cells@.len(),
        lies_at(plugin.records.cells@[count - 1], coords),
        is_after_records(earlier, before, plugin, (count - 1) as nat, coords),
        is_record_step(after, earlier, plugin.records.cells@[count - 1], plugin),
    ensures
        is_after_records(after, before, plugin, count, coords),
{
    let previous = (count - 1) as nat;
    assert(is_after_records(earlier, before, plugin, previous, coords) && is_record_step(
        after,
        earlier,
        plugin.records.cells@[count - 1],
        plugin,
    ));
}

/// A record of another cell leaves the cell at `coords` as it is.
pub proof fn lemma_record_skipped(
    after: Option<ModifiedCell>,
    before: Option<ModifiedCell>,
    plugin: Arc<ParsedPlugin>,
    count: nat,
    coords: Vec2<i32>,
)
    requires
        0 < count <= plugin.records.cells@.len(),
        !lies_at(plugin.records.cells@[count - 1], coords),
        is_after_records(after, before, plugin, (count - 1) as nat, coords),
    ensures
        is_after_records(after, before, plugin, count, coords),
{
}

/// One more plugin leads from what the plugins before it leave to what one more leaves.
pub proof fn lemma_plugin_taken(
    after: Option<ModifiedCell>,
    earlier: Option<ModifiedCell>,
    before: Option<ModifiedCell>,
    plugins: Seq<Arc<ParsedPlugin>>,
    count: nat,
    coords: Vec2<i32>,
)
    requires
        0 < count <= plugins.len(),
        is_after_plugins(earlier, before, plugins, (count - 1) as nat, coords),
        is_after_plugin(after, earlier, plugins[count - 1], coords),
    ensures
        is_after_plugins(after, before, plugins, count, coords),
{
    let previous = (count - 1) as nat;
    assert(is_after_plugins(earlier, before, plugins, previous, coords) && is_after_plugin(
        after,
        earlier,
        plugins[count - 1],
        coords,
    ));
}

/// Merges the cell records of `plugins` into `cells`, in the order of the plugins and of
/// their records: the first record of a cell is taken as it is, and every other one is merged
/// into what is there. A plugin whose meta file marks it as an earlier result of the tool
/// is left out.
pub fn merge_cells_into(cells: &mut MergedCells, plugins: &Vec<Arc<ParsedPlugin>>)
    requires
        old(cells).wf(),
    ensures
        final(cells).wf(),
        forall|coords: Vec2<i32>| #[trigger]
            final(cells)@.dom().contains(coords) == (old(cells)@.dom().contains(coords)
                || some_brings_cell(plugins@, plugins@.len() as int, coords)),
        forall|coords: Vec2<i32>| #[trigger]
            plugins_leave(
                cell_at(final(cells)@, coords),
                cell_at(old(cells)@, coords),
                plugins@,
                plugins@.len(),
                coords,
            ),
{
    let ghost original = cells@;
    let mut i: usize = 0;
    while i < plugins.len()
        invariant
            i <= plugins.len(),
            cells.wf(),
            forall|coords: Vec2<i32>| #[trigger]
                cells@.dom().contains(coords) == (original.dom().contains(coords)
                    || some_brings_cell(plugins@, i as int, coords)),
            forall|coords: Vec2<i32>| #[trigger]
                plugins_leave(
                    cell_at(cells@, coords),
                    cell_at(original, coords),
                    plugins@,
                    i as nat,
                    coords,
                ),
        decreases plugins.len() - i,
    {
        let plugin = &plugins[i];
        let ghost before = cells@;
        if plugin.meta.meta_type != MetaType::MergedLands {
            let mut k: usize = 0;
            while k < plugin.records.cells.len()
                invariant
                    k <= plugin.records.cells.len(),
                    i < plugins.len(),
                    plugin == &plugins[i as int],
                    plugin.meta.meta_type != MetaType::MergedLands,
                    cells.wf(),
                    forall|coords: Vec2<i32>| #[trigger]
                        cells@.dom().contains(coords) == (before.dom().contains(coords)
                            || brings_cell(**plugin, k as int, coords)),
                    forall|coords: Vec2<i32>| #[trigger]
                        records_leave(
                            cell_at(cells@, coords),
                            cell_at(before, coords),
                            *plugin,
                            k as nat,
                            coords,
                        ),
                decreases plugin.records.cells.len() - k,
            {
                let cell = &plugin.records.cells[k];
                let coords = Vec2::new(cell.data.grid.0, cell.data.grid.1);
                let ghost current = cells@;
                match cell_map_remove(&mut cells.inner, coords) {
                    Some(prev_cell) => {
                        let mut prev_cell = prev_cell;
                        merge_cell_into(&mut prev_cell, cell, plugin);
                        cell_map_insert(&mut cells.inner, coords, prev_cell);
                    },
                    None => {
                        let mut sources: Vec<Arc<ParsedPlugin>> = Vec::new();
                        sources.push(plugin.clone());
                        let new_cell = ModifiedCell { inner: cell.duplicate(), plugins: sources };
                        cell_map_insert(&mut cells.inner, coords, new_cell);
                    },
                }
                proof {
                    assert forall|other: Vec2<i32>| #[trigger]
                        records_leave(
                            cell_at(cells@, other),
                            cell_at(before, other),
                            *plugin,
                            (k + 1) as nat,
                            other,
                        ) by {
                        assert(records_leave(
                            cell_at(current, other),
                            cell_at(before, other),
                            *plugin,
                            k as nat,
                            other,
                        ));
                        if other == coords {
                            assert(lies_at(plugin.records.cells@[k as int], other));
                            assert(is_record_step(
                                cell_at(cells@, other),
                                cell_at(current, other),
                                plugin.records.cells@[k as int],
                                *plugin,
                            ));
                            lemma_record_taken(
                                cell_at(cells@, other),
                                cell_at(current, other),
                                cell_at(before, other),
                                *plugin,
                                (k + 1) as nat,
                                other,
                            );
                        } else {
                            assert(cell_at(cells@, other) == cell_at(current, other));
                            lemma_record_skipped(
                                cell_at(cells@, other),
                                cell_at(before, other),
                                *plugin,
                                (k + 1) as nat,
                                other,
                            );
                        }
                    }
                    assert forall|other: Vec2<i32>| #[trigger]
                        cells@.dom().contains(other) == (before.dom().contains(other)
                            || brings_cell(**plugin, k + 1, other)) by {
                        assert(current.dom().contains(other) == (before.dom().contains(other)
                            || brings_cell(**plugin, k as int, other)));
                        if brings_cell(**plugin, k as int, other) {
                            let m = choose|m: int|
                                0 <= m < k && (#[trigger] plugin.records.cells@[m]).data.grid.0
                                    == other.x && plugin.records.cells@[m].data.grid.1 == other.y;
                            assert(plugin.records.cells@[m].data.grid.0 == other.x);
                        }
                        if other == coords {
                            assert(plugin.records.cells@[k as int].data.grid.0 == other.x);
                        }
                        if brings_cell(**plugin, k + 1, other) && other != coords {
                            let m = choose|m: int|
                                0 <= m < k + 1 && (
                                #[trigger] plugin.records.cells@[m]).data.grid.0 == other.x
                                    && plugin.records.cells@[m].data.grid.1 == other.y;
                            assert(m < k);
                            assert(plugin.records.cells@[m].data.grid.0 == other.x);
                        }
                    }
                }
                k = k + 1;
                proof {
                    assert forall|other: Vec2<i32>| #[trigger]
                        records_leave(
                            cell_at(cells@, other),
                            cell_at(before, other),
                            *plugin,
                            k as nat,
                            other,
                        ) by {
                        assert(records_leave(
                            cell_at(cells@, other),
                            cell_at(before, other),
                            *plugin,
                            ((k - 1) + 1) as nat,
                            other,
                        ));
                    }
                }
            }
        }
        proof {
            assert forall|coords: Vec2<i32>| #[trigger]
                plugins_leave(
                    cell_at(cells@, coords),
                    cell_at(original, coords),
                    plugins@,
                    (i + 1) as nat,
                    coords,
                ) by {
                assert(plugins_leave(
                    cell_at(before, coords),
                    cell_at(original, coords),
                    plugins@,
                    i as nat,
                    coords,
                ));
                if plugin.meta.meta_type != MetaType::MergedLands {
                    assert(records_leave(
                        cell_at(cells@, coords),
                        cell_at(before, coords),
                        *plugin,
                        plugin.records.cells@.len(),
                        coords,
                    ));
                }
                assert(is_after_plugin(
                    cell_at(cells@, coords),
                    cell_at(before, coords),
                    plugins@[i as int],
                    coords,
                ));
                lemma_plugin_taken(
                    cell_at(cells@, coords),
                    cell_at(before, coords),
                    cell_at(original, coords),
                    plugins@,
                    (i + 1) as nat,
                    coords,
                );
            }
            assert forall|coords: Vec2<i32>| #[trigger]
                cells@.dom().contains(coords) == (original.dom().contains(coords)
                    || some_brings_cell(plugins@, i + 1, coords)) by {
                let here = brings_cell(
                    *plugins@[i as int],
                    plugins@[i as int].records.cells@.len() as int,
                    coords,
                );
                assert(before.dom().contains(coords) == (original.dom().contains(coords)
                    || some_brings_cell(plugins@, i as int, coords)));
                assert(cells@.dom().contains(coords) == (before.dom().contains(coords) || here));
                if some_brings_cell(plugins@, i as int, coords) {
                    let j = choose|j: int|
                        0 <= j < i && #[trigger] brings_cell(
                            *plugins@[j],
                            plugins@[j].records.cells@.len() as int,
                            coords,
                        );
                    assert(brings_cell(
                        *plugins@[j],
                        plugins@[j].records.cells@.len() as int,
                        coords,
                    ));
                }
                if some_brings_cell(plugins@, i + 1, coords) && !here {
                    let j = choose|j: int|
                        0 <= j < i + 1 && #[trigger] brings_cell(
                            *plugins@[j],
                            plugins@[j].records.cells@.len() as int,
                            coords,
                        );
                    assert(j < i);
                    assert(brings_cell(
                        *plugins@[j],
                        plugins@[j].records.cells@.len() as int,
                        coords,
                    ));
                }
            }
        }
        i = i + 1;
        proof {
            assert forall|coords: Vec2<i32>| #[trigger]
                plugins_leave(
                    cell_at(cells@, coords),
                    cell_at(original, coords),
                    plugins@,
                    i as nat,
                    coords,
                ) by {
                assert(plugins_leave(
                    cell_at(cells@, coords),
                    cell_at(original, coords),
                    plugins@,
                    ((i - 1) + 1) as nat,
                    coords,
                ));
            }
        }
    }
}

/// Whether one of the plugins brings the cell at `coords`.
pub open spec fn is_cell_brought(parsed_plugins: ParsedPlugins, coords: Vec2<i32>) -> bool {
    some_brings_cell(parsed_plugins.masters@, parsed_plugins.masters@.len() as int, coords)
        || some_brings_cell(parsed_plugins.plugins@, parsed_plugins.plugins@.len() as int, coords)
}

/// What all of `plugins` leave of the merged cell `before` at `coords`.
pub open spec fn is_after_all(
    after: Option<ModifiedCell>,
    before: Option<ModifiedCell>,
    plugins: Seq<Arc<ParsedPlugin>>,
    coords: Vec2<i32>,
) -> bool {
    is_after_plugins(after, before, plugins, plugins.len(), coords)
}

/// `cell` is the merged cell at `coords`, if there is one: what the plugin files leave of
/// what the master files leave there.
pub open spec fn is_merged_cell_of(
    cell: Option<ModifiedCell>,
    parsed_plugins: ParsedPlugins,
    coords: Vec2<i32>,
) -> bool {
    exists|by_masters: Option<ModifiedCell>|
        is_after_plugins(
            by_masters,
            None,
            parsed_plugins.masters@,
            parsed_plugins.masters@.len(),
            coords,
        ) && #[trigger] is_after_all(cell, by_masters, parsed_plugins.plugins@, coords)
}

/// Merges the cell records of all plugins: those of the master files first, then those of
/// the plugin files.
pub fn merge_cells(parsed_plugins: &ParsedPlugins) -> (r: MergedCells)
    ensures
        r.wf(),
        forall|coords: Vec2<i32>| #[trigger]
            r@.dom().contains(coords) == is_cell_brought(*parsed_plugins, coords),
        forall|coords: Vec2<i32>| #[trigger] is_merged_cell_of(cell_at(r@, coords), *parsed_plugins, coords),
{
    let mut cells = MergedCells::new();

    merge_cells_into(&mut cells, &parsed_plugins.masters);
    let ghost by_masters = cells@;
    merge_cells_into(&mut cells, &parsed_plugins.plugins);
    proof {
        assert forall|coords: Vec2<i32>| #[trigger]
            is_merged_cell_of(cell_at(cells@, coords), *parsed_plugins, coords) by {
            assert(plugins_leave(
                cell_at(by_masters, coords),
                cell_at(Map::<Vec2<i32>, ModifiedCell>::empty(), coords),
                parsed_plugins.masters@,
                parsed_plugins.masters@.len(),
                coords,
            ));
            assert(plugins_leave(
                cell_at(cells@, coords),
                cell_at(by_masters, coords),
                parsed_plugins.plugins@,
                parsed_plugins.plugins@.len(),
                coords,
            ));
            assert(is_after_all(
                cell_at(cells@, coords),
                cell_at(by_masters, coords),
                parsed_plugins.plugins@,
                coords,
            ));
        }
    }

    cells
}

} // verus!

use crate::io::meta_schema::MetaType;
use crate::io::parsed_plugins::{ParsedPlugin, ParsedPlugins};
use crate::io::save_to_image::{are_cell_conflicts, landscape_conflicts, CellConflicts};
use crate::io::save_to_plugin::{
    are_dependencies, convert_landmass_diff_to_landmass, find_dependencies, is_written_landmass,
    names_remapped,
};
use crate::land::grid_access::Index2D;
use crate::land::landscape_diff::LandscapeDiff;
use crate::land::terrain_map::Vec2;
use crate::land::textures::{remap, KnownTexture, KnownTextures};
use crate::landmass::{
    allowed_data, are_created_from, can_stomp, check_sound_records, create_landmasses,
    create_merged_lands_from_reference, create_tes3_landmass, find_landmass_diff,
    has_sound_records, is_merged_cell, is_stomped_state, lemma_textures_among_grows,
    merge_landmass_into, record_at, textures_among, textures_are_known, Landmass, LandmassDiff,
};
use crate::merge::cells::{is_cell_brought, merge_cells, MergedCells};
use crate::repair::cleaning::{
    all_can_be_cleaned, can_clean_landmass_diff, check_known_textures, clean_known_textures,
    clean_landmass_diff, is_cleaned, is_texture_cleaning, is_used_texture, names_known_textures,
    names_texture,
};
use crate::repair::debugging::{add_debug_vertex_colors_to_landmass, is_painted};
use crate::repair::seam_detection::{
    cell_at, elevation, is_cell, is_repair_of, is_settled, lemma_repair_is_settled,
    lemma_settled_by_elevation, repair_landmass_seams,
};
use std::sync::Arc;
use vstd::prelude::*;

verus! {

/// Why plugins cannot be merged.
#[derive(Clone, Copy, Debug, PartialEq, Eq, Structural)]
pub enum MergeError {
    /// A plugin holds a texture record without an index that a texture grid can name, a
    /// deleted texture record, or a landscape that names a texture that the plugin does
    /// not bring.
    UnsoundRecords,
    /// The plugins hold more texture records than a texture grid can name.
    TooManyTextures,
    /// A landscape record of a master file has other flags than the record that it stomps
    /// over, or is deleted.
    MastersDisagree,
    /// The merged landmass has more cells than repairs of seams can be counted for.
    TooManyCells,
    /// A cell that one plugin file modified cannot be held against what the plugin brought.
    UncleanCell,
    /// A cell names a texture that is not known.
    UnknownTexture,
    /// The cell record of a landscape is missing.
    MissingCell,
}

/// Whether a plugin is a source of the merge: it is no earlier result of a merge.
pub open spec fn is_source(plugin: Arc<ParsedPlugin>) -> bool {
    plugin.meta.meta_type != MetaType::MergedLands
}

/// The plugins among `plugins` that are sources of the merge, in their order.
pub open spec fn sources(plugins: Seq<Arc<ParsedPlugin>>) -> Seq<Arc<ParsedPlugin>> {
    plugins.filter(|plugin: Arc<ParsedPlugin>| is_source(plugin))
}

/// Whether the records of every one of `plugins` are sound.
pub open spec fn all_sound(plugins: Seq<Arc<ParsedPlugin>>) -> bool {
    forall|place: int| 0 <= place < plugins.len() ==> has_sound_records(*(#[trigger] plugins[place]))
}

/// Whether a texture grid can name every texture record of the masters and of the sources
/// among the plugins, beside the default texture.
pub open spec fn textures_fit(parsed_plugins: ParsedPlugins) -> bool {
    textures_among(parsed_plugins.masters@, parsed_plugins.masters@.len()) + textures_among(
        sources(parsed_plugins.plugins@),
        sources(parsed_plugins.plugins@).len(),
    ) + 1 < u16::MAX
}

/// `diff` holds the differences of `landmass` from `reference`, cell by cell.
pub open spec fn is_landmass_difference(diff: LandmassDiff, landmass: Landmass, reference: Landmass) -> bool {
    &&& diff.wf()
    &&& diff.plugin == landmass.plugin
    &&& diff@.dom() == landmass@.dom()
    &&& forall|coords: Vec2<i32>| #[trigger]
        diff@.dom().contains(coords) ==> diff@[coords].is_difference(
            landmass@[coords].0,
            record_at(reference, coords),
            allowed_data(*landmass.plugin, landmass@[coords].0),
        )
}

/// `diffs` hold the differences of `landmasses` from `reference`, one by one.
pub open spec fn are_differences_of(
    diffs: Seq<LandmassDiff>,
    landmasses: Seq<Landmass>,
    reference: Landmass,
) -> bool {
    &&& diffs.len() == landmasses.len()
    &&& forall|place: int|
        0 <= place < diffs.len() ==> is_landmass_difference(
            #[trigger] diffs[place],
            landmasses[place],
            reference,
        )
}

/// `merged` holds the cells of `reference`, each without a difference.
pub open spec fn is_reference_copy(merged: Map<Vec2<i32>, LandscapeDiff>, reference: Landmass) -> bool {
    &&& merged.dom() == reference@.dom()
    &&& forall|coords: Vec2<i32>| #[trigger]
        merged.dom().contains(coords) ==> merged[coords].is_reference(
            reference@[coords].1,
            reference@[coords].0,
            reference@[coords].0.landscape_flags.land_data(),
        )
}

/// `merged` is what the merge of `plugin` into `before` leaves.
pub open spec fn is_merge_step(
    merged: Map<Vec2<i32>, LandscapeDiff>,
    before: Map<Vec2<i32>, LandscapeDiff>,
    plugin: LandmassDiff,
) -> bool {
    forall|coords: Vec2<i32>| #[trigger] is_merged_cell(merged, before, plugin, coords)
}

/// `merged` is what is left once the first `count` of `modded` are merged into the cells of
/// `reference`, one after the other.
pub open spec fn is_merged_until(
    merged: Map<Vec2<i32>, LandscapeDiff>,
    reference: Landmass,
    modded: Seq<LandmassDiff>,
    count: nat,
) -> bool
    decreases count,
{
    if count == 0 {
        is_reference_copy(merged, reference)
    } else {
        exists|before: Map<Vec2<i32>, LandscapeDiff>|
            is_merged_until(before, reference, modded, (count - 1) as nat) && #[trigger] is_merge_step(
                merged,
                before,
                modded[count - 1],
            )
    }
}

/// One more merge leads from what the first of `modded` leave to what one more leaves.
pub proof fn lemma_merged_until_step(
    merged: Map<Vec2<i32>, LandscapeDiff>,
    before: Map<Vec2<i32>, LandscapeDiff>,
    reference: Landmass,
    modded: Seq<LandmassDiff>,
    count: nat,
)
    requires
        0 < count <= modded.len(),
        is_merged_until(before, reference, modded, (count - 1) as nat),
        is_merge_step(merged, before, modded[count - 1]),
    ensures
        is_merged_until(merged, reference, modded, count),
{
    let previous = (count - 1) as nat;
    assert(is_merged_until(before, reference, modded, previous) && is_merge_step(
        merged,
        before,
        modded[count - 1],
    ));
}

/// What the merge of plugins goes through on its way.
pub struct MergeTrace {
    /// The landmasses of the masters.
    pub master_landmasses: Seq<Landmass>,
    /// The textures that are known once the landmasses of the masters are created.
    pub known_by_masters: Map<Seq<char>, KnownTexture>,
    /// The reference landmass: the landmasses of the masters, stomped over each other.
    pub reference: Landmass,
    /// The landmasses of the sources among the plugins.
    pub landmasses: Seq<Landmass>,
    /// The textures that are known once all landmasses are created.
    pub known: Map<Seq<char>, KnownTexture>,
    /// The differences of the landmasses of the plugins from the reference landmass.
    pub modded: Seq<LandmassDiff>,
    /// The merged cells before their seams are repaired.
    pub unrepaired: Map<Vec2<i32>, LandscapeDiff>,
}

/// Every texture that was known is known as it was.
pub open spec fn known_extends(
    before: Map<Seq<char>, KnownTexture>,
    after: Map<Seq<char>, KnownTexture>,
) -> bool {
    forall|id: Seq<char>|
        before.dom().contains(id) ==> #[trigger] after.dom().contains(id) && after[id] == before[id]
}

/// Whether `trace` is what the merge of `parsed_plugins` goes through, as far as it goes:
/// the landmasses of the masters are created and stomped over each other to the reference
/// landmass, the landmasses of the sources among the plugins are created, their
/// differences from the reference landmass are taken and merged, one after the other, into
/// the cells of the reference landmass.
pub open spec fn is_merge_trace(trace: MergeTrace, parsed_plugins: ParsedPlugins) -> bool {
    let masters = parsed_plugins.masters@;
    let plugins = sources(parsed_plugins.plugins@);
    all_sound(masters) && all_sound(plugins) && textures_fit(parsed_plugins) ==> {
        &&& are_created_from(trace.master_landmasses, masters, trace.known_by_masters, masters.len())
        &&& can_stomp(trace.master_landmasses) ==> {
            &&& is_stomped_state(
                trace.reference@,
                trace.master_landmasses,
                trace.master_landmasses.len(),
                Seq::empty(),
            )
            &&& trace.reference.plugin.name@ == "ReferenceLandmass.esp"@
            &&& are_created_from(trace.landmasses, plugins, trace.known, plugins.len())
            &&& known_extends(trace.known_by_masters, trace.known)
            &&& are_differences_of(trace.modded, trace.landmasses, trace.reference)
            &&& is_merged_until(trace.unrepaired, trace.reference, trace.modded, trace.modded.len())
        }
    }
}

/// Why the merge of `parsed_plugins` that goes through `trace` fails, if it does.
pub open spec fn merge_failure(trace: MergeTrace, parsed_plugins: ParsedPlugins) -> Option<MergeError> {
    if !(all_sound(parsed_plugins.masters@) && all_sound(sources(parsed_plugins.plugins@))) {
        Some(MergeError::UnsoundRecords)
    } else if !textures_fit(parsed_plugins) {
        Some(MergeError::TooManyTextures)
    } else if !can_stomp(trace.master_landmasses) {
        Some(MergeError::MastersDisagree)
    } else if trace.unrepaired.dom().len() * 268 > usize::MAX {
        Some(MergeError::TooManyCells)
    } else {
        None
    }
}

/// Tells whether the records of every one of `plugins` are sound.
pub fn check_all_sound(plugins: &Vec<Arc<ParsedPlugin>>) -> (r: bool)
    ensures
        r == all_sound(plugins@),
{
    let mut i: usize = 0;
    while i < plugins.len()
        invariant
            i <= plugins.len(),
            forall|place: int| 0 <= place < i ==> has_sound_records(*(#[trigger] plugins[place])),
        decreases plugins.len() - i,
    {
        if !check_sound_records(&plugins[i]) {
            return false;
        }
        i = i + 1;
    }
    true
}

/// The plugins among `plugins` that are sources of the merge, in their order.
pub fn find_sources(plugins: &Vec<Arc<ParsedPlugin>>) -> (r: Vec<Arc<ParsedPlugin>>)
    ensures
        r@ == sources(plugins@),
{
    let mut found: Vec<Arc<ParsedPlugin>> = Vec::new();
    let ghost is_kept = |plugin: Arc<ParsedPlugin>| is_source(plugin);
    let mut i: usize = 0;
    while i < plugins.len()
        invariant
            i <= plugins.len(),
            is_kept == |plugin: Arc<ParsedPlugin>| is_source(plugin),
            found@ == plugins@.subrange(0, i as int).filter(is_kept),
        decreases plugins.len() - i,
    {
        let plugin = plugins[i].clone();
        proof {
            let done = plugins@.subrange(0, i as int);
            let more = plugins@.subrange(0, i + 1);
            assert(more == done.push(plugins@[i as int]));
            assert(more.drop_last() == done);
            reveal(Seq::filter);
        }
        if plugin.meta.meta_type != MetaType::MergedLands {
            found.push(plugin);
        }
        i = i + 1;
    }
    proof {
        assert(plugins@.subrange(0, plugins.len() as int) == plugins@);
    }
    found
}

/// Counts the texture records of `plugins`, as long as they are fewer than `limit`.
fn count_textures(plugins: &Vec<Arc<ParsedPlugin>>, limit: usize) -> (r: Option<usize>)
    ensures
        r.is_some() == (textures_among(plugins@, plugins@.len()) < limit),
        r matches Some(count) ==> count == textures_among(plugins@, plugins@.len()),
{
    let mut count: usize = 0;
    let mut i: usize = 0;
    while i < plugins.len()
        invariant
            i <= plugins.len(),
            count == textures_among(plugins@, i as nat),
            count < limit || i == 0,
        decreases plugins.len() - i,
    {
        let more = plugins[i].records.landscape_textures.len();
        if count >= limit || more >= limit - count {
            proof {
                lemma_textures_among_grows(plugins@, (i + 1) as nat, plugins@.len());
            }
            return None;
        }
        count = count + more;
        i = i + 1;
    }
    if count < limit {
        Some(count)
    } else {
        None
    }
}

/// Every cell has a source.
pub open spec fn has_sources(cells: Map<Vec2<i32>, LandscapeDiff>) -> bool {
    forall|coords: Vec2<i32>| #[trigger] cells.dom().contains(coords) ==> cells[coords].plugins@.len() > 0
}

/// Every cell of `plugin` is one of `cells`.
pub open spec fn covers(cells: Map<Vec2<i32>, LandscapeDiff>, plugin: LandmassDiff) -> bool {
    forall|coords: Vec2<i32>| #[trigger] plugin@.dom().contains(coords) ==> cells.dom().contains(coords)
}

/// The state of a merge once the differences of all plugins are merged and the seams of
/// the merged landmass are repaired.
pub struct MergedLands {
    parsed_plugins: ParsedPlugins,
    known_textures: KnownTextures,
    merged: LandmassDiff,
    modded: Vec<LandmassDiff>,
}

impl MergedLands {
    #[verifier::type_invariant]
    spec fn inv(self) -> bool {
        &&& self.known_textures.wf()
        &&& self.known_textures@.dom().len() + 1 < u16::MAX
        &&& textures_are_known(
            self.parsed_plugins.masters@,
            self.known_textures@,
            self.parsed_plugins.masters@.len(),
        )
        &&& self.merged.wf()
        &&& is_settled(self.merged@)
        &&& has_sources(self.merged@)
        &&& forall|place: int|
            0 <= place < self.modded@.len() ==> (#[trigger] self.modded@[place]).wf() && covers(
                self.merged@,
                self.modded@[place],
            )
    }

    /// The plugins that were merged.
    pub closed spec fn parsed(self) -> ParsedPlugins {
        self.parsed_plugins
    }

    /// The textures that are known.
    pub closed spec fn known(self) -> KnownTextures {
        self.known_textures
    }

    /// The merged landmass.
    pub closed spec fn merged(self) -> LandmassDiff {
        self.merged
    }

    /// The differences of the landmasses of the plugins from the reference landmass.
    pub closed spec fn modded(self) -> Seq<LandmassDiff> {
        self.modded@
    }

    /// The plugins that were merged.
    pub fn parsed_plugins(&self) -> (r: &ParsedPlugins)
        ensures
            *r == self.parsed(),
    {
        &self.parsed_plugins
    }

    /// The textures that are known.
    pub fn known_textures(&self) -> (r: &KnownTextures)
        ensures
            *r == self.known(),
            r.wf(),
    {
        proof {
            use_type_invariant(self);
        }
        &self.known_textures
    }

    /// The merged landmass: its cells are well formed, and its seams are repaired.
    pub fn merged_lands(&self) -> (r: &LandmassDiff)
        ensures
            *r == self.merged(),
            r.wf(),
            is_settled(r@),
    {
        proof {
            use_type_invariant(self);
        }
        &self.merged
    }

    /// Paints the pictures of the conflicts that the plugin at `place` has with the merged
    /// landmass in the cell at `coords`, if the plugin has that cell.
    pub fn conflicts(&self, place: usize, coords: Vec2<i32>) -> (r: Option<CellConflicts>)
        ensures
            r.is_some() == (place < self.modded().len() && self.modded()[place as int]@.dom().contains(
                coords,
            )),
            r matches Some(conflicts) ==> self.merged()@.dom().contains(coords)
                && are_cell_conflicts(
                conflicts,
                self.merged()@[coords],
                self.modded()[place as int]@[coords],
            ),
    {
        proof {
            use_type_invariant(self);
        }
        if place >= self.modded.len() {
            return None;
        }
        proof {
            assert(self.modded@[place as int].wf() && covers(self.merged@, self.modded@[place as int]));
        }
        match (self.merged.get(coords), self.modded[place].get(coords)) {
            (Some(merged_land), Some(land)) => Some(landscape_conflicts(merged_land, land)),
            _ => None,
        }
    }

    /// The differences of the landmasses of the plugins from the reference landmass: they are
    /// well formed, and the merged landmass has every cell of theirs.
    pub fn modded_landmasses(&self) -> (r: &Vec<LandmassDiff>)
        ensures
            r@ == self.modded(),
            forall|place: int|
                0 <= place < r@.len() ==> (#[trigger] r@[place]).wf() && covers(
                    self.merged()@,
                    r@[place],
                ),
    {
        proof {
            use_type_invariant(self);
        }
        &self.modded
    }
}

/// What the merge of `parsed_plugins` gives, where it goes through `trace`.
pub open spec fn is_merge_outcome(
    r: Result<MergedLands, MergeError>,
    trace: MergeTrace,
    parsed_plugins: ParsedPlugins,
) -> bool {
    &&& is_merge_trace(trace, parsed_plugins)
    &&& match r {
        Ok(lands) => {
            &&& merge_failure(trace, parsed_plugins).is_none()
            &&& lands.parsed() == parsed_plugins
            &&& lands.known()@ == trace.known
            &&& lands.modded() == trace.modded
            &&& lands.merged().plugin == trace.reference.plugin
            &&& is_repair_of(lands.merged()@, trace.unrepaired)
        },
        Err(error) => merge_failure(trace, parsed_plugins) == Some(error),
    }
}

/// Merges the landscapes of plugins: creates the reference landmass from the masters,
/// takes the difference of every plugin from it, merges the differences in the order of
/// the plugins, and repairs the seams of what is left. A plugin that is an earlier result
/// of a merge is left out.
pub fn merge_plugins(parsed_plugins: ParsedPlugins) -> (r: Result<MergedLands, MergeError>)
    ensures
        exists|trace: MergeTrace| #[trigger] is_merge_outcome(r, trace, parsed_plugins),
{
    let ghost mut trace = MergeTrace {
        master_landmasses: Seq::empty(),
        known_by_masters: Map::empty(),
        reference: arbitrary(),
        landmasses: Seq::empty(),
        known: Map::empty(),
        modded: Seq::empty(),
        unrepaired: Map::empty(),
    };
    let plugins = find_sources(&parsed_plugins.plugins);
    if !check_all_sound(&parsed_plugins.masters) || !check_all_sound(&plugins) {
        let r = Err(MergeError::UnsoundRecords);
        proof {
            assert(is_merge_outcome(r, trace, parsed_plugins));
        }
        return r;
    }
    let limit: usize = 65534;
    let num_master_textures = match count_textures(&parsed_plugins.masters, limit) {
        Some(count) => count,
        None => {
            let r = Err(MergeError::TooManyTextures);
            proof {
                assert(is_merge_outcome(r, trace, parsed_plugins));
            }
            return r;
        },
    };
    let num_plugin_textures = match count_textures(&plugins, limit - num_master_textures) {
        Some(count) => count,
        None => {
            let r = Err(MergeError::TooManyTextures);
            proof {
                assert(is_merge_outcome(r, trace, parsed_plugins));
            }
            return r;
        },
    };
    assert(textures_fit(parsed_plugins));

    let mut known_textures = KnownTextures::new();
    proof {
        assert(known_textures@.dom() =~= Set::<Seq<char>>::empty());
    }
    let reference = create_tes3_landmass(
        "ReferenceLandmass.esp",
        &parsed_plugins.masters,
        &mut known_textures,
    );
    proof {
        let master_landmasses = choose|landmasses: Seq<Landmass>| #[trigger]
            are_created_from(
                landmasses,
                parsed_plugins.masters@,
                known_textures@,
                parsed_plugins.masters@.len(),
            ) && reference.is_some() == can_stomp(landmasses) && (reference matches Some(merged)
                ==> merged.plugin.name@ == "ReferenceLandmass.esp"@ && is_stomped_state(
                merged@,
                landmasses,
                landmasses.len(),
                Seq::empty(),
            ));
        trace.master_landmasses = master_landmasses;
        trace.known_by_masters = known_textures@;
    }
    let reference = match reference {
        Some(reference) => reference,
        None => {
            let r = Err(MergeError::MastersDisagree);
            proof {
                assert(is_merge_outcome(r, trace, parsed_plugins));
            }
            return r;
        },
    };
    proof {
        trace.reference = reference;
    }

    let landmasses = create_landmasses(&plugins, &mut known_textures);
    proof {
        trace.landmasses = landmasses@;
        trace.known = known_textures@;
        assert(known_extends(trace.known_by_masters, trace.known));
        assert(textures_are_known(
            parsed_plugins.masters@,
            known_textures@,
            parsed_plugins.masters@.len(),
        ));
    }

    let mut modded: Vec<LandmassDiff> = Vec::new();
    let mut i: usize = 0;
    while i < landmasses.len()
        invariant
            i <= landmasses.len(),
            modded@.len() == i,
            forall|place: int|
                0 <= place < i ==> is_landmass_difference(
                    #[trigger] modded@[place],
                    landmasses@[place],
                    reference,
                ),
        decreases landmasses.len() - i,
    {
        let diff = find_landmass_diff(&landmasses[i], &reference);
        modded.push(diff);
        i = i + 1;
    }
    proof {
        trace.modded = modded@;
        assert(are_differences_of(trace.modded, trace.landmasses, trace.reference));
    }

    let mut merged = create_merged_lands_from_reference(&reference);
    let mut j: usize = 0;
    while j < modded.len()
        invariant
            j <= modded.len(),
            merged.wf(),
            merged.plugin == reference.plugin,
            has_sources(merged@),
            is_merged_until(merged@, reference, modded@, j as nat),
            forall|place: int| 0 <= place < modded@.len() ==> (#[trigger] modded@[place]).wf(),
            forall|place: int| 0 <= place < j ==> covers(merged@, #[trigger] modded@[place]),
        decreases modded.len() - j,
    {
        let ghost before = merged@;
        assert(modded@[j as int].wf());
        merge_landmass_into(&mut merged, &modded[j]);
        proof {
            let plugin = modded@[j as int];
            assert(is_merge_step(merged@, before, plugin));
            lemma_merged_until_step(merged@, before, reference, modded@, (j + 1) as nat);
            assert forall|coords: Vec2<i32>| #[trigger]
                merged@.dom().contains(coords) implies merged@[coords].plugins@.len() > 0 by {
                assert(is_merged_cell(merged@, before, plugin, coords));
            }
            assert forall|place: int| 0 <= place < j + 1 implies covers(
                merged@,
                #[trigger] modded@[place],
            ) by {
                assert forall|coords: Vec2<i32>| #[trigger]
                    modded@[place]@.dom().contains(coords) implies merged@.dom().contains(coords) by {
                    assert(is_merged_cell(merged@, before, plugin, coords));
                    if place < j {
                        assert(covers(before, modded@[place]));
                    }
                }
            }
        }
        j = j + 1;
    }
    proof {
        trace.unrepaired = merged@;
    }

    let num_cells = merged.len();
    if num_cells > usize::MAX / 268 {
        let r = Err(MergeError::TooManyCells);
        proof {
            assert(is_merge_outcome(r, trace, parsed_plugins));
        }
        return r;
    }
    let ghost unrepaired = merged@;
    repair_landmass_seams(&mut merged);
    proof {
        lemma_repair_is_settled(unrepaired, merged@);
        assert forall|place: int| 0 <= place < modded@.len() implies covers(
            merged@,
            #[trigger] modded@[place],
        ) by {
            assert(covers(unrepaired, modded@[place]));
        }
    }
    let lands = MergedLands { parsed_plugins, known_textures, merged, modded };
    let r = Ok(lands);
    proof {
        assert(is_merge_outcome(r, trace, lands.parsed()));
    }
    r
}

/// `painted` holds the cells of `cells`, with the conflicts painted that `plugin` has with
/// them.
pub open spec fn is_paint_step(
    painted: Map<Vec2<i32>, LandscapeDiff>,
    cells: Map<Vec2<i32>, LandscapeDiff>,
    plugin: LandmassDiff,
) -> bool {
    &&& painted.dom() == cells.dom()
    &&& forall|coords: Vec2<i32>| #[trigger]
        painted.dom().contains(coords) ==> if plugin@.dom().contains(coords) {
            is_painted(painted[coords], cells[coords], plugin@[coords])
        } else {
            painted[coords] == cells[coords]
        }
}

/// `painted` holds the cells of `cells`, with the conflicts painted that the first `count`
/// of `modded` have with them, one after the other.
pub open spec fn is_painted_until(
    painted: Map<Vec2<i32>, LandscapeDiff>,
    cells: Map<Vec2<i32>, LandscapeDiff>,
    modded: Seq<LandmassDiff>,
    count: nat,
) -> bool
    decreases count,
{
    if count == 0 {
        painted == cells
    } else {
        exists|before: Map<Vec2<i32>, LandscapeDiff>|
            is_painted_until(before, cells, modded, (count - 1) as nat) && #[trigger] is_paint_step(
                painted,
                before,
                modded[count - 1],
            )
    }
}

/// One more landmass leads from what the first of `modded` leave painted to what one more
/// leaves.
pub proof fn lemma_painted_until_step(
    painted: Map<Vec2<i32>, LandscapeDiff>,
    before: Map<Vec2<i32>, LandscapeDiff>,
    cells: Map<Vec2<i32>, LandscapeDiff>,
    modded: Seq<LandmassDiff>,
    count: nat,
)
    requires
        0 < count <= modded.len(),
        is_painted_until(before, cells, modded, (count - 1) as nat),
        is_paint_step(painted, before, modded[count - 1]),
    ensures
        is_painted_until(painted, cells, modded, count),
{
    let previous = (count - 1) as nat;
    assert(is_painted_until(before, cells, modded, previous) && is_paint_step(
        painted,
        before,
        modded[count - 1],
    ));
}

/// Two maps hold the same cells, with the same elevation and the same sources.
pub open spec fn same_heights_and_sources(
    after: Map<Vec2<i32>, LandscapeDiff>,
    before: Map<Vec2<i32>, LandscapeDiff>,
) -> bool {
    &&& after.dom() == before.dom()
    &&& forall|coords: Vec2<i32>| #[trigger]
        after.dom().contains(coords) ==> after[coords].height_map == before[coords].height_map
            && after[coords].plugins == before[coords].plugins
}

/// Whether one of the plugins brings the cell of every one of `cells`.
pub open spec fn cells_are_brought(cells: Map<Vec2<i32>, LandscapeDiff>, parsed_plugins: ParsedPlugins) -> bool {
    forall|coords: Vec2<i32>| #[trigger]
        cells.dom().contains(coords) ==> is_cell_brought(parsed_plugins, coords)
}

/// What is written for a merge.
pub struct MergedPlugin {
    /// The landscape records, each beside the last source of its cell.
    pub landmass: Landmass,
    /// The textures that the landscape records name.
    pub known_textures: KnownTextures,
    /// The merged cell records of all plugins.
    pub cells: MergedCells,
    /// The names of the plugins that the written plugin depends on.
    pub dependencies: Vec<String>,
}

/// What the end of a merge goes through on its way.
pub struct FinishTrace {
    /// The merged cells once the conflicts are painted.
    pub painted: Map<Vec2<i32>, LandscapeDiff>,
    /// The cells that are left once the landmass is cleaned.
    pub cleaned: Map<Vec2<i32>, LandscapeDiff>,
    /// The new indices of the textures that are in use.
    pub remapped: Map<u16, u16>,
}

/// Whether `trace` is what the end of the merge `lands` goes through, as far as it goes:
/// the conflicts of every plugin are painted where that is asked for, and the merged
/// landmass is cleaned.
pub open spec fn is_finish_trace(trace: FinishTrace, lands: MergedLands, add_debug_vertex_colors: bool) -> bool {
    &&& is_painted_until(
        trace.painted,
        lands.merged()@,
        lands.modded(),
        if add_debug_vertex_colors {
            lands.modded().len()
        } else {
            0
        },
    )
    &&& all_can_be_cleaned(trace.painted, lands.modded()) ==> is_cleaned(
        trace.cleaned,
        trace.painted,
        lands.modded(),
    )
}

/// Why the end of the merge `lands` that goes through `trace` fails, if it does.
pub open spec fn finish_failure(trace: FinishTrace, lands: MergedLands) -> Option<MergeError> {
    if !all_can_be_cleaned(trace.painted, lands.modded()) {
        Some(MergeError::UncleanCell)
    } else if !names_known_textures(trace.cleaned, lands.known()@.dom().len() as int) {
        Some(MergeError::UnknownTexture)
    } else if !cells_are_brought(trace.cleaned, lands.parsed()) {
        Some(MergeError::MissingCell)
    } else {
        None
    }
}

/// What the end of the merge `lands` gives, where it goes through `trace`: the textures
/// that are in use, the landscape records of the cells that are left, with their textures
/// remapped, the merged cell records, and the names of the plugins that all of these
/// depend on.
pub open spec fn is_finish_outcome(
    r: Result<MergedPlugin, MergeError>,
    trace: FinishTrace,
    lands: MergedLands,
    add_debug_vertex_colors: bool,
) -> bool {
    &&& is_finish_trace(trace, lands, add_debug_vertex_colors)
    &&& match r {
        Ok(plugin) => {
            &&& finish_failure(trace, lands).is_none()
            &&& plugin.known_textures.wf()
            &&& is_texture_cleaning(
                trace.remapped,
                plugin.known_textures@,
                lands.known()@,
                trace.cleaned,
            )
            &&& plugin.landmass.plugin == lands.merged().plugin
            &&& is_written_landmass(plugin.landmass@, trace.cleaned, trace.remapped)
            &&& plugin.cells.wf()
            &&& forall|coords: Vec2<i32>| #[trigger]
                plugin.cells@.dom().contains(coords) == is_cell_brought(lands.parsed(), coords)
            &&& are_dependencies(
                plugin.dependencies@,
                plugin.landmass,
                plugin.known_textures,
                plugin.cells,
            )
        },
        Err(error) => finish_failure(trace, lands) == Some(error),
    }
}

impl MergedLands {
    /// Ends the merge: paints the conflicts of every plugin where that is asked for, removes
    /// the cells that have nothing to say and the textures that are not in use, converts
    /// what is left to landscape records, merges the cell records, and determines the
    /// plugins that the result depends on.
    pub fn finish(self, add_debug_vertex_colors: bool) -> (r: Result<MergedPlugin, MergeError>)
        ensures
            exists|trace: FinishTrace| #[trigger]
                is_finish_outcome(r, trace, self, add_debug_vertex_colors),
    {
        proof {
            use_type_invariant(&self);
        }
        let ghost lands = self;
        let ghost mut trace = FinishTrace {
            painted: Map::empty(),
            cleaned: Map::empty(),
            remapped: Map::empty(),
        };
        let MergedLands { parsed_plugins, known_textures, merged, modded } = self;
        let mut known_textures = known_textures;
        let mut merged = merged;
        let ghost original = merged@;

        let mut i: usize = 0;
        while add_debug_vertex_colors && i < modded.len()
            invariant
                i <= modded.len(),
                add_debug_vertex_colors || i == 0,
                merged.wf(),
                merged.plugin == lands.merged().plugin,
                same_heights_and_sources(merged@, original),
                is_painted_until(merged@, original, modded@, i as nat),
                forall|place: int|
                    0 <= place < modded@.len() ==> (#[trigger] modded@[place]).wf() && covers(
                        original,
                        modded@[place],
                    ),
            decreases modded.len() - i,
        {
            let ghost before = merged@;
            proof {
                assert(modded@[i as int].wf() && covers(original, modded@[i as int]));
            }
            add_debug_vertex_colors_to_landmass(&mut merged, &modded[i]);
            proof {
                assert(is_paint_step(merged@, before, modded@[i as int]));
                lemma_painted_until_step(merged@, before, original, modded@, (i + 1) as nat);
            }
            i = i + 1;
        }
        proof {
            trace.painted = merged@;
            assert forall|x: int, y: int, p: Index2D| p.within(65) implies #[trigger] elevation(
                merged@,
                x,
                y,
                p,
            ) == elevation(original, x, y, p) by {
                if is_cell(x, y) && original.dom().contains(cell_at(x, y)) {
                    assert(merged@.dom().contains(cell_at(x, y)));
                }
            }
            lemma_settled_by_elevation(original, merged@);
            assert(original == lands.merged()@);
            assert(modded@ == lands.modded());
            assert(is_painted_until(trace.painted, original, modded@, i as nat));
        }

        if !can_clean_landmass_diff(&merged, &modded) {
            let r = Err(MergeError::UncleanCell);
            proof {
                assert(is_finish_outcome(r, trace, lands, add_debug_vertex_colors));
            }
            return r;
        }
        let ghost painted = merged@;
        clean_landmass_diff(&mut merged, &modded);
        proof {
            trace.cleaned = merged@;
            assert(is_finish_trace(trace, lands, add_debug_vertex_colors));
            assert forall|coords: Vec2<i32>| #[trigger] merged@.dom().contains(coords) implies merged@[coords].wf()
                && merged@[coords].plugins@.len() > 0 by {
                assert(painted.dom().contains(coords));
                assert(original.dom().contains(coords));
            }
        }

        let num_textures = known_textures.len();
        if !check_known_textures(&merged, num_textures) {
            let r = Err(MergeError::UnknownTexture);
            proof {
                assert(is_finish_outcome(r, trace, lands, add_debug_vertex_colors));
            }
            return r;
        }
        let ghost known = known_textures@;
        let remapped_textures = clean_known_textures(&parsed_plugins, &merged, &mut known_textures);
        proof {
            trace.remapped = remapped_textures@;
            assert forall|coords: Vec2<i32>| #[trigger]
                merged@.dom().contains(coords) implies names_remapped(
                merged@[coords],
                remapped_textures@,
            ) by {
                if merged@[coords].texture_indices.is_some() {
                    let textures = merged@[coords].texture_indices.unwrap();
                    assert forall|p: Index2D| p.within(16) implies remap(
                        remapped_textures@,
                        #[trigger] textures.value_at(p),
                    ).is_some() by {
                        let index = textures.value_at(p).0;
                        if index != 0 {
                            assert(merged@[coords].texture_indices.unwrap().value_at(p).0 <= known.dom().len());
                            assert(names_texture(merged@[coords], index as int));
                            assert(is_used_texture(merged@, index as int));
                            assert(remapped_textures@.dom().contains(index));
                        }
                    }
                }
            }
        }

        let landmass = convert_landmass_diff_to_landmass(&merged, &remapped_textures);
        let cells = merge_cells(&parsed_plugins);
        let dependencies = match find_dependencies(&landmass, &known_textures, &cells) {
            Some(dependencies) => dependencies,
            None => {
                let r = Err(MergeError::MissingCell);
                proof {
                    assert(!cells_are_brought(trace.cleaned, lands.parsed()));
                    assert(is_finish_outcome(r, trace, lands, add_debug_vertex_colors));
                }
                return r;
            },
        };
        let r = Ok(MergedPlugin { landmass, known_textures, cells, dependencies });
        proof {
            assert(cells_are_brought(trace.cleaned, lands.parsed()));
            assert(is_finish_outcome(r, trace, lands, add_debug_vertex_colors));
        }
        r
    }
}

/// What the merge of `parsed_plugins` gives from its start to its end, where `lands` is
/// what it has reached once the seams are repaired.
pub open spec fn is_whole_outcome(
    r: Result<MergedPlugin, MergeError>,
    lands: Result<MergedLands, MergeError>,
    parsed_plugins: ParsedPlugins,
    add_debug_vertex_colors: bool,
) -> bool {
    &&& exists|trace: MergeTrace| #[trigger] is_merge_outcome(lands, trace, parsed_plugins)
    &&& match lands {
        Ok(merged) => exists|trace: FinishTrace| #[trigger]
            is_finish_outcome(r, trace, merged, add_debug_vertex_colors),
        Err(error) => r matches Err(same) && same == error,
    }
}

/// Merges the landscapes of plugins from start to end: the plugins are merged, the seams of
/// the merged landmass are repaired, and the merge is ended.
pub fn merge_all(parsed_plugins: ParsedPlugins, add_debug_vertex_colors: bool) -> (r: Result<
    MergedPlugin,
    MergeError,
>)
    ensures
        exists|lands: Result<MergedLands, MergeError>| #[trigger]
            is_whole_outcome(r, lands, parsed_plugins, add_debug_vertex_colors),
{
    let lands = merge_plugins(parsed_plugins);
    let ghost reached = lands;
    let r = match lands {
        Ok(merged) => merged.finish(add_debug_vertex_colors),
        Err(error) => Err(error),
    };
    proof {
        assert(is_whole_outcome(r, reached, parsed_plugins, add_debug_vertex_colors));
    }
    r
}

} // verus!

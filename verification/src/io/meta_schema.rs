use vstd::prelude::*;

verus! {

/// The type of the meta file of a plugin.
#[derive(Clone, Copy, Debug, PartialEq, Eq, Structural)]
pub enum MetaType {
    /// A default [MetaType] created by the tool when no meta file existed.
    Auto,
    /// A patch [MetaType] used to control how the tool merges terrain.
    Patch,
    /// A marker [MetaType] so that the tool can ignore previous results of its own.
    MergedLands,
}

impl Default for MetaType {
    fn default() -> (r: Self)
        ensures
            r == MetaType::Auto,
    {
        MetaType::Auto
    }
}

/// The [ConflictStrategy] that the tool will use applying a merge strategy.
#[derive(Clone, Copy, Debug, PartialEq, Eq, Structural)]
pub enum ConflictStrategy {
    /// Choose the best strategy.
    Auto,
    /// Merge both sides. This is the default for most conflicts.
    Resolve,
    /// Use this side of the conflict. This is the default for terrain indices.
    Overwrite,
    /// Use the other side of the conflict, i.e., drop this change.
    Ignore,
}

impl Default for ConflictStrategy {
    fn default() -> (r: Self)
        ensures
            r == ConflictStrategy::Auto,
    {
        ConflictStrategy::Auto
    }
}

/// The [MergeSettings] control how a part of a plugin should be processed.
#[derive(Clone, Copy, Debug, PartialEq, Eq, Structural)]
pub struct MergeSettings {
    /// If `included` is `false` then any changes from the plugin will be dropped.
    pub included: bool,
    /// The [ConflictStrategy] to use for any conflicts found during a merge.
    pub conflict_strategy: ConflictStrategy,
}

impl Default for MergeSettings {
    /// The default [MergeSettings] are `included: true` and
    /// the [ConflictStrategy::Auto] `conflict_strategy`.
    fn default() -> (r: Self)
        ensures
            r == (MergeSettings { included: true, conflict_strategy: ConflictStrategy::Auto }),
    {
        Self { included: default_bool_true(), conflict_strategy: ConflictStrategy::Auto }
    }
}

/// A meta file describing how a plugin should be processed.
#[derive(Clone, Copy, Debug, PartialEq, Eq, Structural)]
pub struct PluginMeta {
    /// The [MetaType] of this plugin.
    pub meta_type: MetaType,
    /// The [MergeSettings] for the height map and associated vertex normals.
    pub height_map: MergeSettings,
    /// The [MergeSettings] for the vertex colors.
    pub vertex_colors: MergeSettings,
    /// The [MergeSettings] for the texture indices.
    pub texture_indices: MergeSettings,
    /// The [MergeSettings] for the world map data.
    pub world_map_data: MergeSettings,
}

impl PluginMeta {
    /// The meta data of a plugin that has no meta file.
    pub open spec fn initial() -> PluginMeta {
        let settings = MergeSettings { included: true, conflict_strategy: ConflictStrategy::Auto };
        PluginMeta {
            meta_type: MetaType::Auto,
            height_map: settings,
            vertex_colors: settings,
            texture_indices: settings,
            world_map_data: settings,
        }
    }
}

impl Default for PluginMeta {
    fn default() -> (r: Self)
        ensures
            r == PluginMeta::initial(),
    {
        let settings = MergeSettings { included: true, conflict_strategy: ConflictStrategy::Auto };
        PluginMeta {
            meta_type: MetaType::Auto,
            height_map: settings,
            vertex_colors: settings,
            texture_indices: settings,
            world_map_data: settings,
        }
    }
}

/// Helper function providing a default `true` value.
pub fn default_bool_true() -> (r: bool)
    ensures
        r,
{
    true
}

/// Returns `true` if the settings are the default ones, which a meta file leaves out.
pub fn skip_default(field: &MergeSettings) -> (r: bool)
    ensures
        r == (*field == (MergeSettings {
            included: true,
            conflict_strategy: ConflictStrategy::Auto,
        })),
{
    field.included && field.conflict_strategy == ConflictStrategy::Auto
}

} // verus!

use crate::land::grid_access::Index2D;
use crate::land::terrain_map::{LandData, TerrainMap, Vec3};
use crate::land::textures::IndexVTEX;
use vstd::prelude::*;

verus! {

/// The flags of a record, with what is read of them.
#[derive(Clone, Copy, Debug, PartialEq, Eq, Hash, Structural)]
pub struct ObjectFlags {
    /// The flags as the record stores them.
    pub bits: u32,
    /// Whether the flags mark the record as deleted.
    pub deleted: bool,
}

impl ObjectFlags {
    /// Whether two records have the same flags.
    pub fn same(&self, other: &ObjectFlags) -> (r: bool)
        ensures
            r == (*self == *other),
    {
        self.bits == other.bits && self.deleted == other.deleted
    }
}

/// The kinds of data that a landscape record says it holds.
#[derive(Clone, Copy, Debug, PartialEq, Eq, Hash, Structural)]
pub struct LandscapeFlags {
    pub uses_vertex_heights_and_normals: bool,
    pub uses_vertex_colors: bool,
    pub uses_textures: bool,
    /// A flag of which nothing is known but that records that are written carry it.
    pub unknown: bool,
}

impl LandscapeFlags {
    /// Whether a record with these flags holds a sample of the world map: it does where
    /// it holds any other kind of data.
    #[verifier::when_used_as_spec(spec_uses_world_map_data)]
    pub fn uses_world_map_data(&self) -> (r: bool)
        ensures
            r == self.spec_uses_world_map_data(),
    {
        self.uses_vertex_heights_and_normals || self.uses_vertex_colors || self.uses_textures
    }

    /// Whether a record with these flags holds a sample of the world map.
    pub open spec fn spec_uses_world_map_data(&self) -> bool {
        self.uses_vertex_heights_and_normals || self.uses_vertex_colors || self.uses_textures
    }

    /// The kinds of data that a landscape holds, as seen by a merge.
    pub open spec fn land_data(self) -> LandData {
        LandData {
            vertex_colors: self.uses_vertex_colors,
            textures: self.uses_textures,
            vertex_heights: self.uses_vertex_heights_and_normals,
            vertex_normals: self.uses_vertex_heights_and_normals,
            world_map: self.uses_world_map_data(),
        }
    }

    /// The kinds of data that a landscape holds, as seen by a merge.
    pub fn to_land_data(self) -> (new: LandData)
        ensures
            new == self.land_data(),
    {
        let mut new = LandData::empty();

        if self.uses_vertex_heights_and_normals {
            new.vertex_heights = true;
            new.vertex_normals = true;
        }

        if self.uses_vertex_colors {
            new.vertex_colors = true;
        }

        if self.uses_textures {
            new.textures = true;
        }

        if self.uses_world_map_data() {
            new.world_map = true;
        }

        new
    }

    /// Adds the kinds of data of `other`.
    pub fn insert(&mut self, other: LandscapeFlags)
        ensures
            final(self).uses_vertex_heights_and_normals == (old(self).uses_vertex_heights_and_normals || other.uses_vertex_heights_and_normals),
            final(self).uses_vertex_colors == (old(self).uses_vertex_colors
                || other.uses_vertex_colors),
            final(self).uses_textures == (old(self).uses_textures || other.uses_textures),
            final(self).unknown == (old(self).unknown || other.unknown),
    {
        self.uses_vertex_heights_and_normals = self.uses_vertex_heights_and_normals
            || other.uses_vertex_heights_and_normals;
        self.uses_vertex_colors = self.uses_vertex_colors || other.uses_vertex_colors;
        self.uses_textures = self.uses_textures || other.uses_textures;
        self.unknown = self.unknown || other.unknown;
    }
}

/// The elevation of a landscape as it is stored: the height of the first vertex, and
/// for every vertex the step that leads to it.
pub struct VertexHeights {
    /// The height of the first vertex before its own step, in units of eight.
    pub offset: i32,
    /// The step to each vertex: in the first column from the vertex above it, and in every
    /// other column from the vertex to its left.
    pub data: TerrainMap<i8, 65>,
}

/// One landscape record of a plugin: the terrain of one cell.
pub struct Landscape {
    pub flags: ObjectFlags,
    pub grid: (i32, i32),
    pub landscape_flags: LandscapeFlags,
    pub vertex_heights: Option<VertexHeights>,
    pub vertex_normals: Option<TerrainMap<[i8; 3], 65>>,
    pub vertex_colors: Option<TerrainMap<[u8; 3], 65>>,
    pub texture_indices: Option<TerrainMap<u16, 16>>,
    pub world_map_data: Option<TerrainMap<u8, 9>>,
}

impl VertexHeights {
    /// A copy of the stored elevation.
    pub fn duplicate(&self) -> (r: Self)
        ensures
            r.offset == self.offset,
            r.data@ == self.data@,
    {
        VertexHeights { offset: self.offset, data: self.data.duplicate() }
    }
}

/// A copy of an optional grid.
pub fn duplicate_grid<V: Copy, const T: usize>(grid: &Option<TerrainMap<V, T>>) -> (r: Option<
    TerrainMap<V, T>,
>)
    ensures
        r.is_some() == grid.is_some(),
        r matches Some(copy) ==> copy@ == grid.unwrap()@,
{
    match grid {
        Some(grid) => Some(grid.duplicate()),
        None => None,
    }
}

impl Landscape {
    /// The two records hold the same: they agree in all but the place where their grids
    /// are kept.
    pub open spec fn same_as(self, other: Landscape) -> bool {
        &&& self.flags == other.flags
        &&& self.grid == other.grid
        &&& self.landscape_flags == other.landscape_flags
        &&& self.vertex_heights.is_some() == other.vertex_heights.is_some()
        &&& self.vertex_heights matches Some(stored) ==> stored.offset
            == other.vertex_heights.unwrap().offset && stored.data@
            == other.vertex_heights.unwrap().data@
        &&& self.vertex_normals.is_some() == other.vertex_normals.is_some()
        &&& self.vertex_normals matches Some(grid) ==> grid@ == other.vertex_normals.unwrap()@
        &&& self.vertex_colors.is_some() == other.vertex_colors.is_some()
        &&& self.vertex_colors matches Some(grid) ==> grid@ == other.vertex_colors.unwrap()@
        &&& self.texture_indices.is_some() == other.texture_indices.is_some()
        &&& self.texture_indices matches Some(grid) ==> grid@ == other.texture_indices.unwrap()@
        &&& self.world_map_data.is_some() == other.world_map_data.is_some()
        &&& self.world_map_data matches Some(grid) ==> grid@ == other.world_map_data.unwrap()@
    }

    /// A copy of the record.
    pub fn duplicate(&self) -> (r: Self)
        ensures
            r.same_as(*self),
    {
        Landscape {
            flags: self.flags,
            grid: self.grid,
            landscape_flags: self.landscape_flags,
            vertex_heights: match &self.vertex_heights {
                Some(stored) => Some(stored.duplicate()),
                None => None,
            },
            vertex_normals: duplicate_grid(&self.vertex_normals),
            vertex_colors: duplicate_grid(&self.vertex_colors),
            texture_indices: duplicate_grid(&self.texture_indices),
            world_map_data: duplicate_grid(&self.world_map_data),
        }
    }

    /// The vertex normal that the record holds at `coords`.
    pub open spec fn normal_at(self, coords: Index2D) -> Vec3<i8> {
        let value = self.vertex_normals.unwrap()[coords];
        Vec3 { x: value[0], y: value[1], z: value[2] }
    }

    /// The vertex color that the record holds at `coords`.
    pub open spec fn color_at(self, coords: Index2D) -> Vec3<u8> {
        let value = self.vertex_colors.unwrap()[coords];
        Vec3 { x: value[0], y: value[1], z: value[2] }
    }

    /// The texture that the record names at `coords`.
    pub open spec fn texture_at(self, coords: Index2D) -> IndexVTEX {
        IndexVTEX(self.texture_indices.unwrap()[coords])
    }

    /// The sample of the world map that the record holds at `coords`.
    pub open spec fn world_map_at(self, coords: Index2D) -> u8 {
        self.world_map_data.unwrap()[coords]
    }
}

} // verus!

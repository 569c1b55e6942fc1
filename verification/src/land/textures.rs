use crate::io::parsed_plugins::ParsedPlugin;
use crate::land::landscape::ObjectFlags;
use crate::merge::relative_to::{lemma_wrap_u16_exact, wrap_u16, RelativeTo};
use itertools::Itertools;
use std::sync::Arc;
use vstd::arithmetic::div_mod::lemma_mod_multiples_vanish;
use vstd::prelude::*;

verus! {

/// The index stored in the texture grid of a landscape.
/// Index 0 is the default texture; every other index is one more than the [IndexLTEX]
/// of the texture record it names.
#[derive(Clone, Copy, Debug, PartialEq, Eq, Hash, Structural)]
pub struct IndexVTEX(pub u16);

impl IndexVTEX {
    pub fn new(value: u16) -> (r: Self)
        ensures
            r.0 == value,
    {
        Self(value)
    }

    pub fn as_u16(&self) -> (r: u16)
        ensures
            r == self.0,
    {
        self.0
    }
}

impl Default for IndexVTEX {
    fn default() -> (r: Self)
        ensures
            r.0 == 0,
    {
        Self(0)
    }
}

impl RelativeTo for IndexVTEX {
    type Delta = i32;

    open spec fn base() -> Self {
        IndexVTEX(0)
    }

    fn base_value() -> (v: Self) {
        IndexVTEX(0)
    }

    open spec fn zero() -> i32 {
        0
    }

    open spec fn difference(lhs: Self, rhs: Self) -> i32 {
        (lhs.0 - rhs.0) as i32
    }

    open spec fn sum(lhs: Self, rhs: i32) -> Self {
        IndexVTEX(wrap_u16(lhs.0 + rhs))
    }

    fn subtract(lhs: Self, rhs: Self) -> (d: i32) {
        lhs.0 as i32 - rhs.0 as i32
    }

    fn add(lhs: Self, rhs: i32) -> (v: Self) {
        let shifted: u64 = (lhs.0 as i64 + rhs as i64 + 0x1_0000_0000) as u64;
        proof {
            lemma_mod_multiples_vanish(0x1_0000, lhs.0 + rhs, 65536);
        }
        IndexVTEX((shifted % 65536) as u16)
    }

    fn no_difference() -> (d: i32) {
        0
    }

    fn is_zero(delta: i32) -> (b: bool) {
        delta == 0
    }

    proof fn lemma_add_subtract(value: Self, reference: Self) {
        lemma_wrap_u16_exact(value.0 as int);
    }

    proof fn lemma_zero_difference(value: Self, reference: Self) {
    }
}

/// The index stored in each texture record.
#[derive(Clone, Copy, Debug, PartialEq, Eq, Hash, Structural)]
pub struct IndexLTEX(pub u16);

impl IndexLTEX {
    pub fn new(value: u16) -> (r: Self)
        ensures
            r.0 == value,
    {
        Self(value)
    }

    pub fn as_u16(&self) -> (r: u16)
        ensures
            r == self.0,
    {
        self.0
    }

    /// The index by which a texture grid names this texture record: one more than the record's
    /// own, since a texture grid keeps 0 for the default texture.
    /// There is none for the last record index that fits in 16 bits.
    pub fn to_vtex(self) -> (r: Option<IndexVTEX>)
        ensures
            self.0 < u16::MAX ==> r == Some(IndexVTEX((self.0 + 1) as u16)),
            self.0 == u16::MAX ==> r.is_none(),
    {
        if self.0 < u16::MAX {
            Some(IndexVTEX(self.0 + 1))
        } else {
            None
        }
    }

    /// The index of the texture record that `value` names in a texture grid.
    /// There is none for the default texture.
    pub fn try_from_vtex(value: IndexVTEX) -> (r: Option<IndexLTEX>)
        ensures
            value.0 == 0 ==> r.is_none(),
            value.0 > 0 ==> r == Some(IndexLTEX((value.0 - 1) as u16)),
    {
        if value.0 == 0 {
            None
        } else {
            Some(IndexLTEX(value.0 - 1))
        }
    }
}

impl Default for IndexLTEX {
    fn default() -> (r: Self)
        ensures
            r.0 == 0,
    {
        Self(0)
    }
}

/// One texture record of a plugin.
pub struct LandscapeTexture {
    pub flags: ObjectFlags,
    /// The name by which the texture is known to all plugins.
    pub id: String,
    /// The index by which the landscapes of the plugin name the texture.
    pub index: Option<u32>,
    /// The file that holds the texture.
    pub texture: Option<String>,
}

impl LandscapeTexture {
    /// A copy of the record.
    pub fn duplicate(&self) -> (r: Self)
        ensures
            r == *self,
    {
        LandscapeTexture {
            flags: self.flags,
            id: self.id.clone(),
            index: self.index,
            texture: match &self.texture {
                Some(texture) => Some(texture.clone()),
                None => None,
            },
        }
    }
}

/// The new index of every texture index that is left, kept in a `hashbrown::HashMap`.
#[verifier::external_body]
pub struct IndexMap {
    inner: hashbrown::HashMap<u16, u16>,
}

/// The new index that an [IndexMap] holds for every texture index that is left.
pub uninterp spec fn index_entries(map: IndexMap) -> Map<u16, u16>;

/// `hashbrown::HashMap::with_capacity`: the new map holds nothing.
#[verifier::external_body]
fn index_map_with_capacity(capacity: usize) -> (map: IndexMap)
    ensures
        index_entries(map).dom() == Set::<u16>::empty(),
{
    IndexMap { inner: hashbrown::HashMap::with_capacity(capacity) }
}

/// `hashbrown::HashMap::insert`: afterwards the map holds `new` under `index` and is
/// otherwise as before; what it held under `index` before, if anything, is handed back.
#[verifier::external_body]
fn index_map_insert(map: &mut IndexMap, index: u16, new: u16) -> (r: Option<u16>)
    ensures
        index_entries(*final(map)) == index_entries(*old(map)).insert(index, new),
        r == index_entries(*old(map)).get(index),
{
    map.inner.insert(index, new)
}

/// `hashbrown::HashMap::get`: what the map holds under `index`, if anything.
#[verifier::external_body]
fn index_map_get(map: &IndexMap, index: u16) -> (r: Option<u16>)
    ensures
        r == index_entries(*map).get(index),
{
    map.inner.get(&index).copied()
}

/// The number of the first `count` texture indices that are in use.
pub open spec fn used_among(used_ids: Seq<bool>, count: nat) -> nat
    decreases count,
{
    if count == 0 {
        0
    } else {
        let rest = used_among(used_ids, (count - 1) as nat);
        if used_ids[count - 1] {
            rest + 1
        } else {
            rest
        }
    }
}

/// The index that `index` is remapped to where `new_indices` holds the new indices: the
/// default texture stays what it is, and every other index is remapped where it has a new
/// index.
pub open spec fn remap(new_indices: Map<u16, u16>, index: IndexVTEX) -> Option<IndexVTEX> {
    if index.0 == 0 {
        Some(index)
    } else if new_indices.dom().contains(index.0) {
        Some(IndexVTEX(new_indices[index.0]))
    } else {
        None
    }
}

/// [RemappedTextures] allows remapping terrain indices.
/// Supports up to [u16::MAX] textures.
pub struct RemappedTextures {
    pub inner: IndexMap,
}

impl RemappedTextures {
    /// The new index of every texture index that is remapped.
    pub open spec fn view(self) -> Map<u16, u16> {
        index_entries(self.inner)
    }

    /// The index that `index` is remapped to.
    pub open spec fn remapped(self, index: IndexVTEX) -> Option<IndexVTEX> {
        remap(self@, index)
    }

    fn with_capacity(len: usize) -> (r: Self)
        requires
            len < u16::MAX,
        ensures
            r@ == Map::<u16, u16>::empty(),
    {
        let r = Self { inner: index_map_with_capacity(len) };
        assert(r@ =~= Map::<u16, u16>::empty());
        r
    }

    /// Creates a new [RemappedTextures] with size to hold [KnownTextures].
    pub fn new(known_textures: &KnownTextures) -> (r: Self)
        requires
            known_textures@.dom().len() < u16::MAX,
        ensures
            r@ == Map::<u16, u16>::empty(),
    {
        Self::with_capacity(known_textures.len())
    }

    /// Creates a new [RemappedTextures] from the `used_ids`: every index that is in use is
    /// remapped to the number of indices in use before it, so that the indices that are
    /// left have no gaps.
    pub fn from(used_ids: &Vec<bool>) -> (r: Self)
        requires
            used_ids.len() < u16::MAX,
        ensures
            forall|index: u16| #[trigger]
                r@.dom().contains(index) == (index < used_ids.len() && used_ids[index as int]),
            forall|index: u16| #[trigger]
                r@.dom().contains(index) ==> r@[index] == used_among(used_ids@, index as nat),
    {
        let mut new = Self::with_capacity(used_ids.len());

        let mut new_id: u16 = 0;
        let mut idx: usize = 0;
        while idx < used_ids.len()
            invariant
                idx <= used_ids.len(),
                used_ids.len() < u16::MAX,
                new_id == used_among(used_ids@, idx as nat),
                new_id <= idx,
                forall|index: u16| #[trigger]
                    new@.dom().contains(index) == (index < idx && used_ids[index as int]),
                forall|index: u16| #[trigger]
                    new@.dom().contains(index) ==> new@[index] == used_among(
                        used_ids@,
                        index as nat,
                    ),
            decreases used_ids.len() - idx,
        {
            let ghost before = new@;
            if used_ids[idx] {
                index_map_insert(&mut new.inner, idx as u16, new_id);
                new_id = new_id + 1;
            }
            proof {
                assert forall|index: u16| #[trigger]
                    new@.dom().contains(index) == (index < idx + 1 && used_ids[index as int]) by {
                    assert(before.dom().contains(index) == (index < idx
                        && used_ids[index as int]));
                }
                assert forall|index: u16| #[trigger] new@.dom().contains(index) implies new@[index]
                    == used_among(used_ids@, index as nat) by {
                    if index != idx {
                        assert(before.dom().contains(index));
                    }
                }
            }
            idx = idx + 1;
        }

        new
    }

    /// Try to remap `index`.
    pub fn try_remapped_index(&self, index: IndexVTEX) -> (r: Option<IndexVTEX>)
        ensures
            r == self.remapped(index),
    {
        if index.0 == 0 {
            Some(index)
        } else {
            match index_map_get(&self.inner, index.0) {
                Some(new) => Some(IndexVTEX::new(new)),
                None => None,
            }
        }
    }

    /// Remap `index`, which has to have a new index.
    pub fn remapped_index(&self, index: IndexVTEX) -> (r: IndexVTEX)
        requires
            self.remapped(index).is_some(),
        ensures
            Some(r) == self.remapped(index),
    {
        match self.try_remapped_index(index) {
            Some(new) => new,
            None => index,
        }
    }

    /// Notes that `index` is remapped to `new`, and tells whether `index` was not remapped
    /// before.
    pub fn insert(&mut self, index: IndexVTEX, new: IndexVTEX) -> (r: bool)
        ensures
            final(self)@ == old(self)@.insert(index.0, new.0),
            r == !old(self)@.dom().contains(index.0),
    {
        index_map_insert(&mut self.inner, index.0, new.0).is_none()
    }
}

/// A [LandscapeTexture] and the [ParsedPlugin] that last added or modified it.
pub struct KnownTexture {
    pub inner: LandscapeTexture,
    pub plugin: Arc<ParsedPlugin>,
}

/// Whether the record `texture` names a file, and another than the record `known` names.
pub open spec fn names_other_file(texture: LandscapeTexture, known: LandscapeTexture) -> bool {
    texture.texture matches Some(new) && (known.texture matches Some(old) ==> old@ != new@)
}

/// The known texture `known` once the record `texture` of `plugin` has updated it: where the
/// record names another file, the known texture names that file and notes the plugin.
pub open spec fn updated_texture(
    known: KnownTexture,
    plugin: Arc<ParsedPlugin>,
    texture: LandscapeTexture,
) -> KnownTexture {
    if names_other_file(texture, known.inner) {
        KnownTexture { inner: LandscapeTexture { texture: texture.texture, ..known.inner }, plugin }
    } else {
        known
    }
}

/// Whether a texture record has an index below the largest of 16 bits, so that a texture
/// grid can name it.
pub open spec fn has_known_index(texture: LandscapeTexture) -> bool {
    texture.index matches Some(index) && index < u16::MAX
}

/// Whether a texture record has an index, and one of 16 bits.
pub open spec fn has_texture_index(texture: LandscapeTexture) -> bool {
    texture.index matches Some(index) && index <= u16::MAX
}

/// Returns the `index` of the [LandscapeTexture], which has to have one of 16 bits.
pub fn texture_index(texture: &LandscapeTexture) -> (r: IndexLTEX)
    requires
        has_texture_index(*texture),
    ensures
        r.0 == texture.index.unwrap(),
{
    match texture.index {
        Some(index) => IndexLTEX::new(index as u16),
        None => IndexLTEX::new(0),
    }
}

impl KnownTexture {
    /// The `id` of the [LandscapeTexture].
    /// This uniquely identifies the [KnownTexture] within the [KnownTextures].
    pub fn id(&self) -> (r: &String)
        ensures
            *r == self.inner.id,
    {
        &self.inner.id
    }

    /// The `index` of the [LandscapeTexture].
    /// This uniquely identifies the texture within the texture grid of a landscape.
    pub fn index(&self) -> (r: IndexLTEX)
        requires
            has_texture_index(self.inner),
        ensures
            r.0 == self.inner.index.unwrap(),
    {
        texture_index(&self.inner)
    }

    /// Clones the [LandscapeTexture].
    pub fn clone_landscape_texture(&self) -> (r: LandscapeTexture)
        ensures
            r == self.inner,
    {
        self.inner.duplicate()
    }
}

/// The textures that are known, each under its `id`, kept in a `hashbrown::HashMap`.
#[verifier::external_body]
pub struct TextureTable {
    inner: hashbrown::HashMap<String, KnownTexture>,
}

/// The textures that a [TextureTable] holds, each under its `id`.
pub uninterp spec fn texture_entries(table: TextureTable) -> Map<Seq<char>, KnownTexture>;

/// `hashbrown::HashMap::new`: the new table holds nothing.
#[verifier::external_body]
fn texture_table_new() -> (table: TextureTable)
    ensures
        texture_entries(table).dom() == Set::<Seq<char>>::empty(),
{
    TextureTable { inner: hashbrown::HashMap::new() }
}

/// `hashbrown::HashMap::len`: the number of textures that the table holds.
#[verifier::external_body]
fn texture_table_len(table: &TextureTable) -> (r: usize)
    ensures
        r == texture_entries(*table).dom().len(),
{
    table.inner.len()
}

/// `hashbrown::HashMap::get`: a reference to what the table holds under `id`, if anything.
#[verifier::external_body]
fn texture_table_get<'a>(table: &'a TextureTable, id: &String) -> (r: Option<&'a KnownTexture>)
    ensures
        r.is_some() == texture_entries(*table).dom().contains(id@),
        r matches Some(texture) ==> *texture == texture_entries(*table)[id@],
{
    table.inner.get(id)
}

/// `hashbrown::HashMap::insert`: afterwards the table holds `texture` under `id` and is
/// otherwise as before; what it held under `id` before, if anything, is handed back.
#[verifier::external_body]
fn texture_table_insert(table: &mut TextureTable, id: String, texture: KnownTexture) -> (r: Option<
    KnownTexture,
>)
    ensures
        texture_entries(*final(table)) == texture_entries(*old(table)).insert(id@, texture),
        r == texture_entries(*old(table)).get(id@),
{
    table.inner.insert(id, texture)
}

/// `hashbrown::HashMap::remove`: afterwards the table holds nothing under `id` and is
/// otherwise as before; what it held under `id` before, if anything, is handed back.
#[verifier::external_body]
fn texture_table_remove(table: &mut TextureTable, id: &String) -> (r: Option<KnownTexture>)
    ensures
        texture_entries(*final(table)) == texture_entries(*old(table)).remove(id@),
        r == texture_entries(*old(table)).get(id@),
{
    table.inner.remove(id)
}

/// `hashbrown::HashMap::keys`: the `id`s under which the table holds something, each
/// once, in no order that could be told beforehand.
#[verifier::external_body]
fn texture_table_keys(table: &TextureTable) -> (r: Vec<String>)
    ensures
        r@.map_values(|id: String| id@).no_duplicates(),
        forall|id: Seq<char>|
            r@.map_values(|id: String| id@).contains(id) == texture_entries(*table).dom().contains(
                id,
            ),
{
    table.inner.keys().cloned().collect()
}

/// `itertools::Itertools::sorted_by_key`, with the index as the key: the same pairs of an
/// index and a place, ordered by the index.
#[verifier::external_body]
fn sorted_by_index(textures: Vec<(u16, usize)>) -> (r: Vec<(u16, usize)>)
    ensures
        r@.to_multiset() == textures@.to_multiset(),
        forall|i: int, j: int| 0 <= i <= j < r.len() ==> r[i].0 <= r[j].0,
{
    textures.into_iter().sorted_by_key(|texture| texture.0).collect()
}

/// [KnownTextures] stores a map of [KnownTexture] accessible by the [KnownTexture::id].
/// Supports up to [u16::MAX] textures.
pub struct KnownTextures {
    pub inner: TextureTable,
}

impl KnownTextures {
    /// The textures that are known, each under its `id`.
    pub open spec fn view(self) -> Map<Seq<char>, KnownTexture> {
        texture_entries(self.inner)
    }

    /// Every texture that is known has an index that a texture grid can name.
    pub open spec fn wf(self) -> bool {
        forall|id: Seq<char>| #[trigger] self@.dom().contains(id) ==> has_known_index(self@[id].inner)
    }

    pub fn new() -> (r: KnownTextures)
        ensures
            r@ == Map::<Seq<char>, KnownTexture>::empty(),
            r.wf(),
    {
        let r = Self { inner: texture_table_new() };
        assert(r@ =~= Map::<Seq<char>, KnownTexture>::empty());
        r
    }

    /// The number of [KnownTexture].
    pub fn len(&self) -> (r: usize)
        ensures
            r == self@.dom().len(),
    {
        texture_table_len(&self.inner)
    }

    /// The texture that is known under `id`, if there is one.
    pub fn get(&self, id: &String) -> (r: Option<&KnownTexture>)
        ensures
            r.is_some() == self@.dom().contains(id@),
            r matches Some(texture) ==> *texture == self@[id@],
    {
        texture_table_get(&self.inner, id)
    }

    /// The `id`s of the textures, each once, in no order that could be told beforehand.
    pub fn all_ids(&self) -> (r: Vec<String>)
        ensures
            r@.map_values(|id: String| id@).no_duplicates(),
            forall|id: Seq<char>|
                r@.map_values(|id: String| id@).contains(id) == self@.dom().contains(id),
    {
        texture_table_keys(&self.inner)
    }

    /// The `id`s of the textures, each once, ordered by the index of the textures.
    pub fn sorted(&self) -> (r: Vec<String>)
        requires
            self.wf(),
        ensures
            r@.map_values(|id: String| id@).no_duplicates(),
            forall|id: Seq<char>|
                r@.map_values(|id: String| id@).contains(id) == self@.dom().contains(id),
            forall|i: int, j: int|
                0 <= i <= j < r.len() ==> self@[r[i]@].inner.index.unwrap()
                    <= self@[r[j]@].inner.index.unwrap(),
    {
        let ids = texture_table_keys(&self.inner);
        let ghost names = ids@.map_values(|id: String| id@);
        let mut textures: Vec<(u16, usize)> = Vec::new();
        let mut i: usize = 0;
        while i < ids.len()
            invariant
                i <= ids.len(),
                self.wf(),
                names == ids@.map_values(|id: String| id@),
                forall|id: Seq<char>| names.contains(id) == self@.dom().contains(id),
                textures.len() == i,
                forall|k: int|
                    0 <= k < i ==> (#[trigger] textures[k]).1 == k && textures[k].0
                        == self@[names[k]].inner.index.unwrap(),
            decreases ids.len() - i,
        {
            proof {
                assert(names[i as int] == ids[i as int]@);
                assert(names.contains(ids[i as int]@));
            }
            let index = match self.get(&ids[i]) {
                Some(texture) => texture.index().as_u16(),
                None => 0,
            };
            textures.push((index, i));
            i = i + 1;
        }
        let sorted = sorted_by_index(textures);
        proof {
            textures@.to_multiset_ensures();
            sorted@.to_multiset_ensures();
            assert(textures@.no_duplicates());
            textures@.lemma_multiset_has_no_duplicates();
            sorted@.lemma_multiset_has_no_duplicates_conv();
            assert forall|k: int| 0 <= k < sorted.len() implies (#[trigger] sorted[k]).1 < ids.len()
                && sorted[k] == textures[sorted[k].1 as int] by {
                assert(sorted@.contains(sorted[k]));
                assert(sorted@.to_multiset().count(sorted[k]) > 0);
                assert(textures@.contains(sorted[k]));
                let m = choose|m: int| 0 <= m < textures.len() && textures[m] == sorted[k];
                assert(textures[m].1 == m);
            }
        }
        let mut r: Vec<String> = Vec::new();
        let mut k: usize = 0;
        while k < sorted.len()
            invariant
                k <= sorted.len(),
                r.len() == k,
                sorted.len() == ids.len(),
                forall|m: int| 0 <= m < sorted.len() ==> (#[trigger] sorted[m]).1 < ids.len(),
                forall|m: int| 0 <= m < k ==> (#[trigger] r[m])@ == names[sorted[m].1 as int],
                names == ids@.map_values(|id: String| id@),
            decreases sorted.len() - k,
        {
            proof {
                assert(sorted[k as int].1 < ids.len());
            }
            r.push(ids[sorted[k].1].clone());
            k = k + 1;
        }
        proof {
            let views = r@.map_values(|id: String| id@);
            assert forall|a: int, b: int| 0 <= a < views.len() && 0 <= b < views.len() && a
                != b implies views[a] != views[b] by {
                assert(views[a] == names[sorted[a].1 as int]);
                assert(views[b] == names[sorted[b].1 as int]);
                if sorted[a].1 == sorted[b].1 {
                    assert(sorted[a] == textures[sorted[a].1 as int]);
                    assert(sorted[b] == textures[sorted[b].1 as int]);
                    assert(sorted[a] == sorted[b]);
                }
            }
            assert forall|id: Seq<char>| views.contains(id) == self@.dom().contains(id) by {
                if views.contains(id) {
                    let a = choose|a: int| 0 <= a < views.len() && views[a] == id;
                    assert(views[a] == names[sorted[a].1 as int]);
                    assert(names.contains(id));
                }
                if self@.dom().contains(id) {
                    assert(names.contains(id));
                    let m = choose|m: int| 0 <= m < names.len() && names[m] == id;
                    assert(textures@.contains(textures[m]));
                    assert(textures@.to_multiset().count(textures[m]) > 0);
                    assert(sorted@.contains(textures[m]));
                    let a = choose|a: int| 0 <= a < sorted.len() && sorted[a] == textures[m];
                    assert(views[a] == names[sorted[a].1 as int]);
                }
            }
            assert forall|i: int, j: int| 0 <= i <= j < r.len() implies self@[r[i]@].inner.index.unwrap()
                <= self@[r[j]@].inner.index.unwrap() by {
                assert(sorted[i] == textures[sorted[i].1 as int]);
                assert(sorted[j] == textures[sorted[j].1 as int]);
                assert(names.contains(names[sorted[i].1 as int]));
                assert(names.contains(names[sorted[j].1 as int]));
                assert(sorted[i].0 <= sorted[j].0);
            }
        }
        r
    }

    /// Update the [KnownTexture] matching `texture` with changes from [ParsedPlugin] `plugin`:
    /// where the record names a file that the known texture does not name, the known
    /// texture names it from now on and notes `plugin`. The texture has to be known.
    pub fn update_texture(&mut self, plugin: &Arc<ParsedPlugin>, texture: &LandscapeTexture)
        requires
            old(self)@.dom().contains(texture.id@),
        ensures
            final(self)@.dom() == old(self)@.dom(),
            forall|id: Seq<char>|
                id != texture.id@ && old(self)@.dom().contains(id) ==> #[trigger] final(self)@[id]
                    == old(self)@[id],
            final(self)@[texture.id@].inner.id == old(self)@[texture.id@].inner.id,
            final(self)@[texture.id@].inner.index == old(self)@[texture.id@].inner.index,
            final(self)@[texture.id@].inner.flags == old(self)@[texture.id@].inner.flags,
            names_other_file(*texture, old(self)@[texture.id@].inner) ==> final(self)@[texture.id@].inner.texture == texture.texture && final(self)@[texture.id@].plugin
                == *plugin,
            !names_other_file(*texture, old(self)@[texture.id@].inner) ==> final(self)@[texture.id@] == old(self)@[texture.id@],
            old(self).wf() ==> final(self).wf(),
    {
        let ghost before = self@;
        match texture_table_remove(&mut self.inner, &texture.id) {
            Some(known_texture) => {
                let mut known_texture = known_texture;
                if let Some(new_texture) = &texture.texture {
                    let differs = match &known_texture.inner.texture {
                        Some(texture) => *texture != *new_texture,
                        None => true,
                    };
                    if differs {
                        known_texture.inner.texture = Some(new_texture.clone());
                        known_texture.plugin = plugin.clone();
                    }
                }
                texture_table_insert(&mut self.inner, texture.id.clone(), known_texture);
                proof {
                    assert(self@.dom() =~= before.dom());
                }
            },
            None => {},
        }
    }

    /// The next [KnownTexture::index].
    fn next_texture_index(&self) -> (r: IndexLTEX)
        requires
            self@.dom().len() < u16::MAX,
        ensures
            r.0 == self@.dom().len(),
    {
        IndexLTEX::new(self.len() as u16)
    }

    /// Add a new [KnownTexture] matching `texture` from [ParsedPlugin] `plugin`.
    /// The new index will be set to [Self::next_texture_index].
    fn add_next_texture(&mut self, plugin: &Arc<ParsedPlugin>, texture: &LandscapeTexture) -> (r:
        IndexLTEX)
        requires
            old(self)@.dom().len() < u16::MAX,
            !texture.flags.deleted,
        ensures
            r.0 == old(self)@.dom().len(),
            final(self)@ == old(self)@.insert(
                texture.id@,
                KnownTexture {
                    inner: LandscapeTexture { index: Some(r.0 as u32), ..*texture },
                    plugin: *plugin,
                },
            ),
            old(self).wf() ==> final(self).wf(),
    {
        let next_index = self.next_texture_index();

        let mut inner = texture.duplicate();
        inner.index = Some(next_index.as_u16() as u32);

        let known_texture = KnownTexture { inner, plugin: plugin.clone() };

        texture_table_insert(&mut self.inner, texture.id.clone(), known_texture);
        next_index
    }

    /// Add a new [KnownTexture] matching `texture` from [ParsedPlugin] `plugin`, unless a
    /// texture is known under its `id`.
    /// Returns a tuple corresponding to the `(old_index, new_index)`.
    pub fn add_texture(&mut self, plugin: &Arc<ParsedPlugin>, texture: &LandscapeTexture) -> (r: (
        IndexLTEX,
        IndexLTEX,
    ))
        requires
            old(self).wf(),
            old(self)@.dom().len() < u16::MAX,
            has_texture_index(*texture),
            !texture.flags.deleted,
        ensures
            final(self).wf(),
            r.0.0 == texture.index.unwrap(),
            old(self)@.dom().contains(texture.id@) ==> final(self)@ == old(self)@ && r.1.0 == old(self)@[texture.id@].inner.index.unwrap(),
            !old(self)@.dom().contains(texture.id@) ==> r.1.0 == old(self)@.dom().len() && final(self)@ == old(self)@.insert(
                texture.id@,
                KnownTexture {
                    inner: LandscapeTexture { index: Some(r.1.0 as u32), ..*texture },
                    plugin: *plugin,
                },
            ),
    {
        let old_index = texture_index(texture);

        let known = match self.get(&texture.id) {
            Some(known) => Some(known.index()),
            None => None,
        };
        let new_index = match known {
            Some(index) => index,
            None => self.add_next_texture(plugin, texture),
        };

        (old_index, new_index)
    }

    /// Add a new [KnownTexture] matching `texture` from [ParsedPlugin] `plugin`.
    /// The [RemappedTextures] is updated: the index by which the landscapes of the plugin
    /// name the texture is remapped to the index by which the texture is known.
    pub fn add_remapped_texture(
        &mut self,
        plugin: &Arc<ParsedPlugin>,
        texture: &LandscapeTexture,
        remapped_textures: &mut RemappedTextures,
    )
        requires
            old(self).wf(),
            old(self)@.dom().len() < u16::MAX,
            has_texture_index(*texture),
            texture.index.unwrap() < u16::MAX,
            !texture.flags.deleted,
        ensures
            final(self).wf(),
            final(self)@.dom() == old(self)@.dom().insert(texture.id@),
            forall|id: Seq<char>|
                old(self)@.dom().contains(id) ==> #[trigger] final(self)@[id] == old(self)@[id],
            final(remapped_textures)@ == old(remapped_textures)@.insert(
                (texture.index.unwrap() + 1) as u16,
                (final(self)@[texture.id@].inner.index.unwrap() + 1) as u16,
            ),
    {
        let ghost before = self@;
        let (old_id, new_id) = self.add_texture(plugin, texture);
        proof {
            assert(self@.dom() =~= before.dom().insert(texture.id@));
        }
        match (old_id.to_vtex(), new_id.to_vtex()) {
            (Some(old), Some(new)) => {
                remapped_textures.insert(old, new);
            },
            _ => {
                proof {
                    assert(false);
                }
            },
        }
    }
}

/// The index that a texture grid has for a known texture.
pub open spec fn grid_index(texture: KnownTexture) -> IndexVTEX {
    IndexVTEX((texture.inner.index.unwrap() + 1) as u16)
}

impl KnownTextures {
    /// What is left of the textures once those are removed that `remapped_textures` does
    /// not hold: a texture is left where its index is remapped, and then it has the index
    /// that it is remapped to.
    pub open spec fn is_remapped_from(
        self,
        before: KnownTextures,
        remapped_textures: RemappedTextures,
    ) -> bool {
        &&& forall|id: Seq<char>| #[trigger]
            self@.dom().contains(id) == (before@.dom().contains(id) && remapped_textures.remapped(
                grid_index(before@[id]),
            ).is_some())
        &&& forall|id: Seq<char>| #[trigger]
            self@.dom().contains(id) ==> self@[id].plugin == before@[id].plugin && self@[id].inner
                == (LandscapeTexture {
                index: Some(
                    (remapped_textures.remapped(grid_index(before@[id])).unwrap().0 - 1) as u32,
                ),
                ..before@[id].inner
            })
    }

    /// Remove all textures from [KnownTextures] that are not present in the
    /// [RemappedTextures], and give those that are left their new index.
    /// Returns the number of textures that were removed.
    pub fn remove_unused(&mut self, remapped_textures: &RemappedTextures) -> (r: usize)
        requires
            old(self).wf(),
            forall|index: u16| #[trigger]
                remapped_textures@.dom().contains(index) && index > 0 ==> remapped_textures@[index]
                    > 0,
        ensures
            final(self).wf(),
            final(self).is_remapped_from(*old(self), *remapped_textures),
    {
        let ghost before = self@;
        let ids = texture_table_keys(&self.inner);
        let ghost views = ids@.map_values(|id: String| id@);
        let mut num_removed_ids: usize = 0;

        let mut i: usize = 0;
        while i < ids.len()
            invariant
                i <= ids.len(),
                num_removed_ids <= i,
                views == ids@.map_values(|id: String| id@),
                views.no_duplicates(),
                forall|id: Seq<char>| views.contains(id) == before.dom().contains(id),
                forall|id: Seq<char>| #[trigger]
                    before.dom().contains(id) ==> has_known_index(before[id].inner),
                forall|index: u16| #[trigger]
                    remapped_textures@.dom().contains(index) && index > 0
                        ==> remapped_textures@[index] > 0,
                forall|id: Seq<char>|
                    !views.subrange(0, i as int).contains(id) ==> #[trigger] self@.dom().contains(
                        id,
                    ) == before.dom().contains(id),
                forall|id: Seq<char>|
                    !views.subrange(0, i as int).contains(id) && before.dom().contains(id)
                        ==> #[trigger] self@[id] == before[id],
                forall|id: Seq<char>|
                    views.subrange(0, i as int).contains(id) ==> #[trigger] self@.dom().contains(id)
                        == remapped_textures.remapped(grid_index(before[id])).is_some(),
                forall|id: Seq<char>|
                    views.subrange(0, i as int).contains(id) && #[trigger] self@.dom().contains(id)
                        ==> self@[id].plugin == before[id].plugin && self@[id].inner == (
                    LandscapeTexture {
                        index: Some(
                            (remapped_textures.remapped(grid_index(before[id])).unwrap().0
                                - 1) as u32,
                        ),
                        ..before[id].inner
                    }),
            decreases ids.len() - i,
        {
            let id = &ids[i];
            proof {
                assert(views[i as int] == id@);
                assert(views.contains(id@));
                crate::landmass::lemma_subrange_grows(views, i as int);
                if views.subrange(0, i as int).contains(id@) {
                    let j = choose|j: int|
                        0 <= j < i && views.subrange(0, i as int)[j] == id@;
                    assert(views[j] == views[i as int]);
                }
                assert(self@.dom().contains(id@) == before.dom().contains(id@));
                assert(self@[id@] == before[id@]);
                assert(has_known_index(before[id@].inner));
            }
            let ghost current = self@;
            match texture_table_remove(&mut self.inner, id) {
                Some(texture) => {
                    let mut texture = texture;
                    let own = match texture.index().to_vtex() {
                        Some(own) => own,
                        None => IndexVTEX::new(0),
                    };
                    match remapped_textures.try_remapped_index(own) {
                        Some(new_idx) => {
                            match IndexLTEX::try_from_vtex(new_idx) {
                                Some(new_idx) => {
                                    texture.inner.index = Some(new_idx.as_u16() as u32);
                                },
                                None => {},
                            }
                            texture_table_insert(&mut self.inner, id.clone(), texture);
                        },
                        None => {
                            num_removed_ids = num_removed_ids + 1;
                        },
                    }
                },
                None => {},
            }
            proof {
                let done = views.subrange(0, i as int);
                let more = views.subrange(0, i + 1);
                assert forall|other: Seq<char>| !more.contains(other) implies #[trigger] self@.dom().contains(
                    other,
                ) == before.dom().contains(other) by {
                    assert(!done.contains(other) && other != id@);
                    assert(current.dom().contains(other) == before.dom().contains(other));
                }
                assert forall|other: Seq<char>|
                    !more.contains(other) && before.dom().contains(other) implies #[trigger] self@[other]
                    == before[other] by {
                    assert(!done.contains(other) && other != id@);
                    assert(current[other] == before[other]);
                }
                assert forall|other: Seq<char>| more.contains(other) implies #[trigger] self@.dom().contains(
                    other,
                ) == remapped_textures.remapped(grid_index(before[other])).is_some() by {
                    if other != id@ {
                        assert(done.contains(other));
                        assert(current.dom().contains(other) == remapped_textures.remapped(
                            grid_index(before[other]),
                        ).is_some());
                    }
                }
                assert forall|other: Seq<char>|
                    more.contains(other) && #[trigger] self@.dom().contains(
                        other,
                    ) implies self@[other].plugin == before[other].plugin && self@[other].inner == (
                LandscapeTexture {
                    index: Some(
                        (remapped_textures.remapped(grid_index(before[other])).unwrap().0
                            - 1) as u32,
                    ),
                    ..before[other].inner
                }) by {
                    if other != id@ {
                        assert(done.contains(other));
                        assert(current.dom().contains(other));
                    }
                }
            }
            i = i + 1;
        }
        proof {
            assert(views.subrange(0, views.len() as int) == views);
        }

        num_removed_ids
    }
}

} // verus!

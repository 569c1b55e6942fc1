use crate::io::meta_schema::PluginMeta;
use crate::land::landscape::Landscape;
use crate::land::textures::LandscapeTexture;
use crate::merge::cells::Cell;
use std::path::Path;
use std::sync::Arc;
use vstd::prelude::*;
use vstd::string::{StringExecFns, StringSliceAdditionalSpecFns};
use vstd::utf8::encode_utf8;

verus! {

/// What the extension of the name of a plugin says that the plugin is.
#[derive(Clone, Copy, Debug, PartialEq, Eq, Structural)]
pub enum PluginKind {
    /// A master file, with the extension `esm`.
    Master,
    /// A plugin file, with the extension `esp`.
    Plugin,
    /// A file with any other extension, or with none.
    Other,
}

/// The records of a plugin that a merge of landscapes reads.
pub struct PluginRecords {
    /// The texture records, in the order of the plugin.
    pub landscape_textures: Vec<LandscapeTexture>,
    /// The landscape records, in the order of the plugin.
    pub landscapes: Vec<Landscape>,
    /// The records of the cells that lie in the open, in the order of the plugin.
    pub cells: Vec<Cell>,
}

impl PluginRecords {
    /// No records.
    pub fn new() -> (r: Self)
        ensures
            r.landscape_textures@.len() == 0,
            r.landscapes@.len() == 0,
            r.cells@.len() == 0,
    {
        Self { landscape_textures: Vec::new(), landscapes: Vec::new(), cells: Vec::new() }
    }
}

/// A [ParsedPlugin] is the `name` of a plugin, what its extension says that it is, its
/// records, and any [PluginMeta] data.
pub struct ParsedPlugin {
    /// The `name` of the plugin.
    pub name: String,
    /// What the extension of the `name` says that the plugin is.
    pub kind: PluginKind,
    /// The parsed records.
    pub records: PluginRecords,
    /// The parsed [PluginMeta], or a default if no meta file was found.
    pub meta: PluginMeta,
}

/// Whether the bytes `extension` are a part of the bytes `path` that follows a dot and holds
/// no dot.
pub open spec fn follows_dot(extension: Seq<u8>, path: Seq<u8>) -> bool {
    &&& forall|i: int| 0 <= i < extension.len() ==> #[trigger] extension[i] != 46
    &&& exists|start: int|
        0 < start <= path.len() - extension.len() && #[trigger] path.subrange(
            start,
            start + extension.len(),
        ) == extension && path[start - 1] == 46
}

/// Whether `part` is a part of `whole`.
pub open spec fn is_part_of(part: Seq<char>, whole: Seq<char>) -> bool {
    exists|start: int|
        0 <= start <= whole.len() - part.len() && #[trigger] whole.subrange(
            start,
            start + part.len(),
        ) == part
}

/// `std::path::Path::extension`: the extension of the file that `path` names, if it has
/// one. What counts as the name of the file depends on the machine; on every machine the
/// extension is the portion of the name of the file after its final dot, so that it is a
/// part of `path` that follows a dot and holds no dot.
#[verifier::external_body]
fn path_extension(path: &str) -> (r: Option<String>)
    ensures
        r matches Some(extension) ==> follows_dot(encode_utf8(extension@), path.spec_bytes()),
{
    Path::new(path).extension().map(|extension| extension.to_string_lossy().into_owned())
}

/// `std::path::Path::file_stem`: the name of the file that `path` names, without its
/// extension, if `path` names a file. What counts as the name of the file depends on the
/// machine; on every machine the stem is a portion of the name of the file, so that it is a
/// part of `path`.
#[verifier::external_body]
fn path_file_stem(path: &str) -> (r: Option<String>)
    ensures
        r matches Some(stem) ==> is_part_of(stem@, path@),
{
    Path::new(path).file_stem().map(|stem| stem.to_string_lossy().into_owned())
}

/// An upper case letter of ASCII as its lower case letter, and every other byte as itself.
pub open spec fn lowered(byte: u8) -> u8 {
    if 65 <= byte <= 90 {
        (byte + 32) as u8
    } else {
        byte
    }
}

/// Whether two strings of bytes are the same but for the case of their letters of ASCII.
pub open spec fn same_ignoring_case(first: Seq<u8>, second: Seq<u8>) -> bool {
    &&& first.len() == second.len()
    &&& forall|i: int| 0 <= i < first.len() ==> lowered(#[trigger] first[i]) == lowered(second[i])
}

/// An upper case letter of ASCII as its lower case letter, and every other byte as itself.
fn lower(byte: u8) -> (r: u8)
    ensures
        r == lowered(byte),
{
    if 65 <= byte && byte <= 90 {
        byte + 32
    } else {
        byte
    }
}

/// Returns `true` if there is an `extension` and it is `expected`, ignoring the case of
/// letters of ASCII.
pub fn is_extension(extension: Option<&str>, expected: &str) -> (r: bool)
    ensures
        r == (extension matches Some(found) && same_ignoring_case(
            found.spec_bytes(),
            expected.spec_bytes(),
        )),
{
    match extension {
        Some(given) => {
            let found = given.as_bytes();
            let wanted = expected.as_bytes();
            if found.len() != wanted.len() {
                return false;
            }
            let mut i: usize = 0;
            while i < found.len()
                invariant
                    i <= found.len(),
                    extension == Some(given),
                    found.len() == wanted.len(),
                    found@ == given.spec_bytes(),
                    wanted@ == expected.spec_bytes(),
                    forall|j: int| 0 <= j < i ==> lowered(#[trigger] found@[j]) == lowered(wanted@[j]),
                decreases found.len() - i,
            {
                if lower(found[i]) != lower(wanted[i]) {
                    proof {
                        let first = given.spec_bytes();
                        let second = expected.spec_bytes();
                        assert(lowered(first[i as int]) != lowered(second[i as int]));
                    }
                    return false;
                }
                i = i + 1;
            }
            true
        },
        None => false,
    }
}

/// What the extension `extension` of the name of a plugin says that the plugin is.
pub open spec fn kind_of_extension(extension: Option<&str>) -> PluginKind {
    if extension matches Some(found) && same_ignoring_case(found.spec_bytes(), "esm".spec_bytes()) {
        PluginKind::Master
    } else if extension matches Some(found) && same_ignoring_case(
        found.spec_bytes(),
        "esp".spec_bytes(),
    ) {
        PluginKind::Plugin
    } else {
        PluginKind::Other
    }
}

/// Tells what the extension `extension` of the name of a plugin says that the plugin is.
pub fn plugin_kind_of(extension: Option<&str>) -> (r: PluginKind)
    ensures
        r == kind_of_extension(extension),
{
    if is_extension(extension, "esm") {
        PluginKind::Master
    } else if is_extension(extension, "esp") {
        PluginKind::Plugin
    } else {
        PluginKind::Other
    }
}

/// Whether `path` holds, after a dot, a part without a dot that is `expected` but for the
/// case of its letters of ASCII.
pub open spec fn names_extension(path: Seq<u8>, expected: Seq<u8>) -> bool {
    exists|extension: Seq<u8>| #[trigger]
        follows_dot(extension, path) && same_ignoring_case(extension, expected)
}

/// Tells what the extension of `path` says that the plugin is. What the extension of
/// `path` is depends on the machine; a master file and a plugin file have their extension
/// after a dot in `path`.
pub fn plugin_kind(path: &str) -> (r: PluginKind)
    ensures
        r == PluginKind::Master ==> names_extension(path.spec_bytes(), "esm".spec_bytes()),
        r == PluginKind::Plugin ==> names_extension(path.spec_bytes(), "esp".spec_bytes()),
{
    let extension = path_extension(path);
    match &extension {
        Some(extension) => {
            let found = extension.as_str();
            proof {
                assert(follows_dot(found.spec_bytes(), path.spec_bytes()));
            }
            plugin_kind_of(Some(found))
        },
        None => plugin_kind_of(None),
    }
}

/// Returns `true` if `path` ends with `.esm`, ignoring case. What the extension of `path`
/// is depends on the machine; where it is `esm`, it stands after a dot in `path`.
pub fn is_esm(path: &str) -> (r: bool)
    ensures
        r ==> names_extension(path.spec_bytes(), "esm".spec_bytes()),
{
    let extension = path_extension(path);
    match &extension {
        Some(extension) => {
            let found = extension.as_str();
            proof {
                assert(follows_dot(found.spec_bytes(), path.spec_bytes()));
            }
            is_extension(Some(found), "esm")
        },
        None => false,
    }
}

/// Returns `true` if `path` ends with `.esp`, ignoring case. What the extension of `path`
/// is depends on the machine; where it is `esp`, it stands after a dot in `path`.
pub fn is_esp(path: &str) -> (r: bool)
    ensures
        r ==> names_extension(path.spec_bytes(), "esp".spec_bytes()),
{
    let extension = path_extension(path);
    match &extension {
        Some(extension) => {
            let found = extension.as_str();
            proof {
                assert(follows_dot(found.spec_bytes(), path.spec_bytes()));
            }
            is_extension(Some(found), "esp")
        },
        None => false,
    }
}

/// The name of the meta file of a plugin with the file stem `stem`.
pub fn meta_name_of(stem: String) -> (r: String)
    ensures
        r@ == stem@ + ".mergedlands.toml"@,
{
    stem.concat(".mergedlands.toml")
}

/// `meta` is a part of `name` with `.mergedlands.toml` after it.
pub open spec fn is_meta_name_of(meta: Seq<char>, name: Seq<char>) -> bool {
    exists|stem: Seq<char>| #[trigger] is_part_of(stem, name) && meta == stem + ".mergedlands.toml"@
}

/// Returns a `name` describing a meta file by replacing the extension with
/// `.mergedlands.toml`, or nothing where `name` names no file.
/// What counts as the name of the file depends on the machine; on every machine the name
/// of the meta file is a part of `name` with `.mergedlands.toml` after it.
pub fn meta_name(name: &str) -> (r: Option<String>)
    ensures
        r matches Some(meta) ==> is_meta_name_of(meta@, name@),
{
    match path_file_stem(name) {
        Some(stem) => {
            let ghost part = stem@;
            let meta = meta_name_of(stem);
            proof {
                assert(is_part_of(part, name@) && meta@ == part + ".mergedlands.toml"@);
            }
            Some(meta)
        },
        None => None,
    }
}

impl ParsedPlugin {
    /// Returns an empty [ParsedPlugin] with the provided `name`.
    pub fn empty(name: &str) -> (r: Self)
        ensures
            r.name@ == name@,
            r.meta == PluginMeta::initial(),
            r.records.landscape_textures@.len() == 0,
            r.records.landscapes@.len() == 0,
    {
        Self {
            name: name.to_owned(),
            kind: plugin_kind(name),
            records: PluginRecords::new(),
            meta: PluginMeta::default(),
        }
    }

    /// Creates a [ParsedPlugin]. If `meta` is [None], a default [PluginMeta] is created.
    pub fn from(name: &str, records: PluginRecords, meta: Option<PluginMeta>) -> (r: Self)
        ensures
            r.name@ == name@,
            r.records == records,
            r.meta == match meta {
                Some(meta) => meta,
                None => PluginMeta::initial(),
            },
    {
        let meta = match meta {
            Some(meta) => meta,
            None => PluginMeta::default(),
        };
        Self { name: name.to_owned(), kind: plugin_kind(name), records, meta }
    }
}

/// All [ParsedPlugin] organized by master files and plugin files.
pub struct ParsedPlugins {
    /// The ordered list of master files.
    /// These will be used for creating the reference landmass.
    pub masters: Vec<Arc<ParsedPlugin>>,
    /// The ordered list of plugin files.
    /// These will be used for creating each landmass diff.
    pub plugins: Vec<Arc<ParsedPlugin>>,
}

impl ParsedPlugins {
    /// Files the plugins of `all_plugins` under the masters, where their name has the
    /// extension of a master file, or else under the plugins, both in the order of the list.
    pub fn from_sorted(all_plugins: Vec<Arc<ParsedPlugin>>) -> (r: Self)
        ensures
            r.masters@ == all_plugins@.filter(|plugin: Arc<ParsedPlugin>| plugin.kind == PluginKind::Master),
            r.plugins@ == all_plugins@.filter(|plugin: Arc<ParsedPlugin>| plugin.kind != PluginKind::Master),
    {
        let mut masters: Vec<Arc<ParsedPlugin>> = Vec::new();
        let mut plugins: Vec<Arc<ParsedPlugin>> = Vec::new();
        let ghost is_master = |plugin: Arc<ParsedPlugin>| plugin.kind == PluginKind::Master;
        let ghost is_no_master = |plugin: Arc<ParsedPlugin>| plugin.kind != PluginKind::Master;

        let mut i: usize = 0;
        while i < all_plugins.len()
            invariant
                i <= all_plugins.len(),
                is_master == |plugin: Arc<ParsedPlugin>| plugin.kind == PluginKind::Master,
                is_no_master == |plugin: Arc<ParsedPlugin>| plugin.kind != PluginKind::Master,
                masters@ == all_plugins@.subrange(0, i as int).filter(is_master),
                plugins@ == all_plugins@.subrange(0, i as int).filter(is_no_master),
            decreases all_plugins.len() - i,
        {
            let plugin = all_plugins[i].clone();
            proof {
                let done = all_plugins@.subrange(0, i as int);
                let more = all_plugins@.subrange(0, i + 1);
                assert(more == done.push(all_plugins@[i as int]));
                assert(more.drop_last() == done);
                reveal(Seq::filter);
            }
            if plugin.kind == PluginKind::Master {
                masters.push(plugin);
            } else {
                plugins.push(plugin);
            }
            i = i + 1;
        }
        proof {
            assert(all_plugins@.subrange(0, all_plugins.len() as int) == all_plugins@);
        }
        Self { masters, plugins }
    }
}

} // verus!

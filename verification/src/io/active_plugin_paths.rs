use crate::io::parsed_plugins::{names_extension, plugin_kind, PluginKind};
use itertools::Itertools;
use vstd::prelude::*;
use vstd::string::StringSliceAdditionalSpecFns;
use vstd::utf8::encode_utf8;

verus! {

/// What a line of the file that lists the active plugins is.
#[derive(Clone, Copy, Debug, PartialEq, Eq, Structural)]
pub enum GameFileLine {
    /// An empty line, or a comment.
    Nothing,
    /// The heading of the section that lists the active plugins.
    GameFiles,
    /// The heading of any other section.
    OtherSection,
    /// A line that names a plugin: the bytes of the line from `start` to `end` are the name.
    GameFile { start: usize, end: usize },
    /// Any other line.
    Junk,
}

/// Whether `byte` is a digit.
pub open spec fn is_digit(byte: u8) -> bool {
    48 <= byte <= 57
}

/// Whether `byte` is a single or a double quote.
pub open spec fn is_quote(byte: u8) -> bool {
    byte == 39 || byte == 34
}

/// The bytes of `GameFile`.
pub open spec fn game_file_key() -> Seq<u8> {
    seq![71u8, 97u8, 109u8, 101u8, 70u8, 105u8, 108u8, 101u8]
}

/// The bytes of `[Game Files]`.
pub open spec fn game_files_heading() -> Seq<u8> {
    seq![91u8, 71u8, 97u8, 109u8, 101u8, 32u8, 70u8, 105u8, 108u8, 101u8, 115u8, 93u8]
}

/// Whether `line` starts with `GameFile`, one digit or more, and an equals sign at `equals`,
/// and holds something after it.
pub open spec fn is_game_file(line: Seq<u8>, equals: int) -> bool {
    &&& 8 < equals < line.len() - 1
    &&& line.subrange(0, 8) == game_file_key()
    &&& forall|i: int| 8 <= i < equals ==> is_digit(#[trigger] line[i])
    &&& line[equals] == 61
}

/// The place of the first byte of `line`, from `start` on, that is no quote; the length of
/// the line where there is none.
pub open spec fn skip_quotes(line: Seq<u8>, start: int) -> int
    decreases line.len() - start,
{
    if start < line.len() && is_quote(line[start]) {
        skip_quotes(line, start + 1)
    } else {
        start
    }
}

/// The place after the last byte of `line`, before `end` and not before `start`, that is no
/// quote; `start` where there is none.
pub open spec fn drop_quotes(line: Seq<u8>, start: int, end: int) -> int
    decreases end - start,
{
    if start < end && is_quote(line[end - 1]) {
        drop_quotes(line, start, end - 1)
    } else {
        end
    }
}

/// What a line is that has neither leading nor trailing white space. A line of the section
/// that lists the active plugins names a plugin where it reads `GameFile`, a number, an
/// equals sign and the name; quotes before and after the name do not belong to it.
pub open spec fn line_kind(line: Seq<u8>) -> GameFileLine {
    if line.len() == 0 || line[0] == 59 {
        GameFileLine::Nothing
    } else if line == game_files_heading() {
        GameFileLine::GameFiles
    } else if line[0] == 91 {
        GameFileLine::OtherSection
    } else if exists|equals: int| is_game_file(line, equals) {
        let equals = choose|equals: int| is_game_file(line, equals);
        let start = skip_quotes(line, equals + 1);
        GameFileLine::GameFile {
            start: start as usize,
            end: drop_quotes(line, start, line.len() as int) as usize,
        }
    } else {
        GameFileLine::Junk
    }
}

/// A line has one place at most at which an equals sign follows `GameFile` and a number.
pub proof fn lemma_game_file_unique(line: Seq<u8>, first: int, second: int)
    requires
        is_game_file(line, first),
        is_game_file(line, second),
    ensures
        first == second,
{
    if first < second {
        assert(is_digit(line[first]));
    } else if second < first {
        assert(is_digit(line[second]));
    }
}

/// Tells whether the bytes of `line` are `expected`.
fn is_bytes(line: &[u8], expected: &[u8]) -> (r: bool)
    ensures
        r == (line@ == expected@),
{
    if line.len() != expected.len() {
        return false;
    }
    let mut i: usize = 0;
    while i < line.len()
        invariant
            i <= line.len(),
            line.len() == expected.len(),
            forall|j: int| 0 <= j < i ==> line@[j] == expected@[j],
        decreases line.len() - i,
    {
        if line[i] != expected[i] {
            return false;
        }
        i = i + 1;
    }
    proof {
        assert(line@ =~= expected@);
    }
    true
}

/// Tells what a line is that has neither leading nor trailing white space.
#[verifier::loop_isolation(false)]
pub fn classify_line(line: &str) -> (r: GameFileLine)
    ensures
        r == line_kind(line.spec_bytes()),
        r matches GameFileLine::GameFile { start, end } ==> start <= end <= line.spec_bytes().len(),
{
    let bytes = line.as_bytes();
    let ghost text = line.spec_bytes();
    if bytes.len() == 0 || bytes[0] == 59 {
        return GameFileLine::Nothing;
    }
    let heading: [u8; 12] = [91, 71, 97, 109, 101, 32, 70, 105, 108, 101, 115, 93];
    if is_bytes(bytes, heading.as_slice()) {
        proof {
            assert(heading@ =~= game_files_heading());
        }
        return GameFileLine::GameFiles;
    }
    proof {
        assert(heading@ =~= game_files_heading());
    }
    if bytes[0] == 91 {
        return GameFileLine::OtherSection;
    }
    let key: [u8; 8] = [71, 97, 109, 101, 70, 105, 108, 101];
    proof {
        assert(key@ =~= game_file_key());
    }
    if bytes.len() < 8 {
        proof {
            assert forall|equals: int| !is_game_file(text, equals) by {}
        }
        return GameFileLine::Junk;
    }
    let mut k: usize = 0;
    while k < 8
        invariant
            k <= 8,
            bytes@ == text,
            bytes.len() >= 8,
            key@ == game_file_key(),
            forall|j: int| 0 <= j < k ==> bytes@[j] == key@[j],
        decreases 8 - k,
    {
        if bytes[k] != key[k] {
            proof {
                assert forall|equals: int| !is_game_file(text, equals) by {
                    if is_game_file(text, equals) {
                        assert(text.subrange(0, 8)[k as int] == game_file_key()[k as int]);
                    }
                }
            }
            return GameFileLine::Junk;
        }
        k = k + 1;
    }
    proof {
        assert(text.subrange(0, 8) =~= game_file_key());
    }
    let mut equals: usize = 8;
    while equals < bytes.len() && 48 <= bytes[equals] && bytes[equals] <= 57
        invariant
            8 <= equals <= bytes.len(),
            bytes@ == text,
            forall|i: int| 8 <= i < equals ==> is_digit(#[trigger] text[i]),
        decreases bytes.len() - equals,
    {
        equals = equals + 1;
    }
    if equals == 8 || equals >= bytes.len() - 1 || bytes[equals] != 61 {
        proof {
            assert forall|other: int| !is_game_file(text, other) by {
                if is_game_file(text, other) {
                    if other < equals {
                        assert(is_digit(text[other]));
                    } else if other > equals {
                        assert(is_digit(text[equals as int]));
                    }
                }
            }
        }
        return GameFileLine::Junk;
    }
    proof {
        assert(is_game_file(text, equals as int));
        let chosen = choose|other: int| is_game_file(text, other);
        lemma_game_file_unique(text, equals as int, chosen);
    }
    let mut start: usize = equals + 1;
    while start < bytes.len() && (bytes[start] == 39 || bytes[start] == 34)
        invariant
            equals + 1 <= start <= bytes.len(),
            bytes@ == text,
            skip_quotes(text, equals + 1) == skip_quotes(text, start as int),
        decreases bytes.len() - start,
    {
        start = start + 1;
    }
    let mut end: usize = bytes.len();
    while start < end && (bytes[end - 1] == 39 || bytes[end - 1] == 34)
        invariant
            start <= end <= bytes.len(),
            bytes@ == text,
            drop_quotes(text, start as int, text.len() as int) == drop_quotes(
                text,
                start as int,
                end as int,
            ),
        decreases end - start,
    {
        end = end - 1;
    }
    GameFileLine::GameFile { start, end }
}

/// The number of equals signs among the first `count` bytes of `line`.
pub open spec fn equals_among(line: Seq<u8>, count: nat) -> nat
    decreases count,
{
    if count == 0 {
        0
    } else {
        equals_among(line, (count - 1) as nat) + if line[count - 1] == 61 {
            1nat
        } else {
            0nat
        }
    }
}

/// The place of the last equals sign among the first `count` bytes of `line`, and -1 where
/// there is none.
pub open spec fn last_equals(line: Seq<u8>, count: nat) -> int
    decreases count,
{
    if count == 0 {
        -1
    } else if line[count - 1] == 61 {
        count - 1
    } else {
        last_equals(line, (count - 1) as nat)
    }
}

/// Whether `line` starts with `GameFile` and holds one equals sign.
pub open spec fn is_plain_game_file(line: Seq<u8>) -> bool {
    line.len() >= 8 && line.subrange(0, 8) == game_file_key() && equals_among(line, line.len())
        == 1
}

/// What a line is by the plain rule, by which [ActivePluginPaths] are listed: a line of the
/// section that lists the active plugins names a plugin where it starts with `GameFile` and
/// holds one equals sign, and the name is all that follows the sign, as it stands. The
/// plugins that are merged are listed by the rule of [line_kind].
pub open spec fn plain_line_kind(line: Seq<u8>) -> GameFileLine {
    if line.len() == 0 || line[0] == 59 {
        GameFileLine::Nothing
    } else if line == game_files_heading() {
        GameFileLine::GameFiles
    } else if line[0] == 91 {
        GameFileLine::OtherSection
    } else if is_plain_game_file(line) {
        GameFileLine::GameFile {
            start: (last_equals(line, line.len()) + 1) as usize,
            end: line.len() as usize,
        }
    } else {
        GameFileLine::Junk
    }
}

/// Tells what a line is, that has neither leading nor trailing white space, by the plain
/// rule.
#[verifier::loop_isolation(false)]
pub fn classify_plain_line(line: &str) -> (r: GameFileLine)
    ensures
        r == plain_line_kind(line.spec_bytes()),
        r matches GameFileLine::GameFile { start, end } ==> start <= end <= line.spec_bytes().len(),
{
    let bytes = line.as_bytes();
    let ghost text = line.spec_bytes();
    if bytes.len() == 0 || bytes[0] == 59 {
        return GameFileLine::Nothing;
    }
    let heading: [u8; 12] = [91, 71, 97, 109, 101, 32, 70, 105, 108, 101, 115, 93];
    if is_bytes(bytes, heading.as_slice()) {
        proof {
            assert(heading@ =~= game_files_heading());
        }
        return GameFileLine::GameFiles;
    }
    proof {
        assert(heading@ =~= game_files_heading());
    }
    if bytes[0] == 91 {
        return GameFileLine::OtherSection;
    }
    let key: [u8; 8] = [71, 97, 109, 101, 70, 105, 108, 101];
    proof {
        assert(key@ =~= game_file_key());
    }
    if bytes.len() < 8 {
        return GameFileLine::Junk;
    }
    let mut k: usize = 0;
    while k < 8
        invariant
            k <= 8,
            bytes@ == text,
            bytes.len() >= 8,
            key@ == game_file_key(),
            forall|j: int| 0 <= j < k ==> bytes@[j] == key@[j],
        decreases 8 - k,
    {
        if bytes[k] != key[k] {
            proof {
                if is_plain_game_file(text) {
                    assert(text.subrange(0, 8)[k as int] == game_file_key()[k as int]);
                }
            }
            return GameFileLine::Junk;
        }
        k = k + 1;
    }
    proof {
        assert(text.subrange(0, 8) =~= game_file_key());
    }
    let mut found: usize = 0;
    let mut start: usize = 0;
    let mut i: usize = 0;
    while i < bytes.len()
        invariant
            i <= bytes.len(),
            bytes@ == text,
            found == equals_among(text, i as nat),
            found <= i,
            start == last_equals(text, i as nat) + 1,
            start <= i,
        decreases bytes.len() - i,
    {
        if bytes[i] == 61 {
            found = found + 1;
            start = i + 1;
        }
        i = i + 1;
    }
    if found == 1 {
        GameFileLine::GameFile { start, end: bytes.len() }
    } else {
        GameFileLine::Junk
    }
}

/// The names of the active plugins that a file lists: the names of the lines that name a
/// plugin in the section that lists the active plugins. Every line is given as a line and
/// what it is.
pub open spec fn listed_game_files(lines: Seq<GameFileLine>, count: nat) -> Seq<(int, int, int)>
    decreases count,
{
    if count == 0 {
        Seq::empty()
    } else {
        let before = listed_game_files(lines, (count - 1) as nat);
        match lines[count - 1] {
            GameFileLine::GameFile { start, end } if in_game_files(lines, (count - 1) as nat) => before.push(
                (count - 1, start as int, end as int),
            ),
            _ => before,
        }
    }
}

/// Whether the line after the first `count` lines lies in the section that lists the active
/// plugins.
pub open spec fn in_game_files(lines: Seq<GameFileLine>, count: nat) -> bool
    decreases count,
{
    if count == 0 {
        false
    } else {
        match lines[count - 1] {
            GameFileLine::GameFiles => true,
            GameFileLine::OtherSection => false,
            _ => in_game_files(lines, (count - 1) as nat),
        }
    }
}

/// Finds the lines that name the active plugins: for each the place of the line, and where
/// in it the name starts and ends.
pub fn find_game_files(lines: &Vec<GameFileLine>) -> (r: Vec<(usize, usize, usize)>)
    ensures
        r@.len() == listed_game_files(lines@, lines@.len()).len(),
        forall|i: int|
            0 <= i < r@.len() ==> (#[trigger] r@[i]).0 == listed_game_files(
                lines@,
                lines@.len(),
            )[i].0 && r@[i].1 == listed_game_files(lines@, lines@.len())[i].1 && r@[i].2
                == listed_game_files(lines@, lines@.len())[i].2,
{
    let mut game_files: Vec<(usize, usize, usize)> = Vec::new();
    let mut is_game_files = false;
    let mut i: usize = 0;
    while i < lines.len()
        invariant
            i <= lines.len(),
            is_game_files == in_game_files(lines@, i as nat),
            game_files@.len() == listed_game_files(lines@, i as nat).len(),
            forall|k: int|
                0 <= k < game_files@.len() ==> (#[trigger] game_files@[k]).0 == listed_game_files(
                    lines@,
                    i as nat,
                )[k].0 && game_files@[k].1 == listed_game_files(lines@, i as nat)[k].1
                    && game_files@[k].2 == listed_game_files(lines@, i as nat)[k].2,
        decreases lines.len() - i,
    {
        match lines[i] {
            GameFileLine::GameFiles => {
                is_game_files = true;
            },
            GameFileLine::OtherSection => {
                is_game_files = false;
            },
            GameFileLine::GameFile { start, end } => {
                if is_game_files {
                    game_files.push((i, start, end));
                }
            },
            _ => {},
        }
        i = i + 1;
    }
    game_files
}

/// The places of the lines that are junk in the section that lists the active plugins.
pub open spec fn listed_junk(lines: Seq<GameFileLine>, count: nat) -> Seq<int>
    decreases count,
{
    if count == 0 {
        Seq::empty()
    } else {
        let before = listed_junk(lines, (count - 1) as nat);
        if lines[count - 1] == GameFileLine::Junk && in_game_files(lines, (count - 1) as nat) {
            before.push(count - 1)
        } else {
            before
        }
    }
}

/// Finds the lines that are junk in the section that lists the active plugins.
pub fn find_junk(lines: &Vec<GameFileLine>) -> (r: Vec<usize>)
    ensures
        r@.len() == listed_junk(lines@, lines@.len()).len(),
        forall|i: int| 0 <= i < r@.len() ==> #[trigger] r@[i] == listed_junk(lines@, lines@.len())[i],
{
    let mut junk: Vec<usize> = Vec::new();
    let mut is_game_files = false;
    let mut i: usize = 0;
    while i < lines.len()
        invariant
            i <= lines.len(),
            is_game_files == in_game_files(lines@, i as nat),
            junk@.len() == listed_junk(lines@, i as nat).len(),
            forall|k: int| 0 <= k < junk@.len() ==> #[trigger] junk@[k] == listed_junk(lines@, i as nat)[k],
        decreases lines.len() - i,
    {
        match lines[i] {
            GameFileLine::GameFiles => {
                is_game_files = true;
            },
            GameFileLine::OtherSection => {
                is_game_files = false;
            },
            GameFileLine::Junk => {
                if is_game_files {
                    junk.push(i);
                }
            },
            _ => {},
        }
        i = i + 1;
    }
    junk
}

/// Where a plugin stands in the load order: master files come first, and among files of one
/// kind the file that was modified first.
pub struct LoadOrder {
    /// Whether the plugin is no master file.
    pub is_no_master: bool,
    /// The seconds of the time at which the file of the plugin was last modified.
    pub seconds: i64,
    /// The nanoseconds of that time.
    pub nanoseconds: u32,
}

/// Whether `first` comes before `second` in the load order, or stands where it stands.
pub open spec fn loads_before(first: (bool, i64, u32), second: (bool, i64, u32)) -> bool {
    if first.0 != second.0 {
        !first.0
    } else if first.1 != second.1 {
        first.1 < second.1
    } else {
        first.2 <= second.2
    }
}

/// A plugin's place in a list, beside its load order.
pub type Placed = ((bool, i64, u32), usize);

/// `itertools::Itertools::sorted_by_key`, with the load order as the key: the same
/// places, each beside its load order, ordered by the load order. The sort is stable:
/// where the places are given in rising order, places with one load order stay in rising
/// order.
#[verifier::external_body]
fn sorted_by_load_order(plugins: Vec<Placed>) -> (r: Vec<Placed>)
    requires
        forall|i: int, j: int| 0 <= i < j < plugins.len() ==> plugins[i].1 < plugins[j].1,
    ensures
        r@.to_multiset() == plugins@.to_multiset(),
        forall|i: int, j: int| 0 <= i <= j < r.len() ==> loads_before(r[i].0, r[j].0),
        forall|i: int, j: int| 0 <= i < j < r.len() && r[i].0 == r[j].0 ==> r[i].1 < r[j].1,
{
    plugins.into_iter().sorted_by_key(|plugin| plugin.0).collect()
}

/// Every plugin of a list as its place in the list, beside its load order.
pub open spec fn placed(plugin_list: Seq<(LoadOrder, String)>) -> Seq<Placed> {
    Seq::new(
        plugin_list.len(),
        |i: int|
            (
                (plugin_list[i].0.is_no_master, plugin_list[i].0.seconds, plugin_list[i].0.nanoseconds),
                i as usize,
            ),
    )
}

/// `names` are the names of `plugin_list` in load order: there is an order of the places of
/// the list by the load order, in which plugins with one load order stay as they were given,
/// such that the names are the names at these places.
pub open spec fn is_load_order(names: Seq<String>, plugin_list: Seq<(LoadOrder, String)>) -> bool {
    exists|order: Seq<Placed>|
        {
            &&& #[trigger] order.to_multiset() == placed(plugin_list).to_multiset()
            &&& forall|i: int, j: int| 0 <= i <= j < order.len() ==> loads_before(order[i].0, order[j].0)
            &&& forall|i: int, j: int|
                0 <= i < j < order.len() && order[i].0 == order[j].0 ==> order[i].1 < order[j].1
            &&& names.len() == order.len()
            &&& forall|k: int|
                0 <= k < names.len() ==> 0 <= order[k].1 < plugin_list.len() && (
                #[trigger] names[k])@ == plugin_list[order[k].1 as int].1@
        }
}

/// Sorts `plugin_list` by the last modified date of the files, master files first. Plugins
/// with one load order stay in the order in which they are given.
pub fn sort_plugins(plugin_list: &Vec<(LoadOrder, String)>) -> (r: Vec<String>)
    ensures
        is_load_order(r@, plugin_list@),
{
    let mut keyed: Vec<Placed> = Vec::new();
    let mut i: usize = 0;
    while i < plugin_list.len()
        invariant
            i <= plugin_list.len(),
            keyed@ == placed(plugin_list@).subrange(0, i as int),
        decreases plugin_list.len() - i,
    {
        let order = &plugin_list[i].0;
        keyed.push(((order.is_no_master, order.seconds, order.nanoseconds), i));
        proof {
            assert(keyed@ =~= placed(plugin_list@).subrange(0, i + 1));
        }
        i = i + 1;
    }
    proof {
        assert(keyed@ =~= placed(plugin_list@));
    }
    let sorted = sorted_by_load_order(keyed);
    proof {
        keyed@.to_multiset_ensures();
        sorted@.to_multiset_ensures();
        assert forall|k: int| 0 <= k < sorted@.len() implies (#[trigger] sorted@[k]).1
            < plugin_list@.len() by {
            assert(sorted@.contains(sorted@[k]));
            assert(sorted@.to_multiset().count(sorted@[k]) > 0);
            assert(keyed@.contains(sorted@[k]));
            let m = choose|m: int| 0 <= m < keyed@.len() && keyed@[m] == sorted@[k];
            assert(keyed@[m].1 == m);
        }
    }
    let mut names: Vec<String> = Vec::new();
    let mut k: usize = 0;
    while k < sorted.len()
        invariant
            k <= sorted.len(),
            names@.len() == k,
            forall|m: int| 0 <= m < sorted@.len() ==> (#[trigger] sorted@[m]).1 < plugin_list@.len(),
            forall|m: int|
                0 <= m < k ==> (#[trigger] names@[m])@ == plugin_list@[sorted@[m].1 as int].1@,
        decreases sorted.len() - k,
    {
        proof {
            assert(sorted@[k as int].1 < plugin_list@.len());
        }
        names.push(plugin_list[sorted[k].1].1.clone());
        k = k + 1;
    }
    proof {
        assert(sorted@.to_multiset() == placed(plugin_list@).to_multiset());
    }
    names
}

/// The names of the active plugins, master files apart from all others.
pub struct ActivePluginPaths {
    pub masters: Vec<String>,
    pub plugins: Vec<String>,
}

/// `paths` holds the names of `game_files`, each given beside its kind: the names of the
/// master files under the masters, and all others under the plugins, both in the order of
/// the list.
pub open spec fn is_filing_of(paths: ActivePluginPaths, game_files: Seq<(PluginKind, String)>) -> bool {
    &&& paths.masters@.map_values(|name: String| name@) == game_files.filter(
        |file: (PluginKind, String)| file.0 == PluginKind::Master,
    ).map_values(|file: (PluginKind, String)| file.1@)
    &&& paths.plugins@.map_values(|name: String| name@) == game_files.filter(
        |file: (PluginKind, String)| file.0 != PluginKind::Master,
    ).map_values(|file: (PluginKind, String)| file.1@)
}

/// `kinds` holds the names of `names`, in their order, each beside some kind.
pub open spec fn are_names_of(kinds: Seq<(PluginKind, String)>, names: Seq<String>) -> bool {
    &&& kinds.len() == names.len()
    &&& forall|i: int| 0 <= i < kinds.len() ==> (#[trigger] kinds[i]).1@ == names[i]@
}

impl ActivePluginPaths {
    /// Files the names of `game_files`, each given beside its kind, under the masters or
    /// under the plugins, both in the order of the list.
    pub fn from_kinds(game_files: &Vec<(PluginKind, String)>) -> (r: Self)
        ensures
            is_filing_of(r, game_files@),
    {
        let mut masters: Vec<String> = Vec::new();
        let mut plugins: Vec<String> = Vec::new();
        let ghost is_master = |file: (PluginKind, String)| file.0 == PluginKind::Master;
        let ghost is_no_master = |file: (PluginKind, String)| file.0 != PluginKind::Master;
        let ghost name_of = |file: (PluginKind, String)| file.1@;
        let ghost view_of = |name: String| name@;

        let mut i: usize = 0;
        while i < game_files.len()
            invariant
                i <= game_files.len(),
                is_master == |file: (PluginKind, String)| file.0 == PluginKind::Master,
                is_no_master == |file: (PluginKind, String)| file.0 != PluginKind::Master,
                name_of == |file: (PluginKind, String)| file.1@,
                view_of == |name: String| name@,
                masters@.map_values(view_of) == game_files@.subrange(0, i as int).filter(
                    is_master,
                ).map_values(name_of),
                plugins@.map_values(view_of) == game_files@.subrange(0, i as int).filter(
                    is_no_master,
                ).map_values(name_of),
            decreases game_files.len() - i,
        {
            let ghost done = game_files@.subrange(0, i as int);
            let ghost more = game_files@.subrange(0, i + 1);
            let ghost old_masters = masters@;
            let ghost old_plugins = plugins@;
            proof {
                assert(more == done.push(game_files@[i as int]));
                assert(more.drop_last() == done);
                reveal(Seq::filter);
            }
            let game_file = game_files[i].1.clone();
            match game_files[i].0 {
                PluginKind::Master => {
                    masters.push(game_file);
                    proof {
                        assert(masters@.map_values(view_of) =~= old_masters.map_values(
                            view_of,
                        ).push(game_file@));
                        assert(more.filter(is_master).map_values(name_of) =~= done.filter(
                            is_master,
                        ).map_values(name_of).push(game_file@));
                    }
                },
                _ => {
                    plugins.push(game_file);
                    proof {
                        assert(plugins@.map_values(view_of) =~= old_plugins.map_values(
                            view_of,
                        ).push(game_file@));
                        assert(more.filter(is_no_master).map_values(name_of) =~= done.filter(
                            is_no_master,
                        ).map_values(name_of).push(game_file@));
                    }
                },
            }
            i = i + 1;
        }
        proof {
            assert(game_files@.subrange(0, game_files.len() as int) == game_files@);
        }

        Self { masters, plugins }
    }

    /// Files the names of `game_files` under the masters, where their extension is that of a
    /// master file, or else under the plugins, both in the order of the list.
    /// The kind of a name is what its extension says on the machine at hand.
    pub fn new(game_files: Vec<String>) -> (r: Self)
        ensures
            r.masters@.len() + r.plugins@.len() == game_files@.len(),
            exists|kinds: Seq<(PluginKind, String)>|
                are_names_of(kinds, game_files@) && #[trigger] is_filing_of(r, kinds),
            forall|k: int|
                0 <= k < r.masters@.len() ==> names_extension(
                    encode_utf8((#[trigger] r.masters@[k])@),
                    "esm".spec_bytes(),
                ),
    {
        let mut kinds: Vec<(PluginKind, String)> = Vec::new();
        let mut i: usize = 0;
        while i < game_files.len()
            invariant
                i <= game_files.len(),
                kinds@.len() == i,
                forall|k: int| 0 <= k < i ==> (#[trigger] kinds@[k]).1@ == game_files@[k]@,
                forall|k: int|
                    0 <= k < i && (#[trigger] kinds@[k]).0 == PluginKind::Master
                        ==> names_extension(encode_utf8(kinds@[k].1@), "esm".spec_bytes()),
            decreases game_files.len() - i,
        {
            let game_file = game_files[i].clone();
            kinds.push((plugin_kind(game_file.as_str()), game_file));
            i = i + 1;
        }
        let r = Self::from_kinds(&kinds);
        proof {
            assert(are_names_of(kinds@, game_files@) && is_filing_of(r, kinds@));
            assert forall|k: int| 0 <= k < r.masters@.len() implies names_extension(
                encode_utf8((#[trigger] r.masters@[k])@),
                "esm".spec_bytes(),
            ) by {
                let is_master = |file: (PluginKind, String)| file.0 == PluginKind::Master;
                let kept = kinds@.filter(is_master);
                let names = kept.map_values(|file: (PluginKind, String)| file.1@);
                assert(r.masters@.map_values(|name: String| name@) == names);
                assert(r.masters@.map_values(|name: String| name@)[k] == r.masters@[k]@);
                assert(names.len() == kept.len());
                assert(names[k] == kept[k].1@);
                kinds@.lemma_filter_pred(is_master, k);
                lemma_filter_from(kinds@, is_master, k);
                let place = choose|place: int|
                    0 <= place < kinds@.len() && kinds@[place] == kept[k];
                assert(kinds@[place].0 == PluginKind::Master);
            }
            let is_master = |file: (PluginKind, String)| file.0 == PluginKind::Master;
            let is_no_master = |file: (PluginKind, String)| file.0 != PluginKind::Master;
            lemma_filter_split(kinds@, is_master, is_no_master);
            assert(r.masters@.map_values(|name: String| name@).len() == r.masters@.len());
            assert(r.plugins@.map_values(|name: String| name@).len() == r.plugins@.len());
            assert(kinds@.filter(is_master).map_values(|file: (PluginKind, String)| file.1@).len()
                == kinds@.filter(is_master).len());
            assert(kinds@.filter(is_no_master).map_values(
                |file: (PluginKind, String)| file.1@,
            ).len() == kinds@.filter(is_no_master).len());
        }
        r
    }
}

/// What is left of a sequence that is filtered was in the sequence.
pub proof fn lemma_filter_from<V>(s: Seq<V>, keep: spec_fn(V) -> bool, k: int)
    requires
        0 <= k < s.filter(keep).len(),
    ensures
        s.contains(s.filter(keep)[k]),
    decreases s.len(),
{
    reveal(Seq::filter);
    if s.len() > 0 {
        let sub = s.drop_last().filter(keep);
        if k < sub.len() {
            lemma_filter_from(s.drop_last(), keep, k);
            let j = choose|j: int| 0 <= j < s.drop_last().len() && s.drop_last()[j] == sub[k];
            assert(s[j] == sub[k]);
        } else {
            assert(s[s.len() - 1] == s.filter(keep)[k]);
        }
    }
}

/// A sequence that is filtered by a predicate and by its opposite is split in two.
pub proof fn lemma_filter_split<V>(s: Seq<V>, keep: spec_fn(V) -> bool, drop: spec_fn(V) -> bool)
    requires
        forall|value: V| #[trigger] keep(value) == !drop(value),
    ensures
        s.filter(keep).len() + s.filter(drop).len() == s.len(),
    decreases s.len(),
{
    reveal(Seq::filter);
    if s.len() > 0 {
        lemma_filter_split(s.drop_last(), keep, drop);
    }
}

} // verus!

//! The registry file's format.
//!
//! Unknown fields are refused. A registry that grows a key this build does not understand is then
//! a loud error rather than something silently ignored, which matters because the file is remote
//! data that decides what gets downloaded.
//!
//! Note what is absent: there is no `vendorFolder`. A registry entry says what to fetch; where it
//! lands is the config's business.

use vstd::prelude::*;
use crate::model::option_view;
use crate::text;
use crate::value::{
    keys_distinct, lemma_insert_new, lemma_json_view, list_view, table_view, view_map, write_number,
    Json, JsonView, OrderedMap,
};

verus! {

/// The only schema version this build understands.
pub const SUPPORTED_VERSION: u32 = 1;

/// The paths taken out of an asset.
#[derive(Debug)]
pub enum Member {
    /// The executable.
    One(String),
    /// A layout.
    Many(Vec<String>),
}

/// One host's asset, named outright.
#[derive(Debug)]
pub struct Explicit {
    /// The release asset, with the `{release}/` prefix.
    pub asset: String,
    /// The path inside it, or nothing when the asset is the executable.
    pub member: Option<Member>,
    /// The name to save it under.
    pub output: Option<String>,
}

/// What one host gets.
#[derive(Debug)]
pub enum Target {
    /// The target triple to substitute into the program's shared patterns.
    Triple(String),
    /// A spelled-out asset, for projects whose names follow no pattern.
    Explicit(Explicit),
}

/// One installable program.
#[derive(Debug)]
pub struct Program {
    /// Other names that resolve here.
    pub aliases: Vec<String>,
    /// The GitHub repository releases come from.
    pub repository: String,
    /// The asset pattern shared by every target.
    pub asset: Option<String>,
    /// The path inside that asset, shared by every target.
    pub member: Option<Member>,
    /// The name to save it under, when the last component is not what you want to type.
    pub output: Option<String>,
    /// What to fetch per host, keyed `{os}-{arch}`.
    pub targets: OrderedMap<Target>,
    /// A file of the repository itself, in place of a release asset.
    pub path: Option<String>,
    /// Which tags count as releases, when the repository publishes several trains.
    pub release_regex: Option<String>,
    /// Whether to track a repository file by commit.
    pub hash_version_file: Option<bool>,
}

/// The whole file.
#[derive(Debug)]
pub struct Document {
    /// Bumped whenever an entry gains a field, so an older binary can say so plainly.
    pub version: u32,
    /// Programs by canonical name, which is also the config key `add` writes.
    pub programs: OrderedMap<Program>,
}

/// The paths taken out of an asset, as text.
pub ghost enum MemberView {
    One(Seq<char>),
    Many(Seq<Seq<char>>),
}

impl View for Member {
    type V = MemberView;

    open spec fn view(&self) -> MemberView {
        match self {
            Member::One(path) => MemberView::One(path@),
            Member::Many(paths) => MemberView::Many(text::texts(paths@)),
        }
    }
}

/// An optional member, as text.
pub open spec fn member_of(member: Option<Member>) -> Option<MemberView> {
    match member {
        Some(member) => Some(member@),
        None => None,
    }
}

/// One host's asset, as text.
pub ghost struct ExplicitView {
    pub asset: Seq<char>,
    pub member: Option<MemberView>,
    pub output: Option<Seq<char>>,
}

/// What one host gets, as text.
pub ghost enum TargetView {
    Triple(Seq<char>),
    Explicit(ExplicitView),
}

impl View for Explicit {
    type V = ExplicitView;

    open spec fn view(&self) -> ExplicitView {
        ExplicitView {
            asset: self.asset@,
            member: member_of(self.member),
            output: text::text_of(self.output),
        }
    }
}

impl View for Target {
    type V = TargetView;

    open spec fn view(&self) -> TargetView {
        match self {
            Target::Triple(triple) => TargetView::Triple(triple@),
            Target::Explicit(explicit) => TargetView::Explicit(explicit@),
        }
    }
}

/// One installable program, as text.
pub ghost struct ProgramView {
    pub aliases: Seq<Seq<char>>,
    pub repository: Seq<char>,
    pub asset: Option<Seq<char>>,
    pub member: Option<MemberView>,
    pub output: Option<Seq<char>>,
    pub targets: Seq<(Seq<char>, TargetView)>,
    pub path: Option<Seq<char>>,
    pub release_regex: Option<Seq<char>>,
    pub hash_version_file: Option<bool>,
}

impl View for Program {
    type V = ProgramView;

    open spec fn view(&self) -> ProgramView {
        ProgramView {
            aliases: text::texts(self.aliases@),
            repository: self.repository@,
            asset: text::text_of(self.asset),
            member: member_of(self.member),
            output: text::text_of(self.output),
            targets: view_map(self.targets@),
            path: text::text_of(self.path),
            release_regex: text::text_of(self.release_regex),
            hash_version_file: self.hash_version_file,
        }
    }
}

impl Member {
    /// The paths it names.
    pub open spec fn paths_spec(&self) -> Seq<Seq<char>> {
        match self {
            Member::One(path) => seq![path@],
            Member::Many(paths) => text::texts(paths@),
        }
    }

    /// The paths it names.
    pub fn paths(&self) -> (r: Vec<String>)
        ensures
            text::texts(r@) == self.paths_spec(),
    {
        match self {
            Member::One(path) => {
                let r = vec![path.clone()];
                assert(text::texts(r@) =~= seq![path@]);
                r
            },
            Member::Many(paths) => text::clone_strings(paths),
        }
    }

    /// Whether it is a layout rather than one executable.
    pub fn is_list(&self) -> (r: bool)
        ensures
            r == (self is Many),
    {
        match self {
            Member::One(_) => false,
            Member::Many(_) => true,
        }
    }
}

/// The keys of a table are all among `names`.
pub open spec fn only_keys(map: Seq<(Seq<char>, JsonView)>, names: Seq<Seq<char>>) -> bool {
    forall|i: int| 0 <= i < map.len() ==> names.contains((#[trigger] map[i]).0)
}

/// What a key that may be absent or null holds: `Ok` with its text, `Err` where it is of another
/// type.
pub open spec fn optional_text(value: Option<JsonView>) -> Result<Option<Seq<char>>, ()> {
    match value {
        None => Ok(None),
        Some(JsonView::Null) => Ok(None),
        Some(JsonView::Text(s)) => Ok(Some(s)),
        _ => Err(()),
    }
}

/// What a plain value that stands where text belongs is read as.
pub open spec fn scalar_text(value: JsonView) -> Option<Seq<char>> {
    match value {
        JsonView::Text(s) => Some(s),
        JsonView::Number(s) => Some(s),
        JsonView::Bool(b) => Some(
            if b {
                "true"@
            } else {
                "false"@
            },
        ),
        _ => None,
    }
}

/// What a key that may be absent or null holds, plain values taken as text.
pub open spec fn optional_scalar(value: Option<JsonView>) -> Result<Option<Seq<char>>, ()> {
    match value {
        None => Ok(None),
        Some(JsonView::Null) => Ok(None),
        Some(value) => match scalar_text(value) {
            Some(s) => Ok(Some(s)),
            None => Err(()),
        },
    }
}

/// What a key that may be absent or null holds, of truth values.
pub open spec fn optional_bool(value: Option<JsonView>) -> Result<Option<bool>, ()> {
    match value {
        None => Ok(None),
        Some(JsonView::Null) => Ok(None),
        Some(JsonView::Bool(b)) => Ok(Some(b)),
        _ => Err(()),
    }
}

/// The texts of a list, `None` where one of its items is no text.
pub open spec fn texts_in(items: Seq<JsonView>) -> Option<Seq<Seq<char>>> {
    if forall|i: int| 0 <= i < items.len() ==> (#[trigger] items[i]) is Text {
        Some(Seq::new(items.len(), |i: int| items[i]->Text_0))
    } else {
        None
    }
}

/// What a `member` key holds.
pub open spec fn optional_member(value: Option<JsonView>) -> Result<Option<MemberView>, ()> {
    match value {
        None => Ok(None),
        Some(JsonView::Null) => Ok(None),
        Some(JsonView::Text(s)) => Ok(Some(MemberView::One(s))),
        Some(JsonView::List(items)) => match texts_in(items) {
            Some(paths) => Ok(Some(MemberView::Many(paths))),
            None => Err(()),
        },
        _ => Err(()),
    }
}

/// The keys of an asset named outright.
pub open spec fn explicit_keys() -> Seq<Seq<char>> {
    seq!["asset"@, "member"@, "as"@]
}

/// The keys of a program.
pub open spec fn program_keys() -> Seq<Seq<char>> {
    seq![
        "aliases"@,
        "repository"@,
        "asset"@,
        "member"@,
        "as"@,
        "targets"@,
        "path"@,
        "releaseRegex"@,
        "hashVersionFile"@,
    ]
}

/// The keys of a registry.
pub open spec fn document_keys() -> Seq<Seq<char>> {
    seq!["version"@, "programs"@]
}

/// What a value says one host gets.
pub open spec fn target_in(value: JsonView) -> Option<TargetView> {
    match value {
        JsonView::Text(s) => Some(TargetView::Triple(s)),
        JsonView::Table(map) => match (
            value.get("asset"@),
            optional_member(value.get("member"@)),
            optional_text(value.get("as"@)),
        ) {
            (Some(JsonView::Text(asset)), Ok(member), Ok(output)) => if only_keys(
                map,
                explicit_keys(),
            ) {
                Some(TargetView::Explicit(ExplicitView { asset, member, output }))
            } else {
                None
            },
            _ => None,
        },
        _ => None,
    }
}

/// What a `targets` key holds: nothing, or a map of targets.
pub open spec fn targets_in(value: Option<JsonView>) -> Option<Seq<(Seq<char>, TargetView)>> {
    match value {
        None => Some(Seq::empty()),
        Some(JsonView::Null) => Some(Seq::empty()),
        Some(JsonView::Table(map)) => if forall|i: int|
            0 <= i < map.len() ==> target_in((#[trigger] map[i]).1) is Some {
            Some(Seq::new(map.len(), |i: int| (map[i].0, target_in(map[i].1)->0)))
        } else {
            None
        },
        _ => None,
    }
}

/// What an `aliases` key holds: nothing, or a list of texts.
pub open spec fn aliases_in(value: Option<JsonView>) -> Option<Seq<Seq<char>>> {
    match value {
        None => Some(Seq::empty()),
        Some(JsonView::Null) => Some(Seq::empty()),
        Some(JsonView::List(items)) => if forall|i: int|
            0 <= i < items.len() ==> scalar_text(#[trigger] items[i]) is Some {
            Some(Seq::new(items.len(), |i: int| scalar_text(items[i])->0))
        } else {
            None
        },
        _ => None,
    }
}

/// What a key that has to be there holds, plain values taken as text.
pub open spec fn needed_text(value: Option<JsonView>) -> Option<Seq<char>> {
    match value {
        Some(value) => scalar_text(value),
        None => None,
    }
}

/// The program a value describes.
pub open spec fn program_in(value: JsonView) -> Option<ProgramView> {
    match value {
        JsonView::Table(map) => {
            let aliases = aliases_in(value.get("aliases"@));
            let repository = needed_text(value.get("repository"@));
            let asset = optional_scalar(value.get("asset"@));
            let member = optional_member(value.get("member"@));
            let output = optional_scalar(value.get("as"@));
            let targets = targets_in(value.get("targets"@));
            let path = optional_scalar(value.get("path"@));
            let release_regex = optional_scalar(value.get("releaseRegex"@));
            let hash_version_file = optional_bool(value.get("hashVersionFile"@));
            if only_keys(map, program_keys()) && aliases is Some && repository is Some && asset is Ok
                && member is Ok && output is Ok && targets is Some && path is Ok && release_regex is Ok
                && hash_version_file is Ok {
                Some(
                    ProgramView {
                        aliases: aliases->0,
                        repository: repository->0,
                        asset: asset->Ok_0,
                        member: member->Ok_0,
                        output: output->Ok_0,
                        targets: targets->0,
                        path: path->Ok_0,
                        release_regex: release_regex->Ok_0,
                        hash_version_file: hash_version_file->Ok_0,
                    },
                )
            } else {
                None
            }
        },
        _ => None,
    }
}

/// What a `programs` key holds: nothing, or a map of programs.
pub open spec fn programs_in(value: Option<JsonView>) -> Option<Seq<(Seq<char>, ProgramView)>> {
    match value {
        None => Some(Seq::empty()),
        Some(JsonView::Null) => Some(Seq::empty()),
        Some(JsonView::Table(map)) => if forall|i: int|
            0 <= i < map.len() ==> program_in((#[trigger] map[i]).1) is Some {
            Some(Seq::new(map.len(), |i: int| (map[i].0, program_in(map[i].1)->0)))
        } else {
            None
        },
        _ => None,
    }
}

/// What a `version` key holds.
pub open spec fn version_in(value: Option<JsonView>) -> Option<int> {
    match value {
        Some(JsonView::Number(s)) => text::number_of(s, u32::MAX as int),
        _ => None,
    }
}

/// The registry a value describes: its version and its programs.
pub open spec fn registry_in(value: JsonView) -> Option<(int, Seq<(Seq<char>, ProgramView)>)> {
    match value {
        JsonView::Table(map) => match (
            version_in(value.get("version"@)),
            programs_in(value.get("programs"@)),
        ) {
            (Some(version), Some(programs)) => if only_keys(map, document_keys()) {
                Some((version, programs))
            } else {
                None
            },
            _ => None,
        },
        _ => None,
    }
}

/// Whether the keys of a table are all among `names`.
fn only_known(map: &OrderedMap<Json>, names: &Vec<&str>) -> (r: bool)
    ensures
        r == only_keys(table_view(map@), crate::fsx::strs(names@)),
{
    let ghost known = crate::fsx::strs(names@);
    let n: usize = map.len();
    let mut i: usize = 0;
    while i < n
        invariant
            i <= n == map@.len(),
            known == crate::fsx::strs(names@),
            forall|k: int| 0 <= k < i ==> known.contains((#[trigger] table_view(map@)[k]).0),
        decreases n - i,
    {
        let key = map.key_at(i);
        let mut found = false;
        let mut j: usize = 0;
        while j < names.len()
            invariant
                j <= names@.len(),
                known == crate::fsx::strs(names@),
                found ==> known.contains(key@),
                !found ==> forall|k: int| 0 <= k < j ==> known[k] != key@,
            decreases names@.len() - j,
        {
            if text::equal(names[j], key) {
                assert(known[j as int] == key@);
                found = true;
            }
            j += 1;
        }
        if !found {
            assert(table_view(map@)[i as int].0 == key@);
            return false;
        }
        i += 1;
    }
    true
}

/// Reads a key that may be absent or null.
fn read_optional(value: Option<&Json>) -> (r: Result<Option<String>, ()>)
    ensures
        match r {
            Ok(s) => optional_text(option_view(value)) == Ok::<_, ()>(text::text_of(s)),
            Err(_) => optional_text(option_view(value)) is Err,
        },
{
    match value {
        None => Ok(None),
        Some(value) => {
            proof {
                lemma_json_view(*value);
            }
            match value {
                Json::Null => Ok(None),
                Json::Text(s) => Ok(Some(s.clone())),
                _ => Err(()),
            }
        },
    }
}

/// Reads a plain value that stands where text belongs.
fn read_scalar(value: &Json) -> (r: Option<String>)
    ensures
        text::text_of(r) == scalar_text(value@),
{
    proof {
        lemma_json_view(*value);
    }
    match value {
        Json::Text(s) => Some(s.clone()),
        Json::Number(n) => Some(write_number(n)),
        Json::Bool(b) => Some(
            if *b {
                "true".to_owned()
            } else {
                "false".to_owned()
            },
        ),
        _ => None,
    }
}

/// Reads a key that may be absent or null, plain values taken as text.
fn read_optional_scalar(value: Option<&Json>) -> (r: Result<Option<String>, ()>)
    ensures
        match r {
            Ok(s) => optional_scalar(option_view(value)) == Ok::<_, ()>(text::text_of(s)),
            Err(_) => optional_scalar(option_view(value)) is Err,
        },
{
    match value {
        None => Ok(None),
        Some(value) => {
            proof {
                lemma_json_view(*value);
            }
            match value {
                Json::Null => Ok(None),
                _ => match read_scalar(value) {
                    Some(s) => Ok(Some(s)),
                    None => Err(()),
                },
            }
        },
    }
}

/// Reads a truth value that may be absent or null.
fn read_optional_bool(value: Option<&Json>) -> (r: Result<Option<bool>, ()>)
    ensures
        match r {
            Ok(b) => optional_bool(option_view(value)) == Ok::<_, ()>(b),
            Err(_) => optional_bool(option_view(value)) is Err,
        },
{
    match value {
        None => Ok(None),
        Some(value) => {
            proof {
                lemma_json_view(*value);
            }
            match value {
                Json::Null => Ok(None),
                Json::Bool(b) => Ok(Some(*b)),
                _ => Err(()),
            }
        },
    }
}

/// Reads a `member` key.
fn read_member(value: Option<&Json>) -> (r: Result<Option<Member>, ()>)
    ensures
        match r {
            Ok(member) => optional_member(option_view(value)) == Ok::<_, ()>(member_of(member)),
            Err(_) => optional_member(option_view(value)) is Err,
        },
{
    let held = match value {
        None => {
            return Ok(None);
        },
        Some(held) => held,
    };
    proof {
        lemma_json_view(*held);
    }
    match held {
        Json::Null => Ok(None),
        Json::Text(s) => Ok(Some(Member::One(s.clone()))),
        Json::List(items) => {
            let ghost views = list_view(items@);
            let mut list: Vec<String> = Vec::new();
            let mut i: usize = 0;
            while i < items.len()
                invariant
                    i <= items@.len(),
                    value == Some(held),
                    held@ == JsonView::List(views),
                    views == list_view(items@),
                    list@.len() == i,
                    forall|j: int|
                        0 <= j < i ==> (#[trigger] views[j]) is Text && list@[j]@ == views[j]->Text_0,
                decreases items@.len() - i,
            {
                assert(views[i as int] == items@[i as int]@);
                match items[i].as_text() {
                    Some(s) => {
                        list.push(s.to_owned());
                    },
                    None => {
                        assert(!(views[i as int] is Text));
                        return Err(());
                    },
                }
                i += 1;
            }
            assert(text::texts(list@) =~= texts_in(views)->0);
            Ok(Some(Member::Many(list)))
        },
        _ => Err(()),
    }
}

/// Reads an `aliases` key.
fn read_aliases(value: Option<&Json>) -> (r: Option<Vec<String>>)
    ensures
        match r {
            Some(list) => aliases_in(option_view(value)) == Some(text::texts(list@)),
            None => aliases_in(option_view(value)) is None,
        },
{
    let mut list: Vec<String> = Vec::new();
    assert(text::texts(list@) =~= Seq::empty());
    let held = match value {
        None => {
            return Some(list);
        },
        Some(held) => held,
    };
    proof {
        lemma_json_view(*held);
    }
    match held {
        Json::Null => Some(list),
        Json::List(items) => {
            let ghost views = list_view(items@);
            let mut i: usize = 0;
            while i < items.len()
                invariant
                    i <= items@.len(),
                    value == Some(held),
                    held@ == JsonView::List(views),
                    views == list_view(items@),
                    list@.len() == i,
                    forall|j: int|
                        0 <= j < i ==> scalar_text(#[trigger] views[j]) == Some(list@[j]@),
                decreases items@.len() - i,
            {
                assert(views[i as int] == items@[i as int]@);
                match read_scalar(&items[i]) {
                    Some(s) => {
                        list.push(s);
                    },
                    None => {
                        assert(scalar_text(views[i as int]) is None);
                        return None;
                    },
                }
                i += 1;
            }
            assert(text::texts(list@) =~= Seq::new(views.len(), |i: int| scalar_text(views[i])->0));
            Some(list)
        },
        _ => None,
    }
}

/// Reads what one host gets.
fn read_target(value: &Json) -> (r: Option<Target>)
    ensures
        match r {
            Some(target) => target_in(value@) == Some(target@),
            None => target_in(value@) is None,
        },
{
    proof {
        lemma_json_view(*value);
    }
    match value {
        Json::Text(s) => Some(Target::Triple(s.clone())),
        Json::Table(map) => {
            let names = vec!["asset", "member", "as"];
            assert(crate::fsx::strs(names@) =~= explicit_keys());
            if !only_known(map, &names) {
                return None;
            }
            let asset = match value.get("asset") {
                Some(asset) => match asset.as_text() {
                    Some(asset) => asset.to_owned(),
                    None => {
                        return None;
                    },
                },
                None => {
                    return None;
                },
            };
            match (read_member(value.get("member")), read_optional(value.get("as"))) {
                (Ok(member), Ok(output)) => Some(
                    Target::Explicit(Explicit { asset, member, output }),
                ),
                _ => None,
            }
        },
        _ => None,
    }
}

/// Reads a `targets` key.
fn read_targets(value: Option<&Json>) -> (r: Option<OrderedMap<Target>>)
    ensures
        match r {
            Some(map) => targets_in(option_view(value)) == Some(view_map(map@)),
            None => targets_in(option_view(value)) is None,
        },
{
    let mut out: OrderedMap<Target> = OrderedMap::new();
    assert(view_map(out@) =~= Seq::empty());
    let held = match value {
        None => {
            return Some(out);
        },
        Some(held) => held,
    };
    proof {
        lemma_json_view(*held);
    }
    match held {
        Json::Null => Some(out),
        Json::Table(map) => {
            let ghost views = table_view(map@);
            let n: usize = map.len();
            let mut i: usize = 0;
            while i < n
                invariant
                    i <= n == map@.len(),
                    keys_distinct(map@),
                    value == Some(held),
                    held@ == JsonView::Table(views),
                    views == table_view(map@),
                    out@.len() == i,
                    forall|j: int|
                        0 <= j < i ==> target_in((#[trigger] views[j]).1) is Some && out@[j].0
                            == views[j].0 && out@[j].1@ == target_in(views[j].1)->0,
                decreases n - i,
            {
                let key = map.key_at(i);
                let item = map.value_at(i);
                assert(views[i as int] == (key@, item@));
                match read_target(item) {
                    Some(target) => {
                        proof {
                            lemma_all_others(out@, views, i as int);
                            lemma_insert_new(out@, key@, target);
                        }
                        out.insert(key.to_owned(), target);
                    },
                    None => {
                        assert(target_in(views[i as int].1) is None);
                        return None;
                    },
                }
                i += 1;
            }
            assert(view_map(out@) =~= targets_in(Some(held@))->0);
            Some(out)
        },
        _ => None,
    }
}

/// Entries that have the names of the first entries of a table have none of the others' names.
proof fn lemma_all_others<T>(
    out: Seq<(Seq<char>, T)>,
    views: Seq<(Seq<char>, JsonView)>,
    i: int,
)
    requires
        0 <= i < views.len(),
        keys_distinct(views),
        out.len() == i,
        forall|j: int| 0 <= j < i ==> out[j].0 == (#[trigger] views[j]).0,
    ensures
        forall|j: int| 0 <= j < out.len() ==> (#[trigger] out[j]).0 != views[i].0,
{
    assert forall|j: int| 0 <= j < out.len() implies (#[trigger] out[j]).0 != views[i].0 by {
        assert(out[j].0 == views[j].0);
    }
}

impl Program {
    /// Reads a program, refusing a field that is not known and one of the wrong type.
    pub fn from_json(value: &Json) -> (r: Option<Self>)
        ensures
            match r {
                Some(program) => program_in(value@) == Some(program@),
                None => program_in(value@) is None,
            },
    {
        let map = match value.as_table() {
            Some(map) => map,
            None => {
                return None;
            },
        };
        let names = vec![
            "aliases",
            "repository",
            "asset",
            "member",
            "as",
            "targets",
            "path",
            "releaseRegex",
            "hashVersionFile",
        ];
        assert(crate::fsx::strs(names@) =~= program_keys());
        if !only_known(map, &names) {
            return None;
        }
        let repository = match value.get("repository") {
            Some(repository) => match read_scalar(repository) {
                Some(repository) => repository,
                None => {
                    return None;
                },
            },
            None => {
                return None;
            },
        };
        let aliases = read_aliases(value.get("aliases"));
        let asset = read_optional_scalar(value.get("asset"));
        let member = read_member(value.get("member"));
        let output = read_optional_scalar(value.get("as"));
        let targets = read_targets(value.get("targets"));
        let path = read_optional_scalar(value.get("path"));
        let release_regex = read_optional_scalar(value.get("releaseRegex"));
        let hash_version_file = read_optional_bool(value.get("hashVersionFile"));
        match (
            aliases,
            asset,
            member,
            output,
            targets,
            path,
            release_regex,
            hash_version_file,
        ) {
            (
                Some(aliases),
                Ok(asset),
                Ok(member),
                Ok(output),
                Some(targets),
                Ok(path),
                Ok(release_regex),
                Ok(hash_version_file),
            ) => Some(
                Program {
                    aliases,
                    repository,
                    asset,
                    member,
                    output,
                    targets,
                    path,
                    release_regex,
                    hash_version_file,
                },
            ),
            _ => None,
        }
    }
}

/// Reads a `programs` key.
fn read_programs(value: Option<&Json>) -> (r: Option<OrderedMap<Program>>)
    ensures
        match r {
            Some(map) => programs_in(option_view(value)) == Some(view_map(map@)),
            None => programs_in(option_view(value)) is None,
        },
{
    let mut out: OrderedMap<Program> = OrderedMap::new();
    assert(view_map(out@) =~= Seq::empty());
    let held = match value {
        None => {
            return Some(out);
        },
        Some(held) => held,
    };
    proof {
        lemma_json_view(*held);
    }
    match held {
        Json::Null => Some(out),
        Json::Table(map) => {
            let ghost views = table_view(map@);
            let n: usize = map.len();
            let mut i: usize = 0;
            while i < n
                invariant
                    i <= n == map@.len(),
                    keys_distinct(map@),
                    value == Some(held),
                    held@ == JsonView::Table(views),
                    views == table_view(map@),
                    out@.len() == i,
                    forall|j: int|
                        0 <= j < i ==> program_in((#[trigger] views[j]).1) is Some && out@[j].0
                            == views[j].0 && out@[j].1@ == program_in(views[j].1)->0,
                decreases n - i,
            {
                let key = map.key_at(i);
                let item = map.value_at(i);
                assert(views[i as int] == (key@, item@));
                match Program::from_json(item) {
                    Some(program) => {
                        proof {
                            lemma_all_others(out@, views, i as int);
                            lemma_insert_new(out@, key@, program);
                        }
                        out.insert(key.to_owned(), program);
                    },
                    None => {
                        assert(program_in(views[i as int].1) is None);
                        return None;
                    },
                }
                i += 1;
            }
            assert(view_map(out@) =~= programs_in(Some(held@))->0);
            Some(out)
        },
        _ => None,
    }
}

impl Document {
    /// Reads a registry, refusing a field that is not known and one of the wrong type.
    pub fn from_json(value: &Json) -> (r: Option<Self>)
        ensures
            match r {
                Some(document) => registry_in(value@) == Some(
                    (document.version as int, view_map(document.programs@)),
                ),
                None => registry_in(value@) is None,
            },
    {
        let map = match value.as_table() {
            Some(map) => map,
            None => {
                return None;
            },
        };
        let names = vec!["version", "programs"];
        assert(crate::fsx::strs(names@) =~= document_keys());
        if !only_known(map, &names) {
            return None;
        }
        let version: Option<u32> = match value.get("version") {
            Some(version) => {
                proof {
                    lemma_json_view(*version);
                }
                match version {
                    Json::Number(n) => match text::parse_number(
                        write_number(n).as_str(),
                        u32::MAX as u64,
                    ) {
                        Some(version) => Some(version as u32),
                        None => None,
                    },
                    _ => None,
                }
            },
            None => None,
        };
        match (version, read_programs(value.get("programs"))) {
            (Some(version), Some(programs)) => Some(Document { version, programs }),
            _ => None,
        }
    }
}

/// What a key of a program holds: its text, where it is text; nothing, where it is absent or null.
pub open spec fn holds_text(value: Option<JsonView>, field: Option<Seq<char>>) -> bool {
    &&& value matches Some(JsonView::Text(s)) ==> field == Some(s)
    &&& value is None || value == Some(JsonView::Null) ==> field is None
}

/// A program is what its keys say, each field by its own key. A key that is not known is refused, and
/// so is a program without a repository.
pub proof fn a_program_is_what_its_keys_say(value: JsonView)
    ensures
        match program_in(value) {
            Some(program) => {
                &&& value is Table
                &&& value.get("repository"@) matches Some(JsonView::Text(s)) ==> program.repository
                    == s
                &&& holds_text(value.get("asset"@), program.asset)
                &&& holds_text(value.get("as"@), program.output)
                &&& holds_text(value.get("path"@), program.path)
                &&& holds_text(value.get("releaseRegex"@), program.release_regex)
                &&& value.get("hashVersionFile"@) matches Some(JsonView::Bool(b))
                    ==> program.hash_version_file == Some(b)
                &&& value.get("hashVersionFile"@) is None ==> program.hash_version_file is None
                &&& value.get("member"@) matches Some(JsonView::Text(s)) ==> program.member == Some(
                    MemberView::One(s),
                )
                &&& value.get("member"@) is None ==> program.member is None
                &&& value.get("targets"@) is None ==> program.targets.len() == 0
                &&& value.get("targets"@) matches Some(JsonView::Table(map)) ==> program.targets.len()
                    == map.len() && forall|i: int|
                    0 <= i < map.len() ==> (#[trigger] program.targets[i]).0 == map[i].0 && (
                    map[i].1 matches JsonView::Text(triple) ==> program.targets[i].1
                        == TargetView::Triple(triple))
                &&& value.get("aliases"@) is None ==> program.aliases.len() == 0
                &&& value.get("aliases"@) matches Some(JsonView::List(items))
                    ==> program.aliases.len() == items.len() && forall|i: int|
                    0 <= i < items.len() ==> ((#[trigger] items[i]) matches JsonView::Text(s)
                        ==> program.aliases[i] == s)
            },
            None => true,
        },
        value.get("repository"@) is None ==> program_in(value) is None,
        value matches JsonView::Table(map) ==> (exists|i: int|
            0 <= i < map.len() && !program_keys().contains((#[trigger] map[i]).0)) ==> program_in(
            value,
        ) is None,
{
}

/// An asset named outright is what its keys say: it needs the asset, may have a member and a name, and
/// has no other key.
pub proof fn a_target_is_what_its_keys_say(value: JsonView)
    ensures
        value matches JsonView::Text(triple) ==> target_in(value) == Some(TargetView::Triple(triple)),
        target_in(value) matches Some(TargetView::Explicit(explicit)) ==> {
            &&& value.get("asset"@) == Some(JsonView::Text(explicit.asset))
            &&& holds_text(value.get("as"@), explicit.output)
            &&& value.get("member"@) matches Some(JsonView::Text(s)) ==> explicit.member == Some(
                MemberView::One(s),
            )
            &&& value.get("member"@) matches Some(JsonView::List(items)) ==> (
            explicit.member matches Some(MemberView::Many(paths)) && paths.len() == items.len()
                && forall|i: int|
                0 <= i < items.len() ==> (#[trigger] items[i]) == JsonView::Text(paths[i]))
            &&& value.get("member"@) is None ==> explicit.member is None
        },
        value matches JsonView::Table(map) ==> (exists|i: int|
            0 <= i < map.len() && (#[trigger] map[i]).0 != "asset"@ && map[i].0 != "member"@
                && map[i].0 != "as"@) ==> target_in(value) is None,
        !(value is Text) && !(value.get("asset"@) is Some) ==> target_in(value) is None,
{
}

/// A registry has a version and lists its programs in order, each under its name; one bad program
/// spoils it.
pub proof fn a_registry_lists_its_programs(value: JsonView)
    ensures
        match registry_in(value) {
            Some((version, programs)) => {
                &&& value.get("version"@) is Some
                &&& 0 <= version <= u32::MAX
                &&& value.get("programs"@) is None ==> programs.len() == 0
                &&& value.get("programs"@) matches Some(JsonView::Table(map)) ==> programs.len()
                    == map.len() && forall|i: int|
                    0 <= i < map.len() ==> (#[trigger] programs[i]).0 == map[i].0 && Some(
                        programs[i].1,
                    ) == program_in(map[i].1)
            },
            None => true,
        },
        value.get("programs"@) matches Some(JsonView::Table(map)) ==> (exists|i: int|
            0 <= i < map.len() && program_in((#[trigger] map[i]).1) is None) ==> registry_in(value)
            is None,
        value.get("version"@) is None ==> registry_in(value) is None,
{
    if let Some((version, programs)) = registry_in(value) {
        assert(0 <= version <= u32::MAX) by {
            if let Some(JsonView::Number(s)) = value.get("version"@) {
                text::a_number_is_in_range(s, u32::MAX as int);
            }
        }
    }
}

/// A value is absent or null, or a text.
pub open spec fn text_or_nothing(value: Option<JsonView>) -> bool {
    value is None || value->0 is Null || value->0 is Text
}

/// A program needs no more than a repository: where its keys are known and each holds what it may, it
/// is read.
pub proof fn a_sound_program_is_read(map: Seq<(Seq<char>, JsonView)>)
    requires
        ({
            let value = JsonView::Table(map);
            &&& forall|i: int|
                0 <= i < map.len() ==> {
                    let key = (#[trigger] map[i]).0;
                    key == "aliases"@ || key == "repository"@ || key == "asset"@ || key == "member"@
                        || key == "as"@ || key == "targets"@ || key == "path"@ || key
                        == "releaseRegex"@ || key == "hashVersionFile"@
                }
            &&& value.get("repository"@) is Some && value.get("repository"@)->0 is Text
            &&& text_or_nothing(value.get("asset"@))
            &&& text_or_nothing(value.get("member"@))
            &&& text_or_nothing(value.get("as"@))
            &&& text_or_nothing(value.get("path"@))
            &&& text_or_nothing(value.get("releaseRegex"@))
            &&& value.get("targets"@) is None
            &&& match value.get("aliases"@) {
                None => true,
                Some(JsonView::List(items)) => forall|i: int|
                    0 <= i < items.len() ==> (#[trigger] items[i]) is Text,
                _ => false,
            }
            &&& match value.get("hashVersionFile"@) {
                None => true,
                Some(value) => value is Bool,
            }
        }),
    ensures
        program_in(JsonView::Table(map)) is Some,
{
    let keys = program_keys();
    assert(keys[0] == "aliases"@ && keys[1] == "repository"@ && keys[2] == "asset"@ && keys[3]
        == "member"@ && keys[4] == "as"@ && keys[5] == "targets"@ && keys[6] == "path"@ && keys[7]
        == "releaseRegex"@ && keys[8] == "hashVersionFile"@);
    assert(only_keys(map, keys));
}

/// An asset named outright is read where its keys are known and each holds what it may.
pub proof fn a_sound_target_is_read(map: Seq<(Seq<char>, JsonView)>)
    requires
        ({
            let value = JsonView::Table(map);
            &&& forall|i: int|
                0 <= i < map.len() ==> {
                    let key = (#[trigger] map[i]).0;
                    key == "asset"@ || key == "member"@ || key == "as"@
                }
            &&& value.get("asset"@) is Some && value.get("asset"@)->0 is Text
            &&& text_or_nothing(value.get("as"@))
            &&& match value.get("member"@) {
                Some(JsonView::List(items)) => forall|i: int|
                    0 <= i < items.len() ==> (#[trigger] items[i]) is Text,
                other => text_or_nothing(other),
            }
        }),
    ensures
        target_in(JsonView::Table(map)) matches Some(TargetView::Explicit(_)),
{
    let keys = explicit_keys();
    assert(keys[0] == "asset"@ && keys[1] == "member"@ && keys[2] == "as"@);
    assert(only_keys(map, keys));
}

/// Targets that can each be read are read, and so are programs; a registry is read where its version
/// and its programs are.
pub proof fn a_sound_registry_is_read(
    map: Seq<(Seq<char>, JsonView)>,
    list: Seq<(Seq<char>, JsonView)>,
    version: int,
)
    ensures
        (forall|i: int| 0 <= i < list.len() ==> target_in((#[trigger] list[i]).1) is Some)
            ==> targets_in(Some(JsonView::Table(list))) is Some,
        (exists|i: int| 0 <= i < list.len() && target_in((#[trigger] list[i]).1) is None)
            ==> targets_in(Some(JsonView::Table(list))) is None,
        0 <= version <= u32::MAX && (forall|i: int|
            0 <= i < map.len() ==> (#[trigger] map[i]).0 == "version"@ || map[i].0 == "programs"@)
            && JsonView::Table(map).get("version"@) == Some(
            JsonView::Number(text::decimal_spec(version)),
        ) && JsonView::Table(map).get("programs"@) == Some(JsonView::Table(list)) && (forall|i: int|
            0 <= i < list.len() ==> program_in((#[trigger] list[i]).1) is Some) ==> (registry_in(
            JsonView::Table(map),
        ) matches Some((read, programs)) && read == version && programs.len() == list.len()),
        (exists|i: int|
            0 <= i < map.len() && (#[trigger] map[i]).0 != "version"@ && map[i].0 != "programs"@)
            ==> registry_in(JsonView::Table(map)) is None,
{
    let keys = document_keys();
    assert(keys[0] == "version"@ && keys[1] == "programs"@ && keys.len() == 2);
    if 0 <= version <= u32::MAX {
        text::a_number_is_read_back(version, u32::MAX as int);
    }
    if forall|i: int|
        0 <= i < map.len() ==> (#[trigger] map[i]).0 == "version"@ || map[i].0 == "programs"@ {
        assert(only_keys(map, keys));
    }
}

/// A plain value that stands where text belongs is read as it is written.
pub proof fn a_plain_value_is_read_as_text(s: Seq<char>, value: JsonView)
    ensures
        scalar_text(JsonView::Text(s)) == Some(s),
        scalar_text(JsonView::Number(s)) == Some(s),
        scalar_text(JsonView::Bool(true)) == Some("true"@),
        scalar_text(JsonView::Bool(false)) == Some("false"@),
        value is Null || value is List || value is Table ==> scalar_text(value) is None,
{
}

/// One item of the wrong type spoils a list: an alias that is no plain value, or a member that is no
/// text.
pub proof fn one_bad_item_spoils_a_list(value: JsonView, items: Seq<JsonView>, i: int)
    requires
        0 <= i < items.len(),
    ensures
        value.get("aliases"@) == Some(JsonView::List(items)) && (items[i] is Null || items[i] is List
            || items[i] is Table) ==> program_in(value) is None,
        value.get("member"@) == Some(JsonView::List(items)) && !(items[i] is Text) ==> program_in(
            value,
        ) is None && target_in(value) is None,
{
}

} // verus!

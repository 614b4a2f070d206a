//! Turning a registry entry into config for one host.
//!
//! `{release}` and `{version}` belong to the config layer and are left alone, so the entry that
//! gets written keeps resolving new versions afterwards. Only the host-dependent placeholders are
//! expanded here.

use vstd::prelude::*;
use crate::error::VendorError;
use crate::fsx;
use crate::model;
use crate::model::{copy_text, entry_views, or_else, EntryView, FileEntry, FileTarget};
use crate::text;
use crate::value::{
    get_after_insert, insert_keeps_the_others, lemma_key_index, lemma_view_map_index, lemma_view_map_insert, map_get, map_insert, view_map,
    OrderedMap,
};
use super::schema::{member_of, ExplicitView, Member, MemberView, Program, ProgramView, Target, TargetView};

verus! {

/// A host key names Windows.
pub open spec fn is_windows_spec(host: Seq<char>) -> bool {
    "windows"@.is_prefix_of(host)
}

/// The archive extension that platform's releases conventionally use.
pub open spec fn archive_extension_spec(host: Seq<char>) -> Seq<char> {
    if is_windows_spec(host) {
        ".zip"@
    } else {
        ".tar.gz"@
    }
}

/// The executable suffix on that platform.
pub open spec fn executable_suffix_spec(host: Seq<char>) -> Seq<char> {
    if is_windows_spec(host) {
        ".exe"@
    } else {
        ""@
    }
}

/// The host key a registry entry is looked up under: `windows-x86_64`, `macos-aarch64`, and so on.
pub fn host(os: &str, arch: &str) -> (r: String)
    ensures
        r@ == os@ + "-"@ + arch@,
{
    let mut r = os.to_owned();
    r.append("-");
    r.append(arch);
    r
}

/// Whether a host key names Windows.
///
/// Taken from the key, so resolving an entry for another platform gives that platform's answer.
pub fn is_windows(host: &str) -> (r: bool)
    ensures
        r == is_windows_spec(host@),
{
    text::starts_with(host, "windows")
}

/// The archive extension that platform's releases conventionally use.
pub fn archive_extension(host: &str) -> (r: &'static str)
    ensures
        r@ == archive_extension_spec(host@),
{
    if is_windows(host) {
        ".zip"
    } else {
        ".tar.gz"
    }
}

/// The executable suffix on that platform.
pub fn executable_suffix(host: &str) -> (r: &'static str)
    ensures
        r@ == executable_suffix_spec(host@),
{
    if is_windows(host) {
        ".exe"
    } else {
        ""
    }
}

/// A registry entry resolved for one host.
#[derive(Debug)]
pub struct Entry {
    /// The canonical name, which becomes the config key.
    pub name: String,
    /// The repository to install from.
    pub repository: String,
    /// The `files` array to write.
    pub files: Vec<FileEntry>,
    /// Which tags count as releases, when the repository publishes several trains.
    pub release_regex: Option<String>,
    /// Whether to track a repository file by commit.
    pub hash_version_file: Option<bool>,
}

/// A resolved entry, as text.
pub ghost struct ResolvedView {
    pub name: Seq<char>,
    pub repository: Seq<char>,
    pub files: Seq<EntryView>,
    pub release_regex: Option<Seq<char>>,
    pub hash_version_file: Option<bool>,
}

impl View for Entry {
    type V = ResolvedView;

    open spec fn view(&self) -> ResolvedView {
        ResolvedView {
            name: self.name@,
            repository: self.repository@,
            files: entry_views(self.files@),
            release_regex: text::text_of(self.release_regex),
            hash_version_file: self.hash_version_file,
        }
    }
}

/// What resolving comes to.
pub ghost enum Resolution {
    /// An entry.
    Found(ResolvedView),
    /// The entry lists nothing for this host.
    Unsupported,
    /// The entry cannot be used, for this reason.
    Invalid(Seq<char>),
}

/// A pattern with the host-dependent placeholders filled in.
pub open spec fn expand_spec(pattern: Seq<char>, triple: Seq<char>, host: Seq<char>) -> Seq<char> {
    text::replace_all_spec(
        text::replace_all_spec(
            text::replace_all_spec(pattern, "{target}"@, triple),
            "{ext}"@,
            archive_extension_spec(host),
        ),
        "{exe}"@,
        executable_suffix_spec(host),
    )
}

/// Substitutes the host-dependent placeholders, leaving the config's own alone.
pub fn expand(pattern: &str, triple: &str, host: &str) -> (r: String)
    ensures
        r@ == expand_spec(pattern@, triple@, host@),
{
    let targeted = text::replace_all(pattern, "{target}", triple);
    let packed = text::replace_all(targeted.as_str(), "{ext}", archive_extension(host));
    text::replace_all(packed.as_str(), "{exe}", executable_suffix(host))
}

/// A member with the host-dependent placeholders filled in, in each of its paths.
pub open spec fn expand_member_spec(
    member: MemberView,
    triple: Seq<char>,
    host: Seq<char>,
) -> MemberView {
    match member {
        MemberView::One(path) => MemberView::One(expand_spec(path, triple, host)),
        MemberView::Many(paths) => MemberView::Many(
            Seq::new(paths.len(), |i: int| expand_spec(paths[i], triple, host)),
        ),
    }
}

/// Substitutes the host-dependent placeholders in every path a member names.
pub fn expand_member(member: &Member, triple: &str, host: &str) -> (r: Member)
    ensures
        r@ == expand_member_spec(member@, triple@, host@),
{
    match member {
        Member::One(path) => Member::One(expand(path.as_str(), triple, host)),
        Member::Many(paths) => {
            let mut list: Vec<String> = Vec::new();
            let mut i: usize = 0;
            while i < paths.len()
                invariant
                    i <= paths@.len(),
                    list@.len() == i,
                    forall|j: int|
                        0 <= j < i ==> (#[trigger] list@[j])@ == expand_spec(
                            paths@[j]@,
                            triple@,
                            host@,
                        ),
                decreases paths@.len() - i,
            {
                list.push(expand(paths[i].as_str(), triple, host));
                i += 1;
            }
            let r = Member::Many(list);
            assert(r@->Many_0 =~= expand_member_spec(member@, triple@, host@)->Many_0);
            r
        },
    }
}

/// A path segment that names something in its folder: no climbing, no drive.
pub open spec fn plain_segment(s: Seq<char>) -> bool {
    s.len() > 0 && s != "."@ && s != ".."@ && !s.contains(':')
}

/// What the separators of either kind split a path into.
pub open spec fn pieces_of(path: Seq<char>) -> Seq<Seq<char>> {
    text::segments(text::slashed(path), '/')
}

/// Where a listed member goes, or why it is refused.
pub open spec fn member_path_spec(member: Seq<char>) -> Result<Seq<char>, Seq<char>> {
    if forall|i: int|
        0 <= i < pieces_of(member).len() ==> plain_segment(#[trigger] pieces_of(member)[i]) {
        Ok(text::slashed(member))
    } else {
        Err("'"@ + member + "' is not a plain relative path"@)
    }
}

/// A path that starts from a root or a drive.
pub open spec fn absolute(path: Seq<char>) -> bool {
    ||| path.len() > 0 && (path[0] == '/' || path[0] == '\\')
    ||| path.len() > 1 && letter(path[0]) && path[1] == ':'
}

/// An ASCII letter.
pub open spec fn letter(c: char) -> bool {
    ('a' <= c && c <= 'z') || ('A' <= c && c <= 'Z')
}

/// How many folders below its start the first `n` segments of a path lead.
pub open spec fn height_of(pieces: Seq<Seq<char>>, n: int) -> int
    decreases n,
{
    if n <= 0 {
        0
    } else if pieces[n - 1] == ".."@ {
        height_of(pieces, n - 1) - 1
    } else if pieces[n - 1].len() == 0 || pieces[n - 1] == "."@ {
        height_of(pieces, n - 1)
    } else {
        height_of(pieces, n - 1) + 1
    }
}

/// A path that leads out of the folder it starts from.
pub open spec fn climbs(path: Seq<char>) -> bool {
    exists|n: int| 0 <= n <= pieces_of(path).len() && #[trigger] height_of(pieces_of(path), n) < 0
}

/// What a member is saved under, or why it is refused.
pub open spec fn output_spec(member: Seq<char>) -> Result<Seq<char>, Seq<char>> {
    let base = pieces_of(member).last();
    if base.len() == 0 || base == ".."@ || base == "."@ {
        Err("the member names no file"@)
    } else if base.contains(':') {
        Err("'"@ + base + "' is not a plain file name"@)
    } else if absolute(member) || climbs(member) {
        Err("'"@ + member + "' is not a plain file name"@)
    } else {
        Ok(base)
    }
}

/// The first `n` of some listed members with where they go, or why the first bad one is refused.
pub open spec fn layout_spec(paths: Seq<Seq<char>>, n: int) -> Result<
    Seq<(Seq<char>, Seq<char>)>,
    Seq<char>,
>
    decreases n,
{
    if n <= 0 {
        Ok(Seq::empty())
    } else {
        match (layout_spec(paths, n - 1), member_path_spec(paths[n - 1])) {
            (Err(reason), _) => Err(reason),
            (_, Err(reason)) => Err(reason),
            (Ok(map), Ok(output)) => Ok(map_insert(map, paths[n - 1], output)),
        }
    }
}

/// The members to take out of an asset with what they are saved under, or why they are refused.
pub open spec fn extraction_spec(member: MemberView, named: Option<Seq<char>>) -> Result<
    Seq<(Seq<char>, Seq<char>)>,
    Seq<char>,
> {
    match member {
        MemberView::One(path) => match output_spec(
            match named {
                Some(named) => named,
                None => path,
            },
        ) {
            Ok(output) => Ok(seq![(path, output)]),
            Err(reason) => Err(reason),
        },
        MemberView::Many(paths) => if paths.len() == 0 {
            Err("'member' lists no file to take out of the asset"@)
        } else {
            match named {
                Some(named) => Err(
                    "'member' lists "@ + text::decimal_spec(paths.len() as int)
                        + " files, written out as they stand, so there is no single file for 'as' to rename to '"@
                        + named + "'"@,
                ),
                None => layout_spec(paths, paths.len() as int),
            }
        },
    }
}

/// The asset, its member and the name to save it under that a program has for a host; `Err` with
/// the reason where the host is listed and the entry cannot serve it.
pub open spec fn choice(program: ProgramView, target: TargetView, host: Seq<char>) -> Result<
    (Seq<char>, Option<MemberView>, Option<Seq<char>>),
    Seq<char>,
> {
    match target {
        TargetView::Explicit(explicit) => Ok(
            (explicit.asset, explicit.member, or_else(explicit.output, program.output)),
        ),
        TargetView::Triple(triple) => match program.asset {
            None => Err(
                "target '"@ + host + "' names the triple '"@ + triple
                    + "', so the entry needs a top-level 'asset' pattern"@,
            ),
            Some(asset) => Ok(
                (
                    expand_spec(asset, triple, host),
                    match program.member {
                        Some(member) => Some(expand_member_spec(member, triple, host)),
                        None => None,
                    },
                    match program.output {
                        Some(output) => Some(expand_spec(output, triple, host)),
                        None => None,
                    },
                ),
            ),
        },
    }
}

/// The `files` array for a chosen asset, or why it is refused.
pub open spec fn files_for(
    asset: Seq<char>,
    member: Option<MemberView>,
    named: Option<Seq<char>>,
) -> Result<Seq<EntryView>, Seq<char>> {
    match member {
        None => match output_spec(
            match named {
                Some(named) => named,
                None => asset,
            },
        ) {
            Ok(output) => Ok(
                seq![EntryView::Mapped(seq![(asset, model::TargetView::Rename(output))])],
            ),
            Err(reason) => Err(reason),
        },
        Some(member) => match extraction_spec(member, named) {
            Ok(map) => Ok(
                seq![EntryView::Mapped(seq![(asset, model::TargetView::ExtractMap(map))])],
            ),
            Err(reason) => Err(reason),
        },
    }
}

/// The `files` array for a file of the repository itself, or why it is refused.
pub open spec fn repository_files(path: Seq<char>, output: Option<Seq<char>>) -> Result<
    Seq<EntryView>,
    Seq<char>,
> {
    match output {
        Some(output) => match output_spec(output) {
            Ok(output) => Ok(
                seq![EntryView::Mapped(seq![(path, model::TargetView::Rename(output))])],
            ),
            Err(reason) => Err(reason),
        },
        None => match output_spec(path) {
            Ok(_) => Ok(seq![EntryView::Simple(path)]),
            Err(reason) => Err(reason),
        },
    }
}

/// An entry made of a program and a `files` array.
pub open spec fn entry_with(
    name: Seq<char>,
    program: ProgramView,
    files: Result<Seq<EntryView>, Seq<char>>,
) -> Resolution {
    match files {
        Ok(files) => Resolution::Found(
            ResolvedView {
                name,
                repository: program.repository,
                files,
                release_regex: program.release_regex,
                hash_version_file: program.hash_version_file,
            },
        ),
        Err(reason) => Resolution::Invalid(reason),
    }
}

/// What a program resolves to for a host.
pub open spec fn resolution(
    name: Seq<char>,
    program: ProgramView,
    host: Seq<char>,
) -> Resolution {
    match program.path {
        Some(path) => if program.targets.len() > 0 || program.asset is Some
            || program.member is Some {
            Resolution::Invalid(
                "'path' vendors a repository file, so it cannot also define 'asset', 'member' or 'targets'"@,
            )
        } else {
            entry_with(name, program, repository_files(path, program.output))
        },
        None => match map_get(program.targets, host) {
            None => Resolution::Unsupported,
            Some(target) => match choice(program, target, host) {
                Ok((asset, member, named)) => entry_with(
                    name,
                    program,
                    files_for(asset, member, named),
                ),
                Err(reason) => Resolution::Invalid(reason),
            },
        },
    }
}

/// A refusal of the entry `name`.
fn refuse(name: &str, reason: String) -> (r: VendorError)
    ensures
        r matches VendorError::RegistryInvalidEntry { name: n, reason: why } && n@ == name@ && why@
            == reason@,
{
    VendorError::RegistryInvalidEntry { name: name.to_owned(), reason }
}

/// A result is what was expected, refusals naming the entry.
pub open spec fn settles<T: View>(
    r: Result<T, VendorError>,
    expected: Result<T::V, Seq<char>>,
    name: Seq<char>,
) -> bool {
    match (r, expected) {
        (Ok(value), Ok(wanted)) => value@ == wanted,
        (Err(VendorError::RegistryInvalidEntry { name: n, reason }), Err(why)) => n@ == name
            && reason@ == why,
        _ => false,
    }
}

/// The relative path a listed member is written to, which is the member's own.
///
/// The trust check [`output_name`] makes, without the flattening: every segment has to be a plain
/// name, so nothing absolute, climbing or drive-qualified is joined to the folder.
pub fn member_path(name: &str, member: &str) -> (r: Result<String, VendorError>)
    ensures
        settles(r, member_path_spec(member@), name@),
{
    let path = text::to_slashes(member);
    let pieces = text::split_on(path.as_str(), '/');
    let ghost views = pieces_of(member@);
    let mut i: usize = 0;
    while i < pieces.len()
        invariant
            i <= pieces@.len(),
            views == pieces_of(member@),
            views == text::texts(pieces@),
            forall|j: int| 0 <= j < i ==> plain_segment(#[trigger] views[j]),
        decreases pieces@.len() - i,
    {
        let piece = pieces[i].as_str();
        assert(views[i as int] == piece@);
        if piece.is_empty() || text::equal(piece, ".") || text::equal(piece, "..")
            || text::contains_char(piece, ':') {
            assert(!plain_segment(views[i as int]));
            let mut reason = "'".to_owned();
            reason.append(member);
            reason.append("' is not a plain relative path");
            return Err(refuse(name, reason));
        }
        i += 1;
    }
    Ok(path)
}

/// Whether a path starts from a root or a drive.
fn is_absolute(path: &str) -> (r: bool)
    ensures
        r == absolute(path@),
{
    let cs = text::chars_of(path);
    if cs.len() > 0 && (cs[0] == '/' || cs[0] == '\\') {
        return true;
    }
    cs.len() > 1 && (('a' <= cs[0] && cs[0] <= 'z') || ('A' <= cs[0] && cs[0] <= 'Z')) && cs[1]
        == ':'
}

/// Whether segments lead out of the folder they start from.
fn leads_out(pieces: &Vec<String>) -> (r: bool)
    ensures
        r == exists|n: int|
            0 <= n <= pieces@.len() && #[trigger] height_of(text::texts(pieces@), n) < 0,
{
    let ghost views = text::texts(pieces@);
    let mut depth: usize = 0;
    let mut i: usize = 0;
    while i < pieces.len()
        invariant
            i <= pieces@.len(),
            views == text::texts(pieces@),
            depth <= i,
            depth == height_of(views, i as int),
            forall|n: int| 0 <= n <= i ==> #[trigger] height_of(views, n) >= 0,
        decreases pieces@.len() - i,
    {
        let piece = pieces[i].as_str();
        assert(views[i as int] == piece@);
        if text::equal(piece, "..") {
            if depth == 0 {
                assert(height_of(views, i + 1) < 0);
                return true;
            }
            depth -= 1;
        } else if !piece.is_empty() && !text::equal(piece, ".") {
            depth += 1;
        }
        i += 1;
        assert(depth == height_of(views, i as int));
    }
    false
}

/// The name the extracted member is written under: its last component.
///
/// Also the trust check. A registry says what to fetch, never where it goes, so an output that is
/// absolute, empty, or climbing out of the folder is refused rather than normalised.
pub fn output_name(name: &str, member: &str) -> (r: Result<String, VendorError>)
    ensures
        settles(r, output_spec(member@), name@),
{
    let path = text::to_slashes(member);
    let pieces = text::split_on(path.as_str(), '/');
    let ghost views = pieces_of(member@);
    proof {
        text::lemma_segments_free(path@, '/');
    }
    let base = pieces[pieces.len() - 1].as_str();
    assert(views.last() == base@);
    if base.is_empty() || text::equal(base, "..") || text::equal(base, ".") {
        return Err(refuse(name, "the member names no file".to_owned()));
    }
    if text::contains_char(base, ':') {
        let mut reason = "'".to_owned();
        reason.append(base);
        reason.append("' is not a plain file name");
        return Err(refuse(name, reason));
    }
    if is_absolute(member) || leads_out(&pieces) {
        let mut reason = "'".to_owned();
        reason.append(member);
        reason.append("' is not a plain file name");
        return Err(refuse(name, reason));
    }
    Ok(base.to_owned())
}

/// A result is what was expected of a map of texts, refusals naming the entry.
pub open spec fn settles_map(
    r: Result<OrderedMap<String>, VendorError>,
    expected: Result<Seq<(Seq<char>, Seq<char>)>, Seq<char>>,
    name: Seq<char>,
) -> bool {
    match (r, expected) {
        (Ok(map), Ok(wanted)) => view_map(map@) == wanted,
        (Err(VendorError::RegistryInvalidEntry { name: n, reason }), Err(why)) => n@ == name
            && reason@ == why,
        _ => false,
    }
}

/// A reason that refuses some of the members refuses all of them.
proof fn lemma_layout_refused(paths: Seq<Seq<char>>, n: int, m: int)
    requires
        0 <= n <= m,
        layout_spec(paths, n) is Err,
    ensures
        layout_spec(paths, m) == layout_spec(paths, n),
    decreases m - n,
{
    if n < m {
        lemma_layout_refused(paths, n, m - 1);
    }
}

/// The members to take out of an asset, as pairs of what they are called and saved under.
///
/// The two forms name their outputs differently, because they mean different things. One member
/// is the executable, so it lands under its last component and `as` may rename it. A list is a
/// layout, so each path is written out as it stands.
pub fn extraction(name: &str, member: &Member, named: Option<&str>) -> (r: Result<
    OrderedMap<String>,
    VendorError,
>)
    ensures
        settles_map(r, extraction_spec(member@, text::str_of(named)), name@),
{
    match member {
        Member::One(path) => {
            let wanted = match named {
                Some(named) => named,
                None => path.as_str(),
            };
            match output_name(name, wanted) {
                Ok(output) => {
                    let mut map: OrderedMap<String> = OrderedMap::new();
                    map.insert(path.clone(), output);
                    assert(view_map(map@) =~= seq![(path@, output@)]);
                    Ok(map)
                },
                Err(error) => Err(error),
            }
        },
        Member::Many(paths) => {
            if paths.len() == 0 {
                return Err(
                    refuse(name, "'member' lists no file to take out of the asset".to_owned()),
                );
            }
            if let Some(named) = named {
                let mut reason = "'member' lists ".to_owned();
                reason.append(text::decimal(paths.len() as u64).as_str());
                reason.append(
                    " files, written out as they stand, so there is no single file for 'as' to rename to '",
                );
                reason.append(named);
                reason.append("'");
                return Err(refuse(name, reason));
            }
            let ghost views = text::texts(paths@);
            let mut map: OrderedMap<String> = OrderedMap::new();
            let mut i: usize = 0;
            assert(view_map(map@) =~= Seq::empty());
            while i < paths.len()
                invariant
                    i <= paths@.len(),
                    views == text::texts(paths@),
                    named is None,
                    paths@.len() > 0,
                    member@ == MemberView::Many(views),
                    layout_spec(views, i as int) == Ok::<_, Seq<char>>(view_map(map@)),
                decreases paths@.len() - i,
            {
                let path = paths[i].as_str();
                assert(views[i as int] == path@);
                match member_path(name, path) {
                    Ok(output) => {
                        proof {
                            lemma_view_map_insert(map@, path@, output);
                        }
                        map.insert(path.to_owned(), output);
                    },
                    Err(error) => {
                        proof {
                            lemma_layout_refused(views, i + 1, views.len() as int);
                        }
                        return Err(error);
                    },
                }
                i += 1;
            }
            Ok(map)
        },
    }
}

/// A map of one entry.
fn single(path: String, target: FileTarget) -> (r: Vec<FileEntry>)
    ensures
        entry_views(r@) == seq![EntryView::Mapped(seq![(path@, target@)])],
{
    let mut map: OrderedMap<FileTarget> = OrderedMap::new();
    let ghost key = path@;
    map.insert(path, target);
    assert(view_map(map@) =~= seq![(key, target@)]);
    let r = vec![FileEntry::Mapped(map)];
    assert(entry_views(r@) =~= seq![EntryView::Mapped(seq![(key, target@)])]);
    r
}

/// The entry for a program with the given files.
fn entry_of(name: &str, program: &Program, files: Vec<FileEntry>) -> (r: Entry)
    ensures
        entry_with(name@, program@, Ok(entry_views(files@))) == Resolution::Found(r@),
{
    Entry {
        name: name.to_owned(),
        repository: program.repository.clone(),
        files,
        release_regex: copy_text(&program.release_regex),
        hash_version_file: program.hash_version_file,
    }
}

/// A result says what resolving comes to.
pub open spec fn resolves(
    r: Result<Entry, VendorError>,
    expected: Resolution,
    name: Seq<char>,
    host: Seq<char>,
) -> bool {
    match expected {
        Resolution::Found(entry) => r matches Ok(found) && found@ == entry,
        Resolution::Unsupported => r matches Err(
            VendorError::RegistryUnsupportedHost { name: n, host: h },
        ) && n@ == name && h@ == host,
        Resolution::Invalid(reason) => r matches Err(
            VendorError::RegistryInvalidEntry { name: n, reason: why },
        ) && n@ == name && why@ == reason,
    }
}

/// Resolves a program that vendors a file from the repository rather than a release.
///
/// Platform-independent by nature, so there is nothing to expand and no target to choose.
fn repository_file(name: &str, program: &Program, path: &str) -> (r: Result<Entry, VendorError>)
    ensures
        resolves(
            r,
            entry_with(
                name@,
                program@,
                repository_files(path@, text::text_of(program.output)),
            ),
            name@,
            Seq::empty(),
        ),
{
    match &program.output {
        Some(output) => match output_name(name, output.as_str()) {
            Ok(output) => Ok(
                entry_of(name, program, single(path.to_owned(), FileTarget::Rename(output))),
            ),
            Err(error) => Err(error),
        },
        None => match output_name(name, path) {
            Ok(_) => {
                let files = vec![FileEntry::Simple(path.to_owned())];
                assert(entry_views(files@) =~= seq![EntryView::Simple(path@)]);
                Ok(entry_of(name, program, files))
            },
            Err(error) => Err(error),
        },
    }
}

/// A copy of a member.
fn copy_member(member: &Option<Member>) -> (r: Option<Member>)
    ensures
        member_of(r) == member_of(*member),
{
    match member {
        Some(Member::One(path)) => Some(Member::One(path.clone())),
        Some(Member::Many(paths)) => Some(Member::Many(text::clone_strings(paths))),
        None => None,
    }
}

/// Resolves a program for the given host key.
///
/// An entry that lists no asset for the host is unsupported; one that is malformed, or names an
/// output that would leave the vendor folder, is refused.
pub fn for_host(name: &str, program: &Program, host: &str) -> (r: Result<Entry, VendorError>)
    ensures
        resolves(r, resolution(name@, program@, host@), name@, host@),
        r matches Ok(entry) ==> entry.name@ == name@ && entry.repository@ == program.repository@
            && text::text_of(entry.release_regex) == text::text_of(program.release_regex)
            && entry.hash_version_file == program.hash_version_file,
        r is Ok && program@.path is None ==> match map_get(program@.targets, host@) {
            Some(TargetView::Explicit(explicit)) => explicit.member is None ==> {
                let files = entry_views(r->Ok_0.files@);
                &&& explicit.output is Some ==> saves(files, explicit.asset, explicit.output->0)
                &&& explicit.output is None && program@.output is Some ==> saves(
                    files,
                    explicit.asset,
                    program@.output->0,
                )
                &&& explicit.output is None && program@.output is None ==> saves(
                    files,
                    explicit.asset,
                    explicit.asset,
                )
            },
            Some(TargetView::Triple(_)) => program.asset is Some,
            None => false,
        },
        r matches Err(VendorError::RegistryUnsupportedHost { .. }) <==> program@.path is None
            && map_get(program@.targets, host@) is None,
        r matches Err(VendorError::RegistryUnsupportedHost { name: n, host: h }) ==> n@ == name@
            && h@ == host@,
        r matches Err(VendorError::RegistryInvalidEntry { name: n, .. }) ==> n@ == name@,
        r matches Err(e) ==> e is RegistryUnsupportedHost || e is RegistryInvalidEntry,
{
    proof {
        if program@.path is None {
            if let Some(TargetView::Explicit(explicit)) = map_get(program@.targets, host@) {
                a_target_has_the_first_say(name@, program@, host@, explicit);
            }
        }
    }
    if let Some(path) = &program.path {
        if program.targets.len() > 0 || program.asset.is_some() || program.member.is_some() {
            return Err(
                refuse(
                    name,
                    "'path' vendors a repository file, so it cannot also define 'asset', 'member' or 'targets'".to_owned(),
                ),
            );
        }
        return repository_file(name, program, path.as_str());
    }
    proof {
        lemma_view_map_index(program.targets@, host@, 0);
        lemma_key_index(program.targets@, host@, 0);
    }
    let target = match program.targets.get(host) {
        Some(target) => target,
        None => {
            return Err(
                VendorError::RegistryUnsupportedHost {
                    name: name.to_owned(),
                    host: host.to_owned(),
                },
            );
        },
    };
    assert(map_get(program@.targets, host@) == Some(target@));
    let asset: String;
    let member: Option<Member>;
    let named: Option<String>;
    match target {
        Target::Explicit(explicit) => {
            asset = explicit.asset.clone();
            member = copy_member(&explicit.member);
            named = match &explicit.output {
                Some(output) => Some(output.clone()),
                None => copy_text(&program.output),
            };
        },
        Target::Triple(triple) => {
            let pattern = match &program.asset {
                Some(pattern) => pattern,
                None => {
                    let mut reason = "target '".to_owned();
                    reason.append(host);
                    reason.append("' names the triple '");
                    reason.append(triple.as_str());
                    reason.append("', so the entry needs a top-level 'asset' pattern");
                    return Err(refuse(name, reason));
                },
            };
            asset = expand(pattern.as_str(), triple.as_str(), host);
            member = match &program.member {
                Some(member) => Some(expand_member(member, triple.as_str(), host)),
                None => None,
            };
            named = match &program.output {
                Some(output) => Some(expand(output.as_str(), triple.as_str(), host)),
                None => None,
            };
        },
    }
    assert(choice(program@, target@, host@) == Ok::<_, Seq<char>>(
        (asset@, member_of(member), text::text_of(named)),
    ));
    let wanted = match &named {
        Some(named) => Some(named.as_str()),
        None => None,
    };
    match member {
        None => {
            // No member: the asset is the binary itself, saved under its own name or the one `as`
            // gives it.
            let source = match wanted {
                Some(named) => named,
                None => asset.as_str(),
            };
            match output_name(name, source) {
                Ok(output) => Ok(
                    entry_of(name, program, single(asset, FileTarget::Rename(output))),
                ),
                Err(error) => Err(error),
            }
        },
        Some(member) => match extraction(name, &member, wanted) {
            Ok(map) => Ok(entry_of(name, program, single(asset, FileTarget::ExtractMap(map)))),
            Err(error) => Err(error),
        },
    }
}

/// Resolving plain segments behind others keeps them all, in order.
proof fn lemma_plain_tail(front: Seq<Seq<char>>, tail: Seq<Seq<char>>, at_root: bool, n: int)
    requires
        0 <= n <= tail.len(),
        forall|i: int| 0 <= i < tail.len() ==> plain_segment(#[trigger] tail[i]),
    ensures
        fsx::resolved(front + tail, at_root, front.len() + n) == fsx::resolved(
            front,
            at_root,
            front.len() as int,
        ) + tail.take(n),
    decreases n,
{
    let all = front + tail;
    if n == 0 {
        lemma_same_front(front, tail, at_root, front.len() as int);
        assert(tail.take(0) =~= Seq::empty());
        let kept = fsx::resolved(front, at_root, front.len() as int);
        assert(kept + tail.take(0) =~= kept);
    } else {
        lemma_plain_tail(front, tail, at_root, n - 1);
        assert(all[front.len() + n - 1] == tail[n - 1]);
        assert(plain_segment(tail[n - 1]));
        assert(tail.take(n) =~= tail.take(n - 1).push(tail[n - 1]));
        let kept = fsx::resolved(front, at_root, front.len() as int);
        assert((kept + tail.take(n - 1)).push(tail[n - 1]) =~= kept + tail.take(n));
    }
}

/// Resolving the first segments does not look at those behind them.
proof fn lemma_same_front(front: Seq<Seq<char>>, tail: Seq<Seq<char>>, at_root: bool, n: int)
    requires
        0 <= n <= front.len(),
    ensures
        fsx::resolved(front + tail, at_root, n) == fsx::resolved(front, at_root, n),
    decreases n,
{
    if n > 0 {
        lemma_same_front(front, tail, at_root, n - 1);
        assert((front + tail)[n - 1] == front[n - 1]);
    }
}

/// A path made of plain segments lands inside the folder it is joined to: the folder's own
/// segments stay, and the path's follow them.
proof fn lemma_plain_path_stays(windows: bool, folder: Seq<char>, path: Seq<char>)
    requires
        folder.len() > 0,
        windows || folder.last() != '\\',
        fsx::stays_behind(windows, folder, path),
        forall|i: int|
            0 <= i < text::segments(fsx::plain(windows, path), '/').len() ==> plain_segment(
                #[trigger] text::segments(fsx::plain(windows, path), '/')[i],
            ),
    ensures
        fsx::path_pieces(windows, fsx::appended(windows, folder, path)) == fsx::path_pieces(
            windows,
            folder,
        ) + text::segments(fsx::plain(windows, path), '/'),
{
    let part = fsx::plain(windows, path);
    let tail = text::segments(part, '/');
    text::lemma_segments_free(part, '/');
    assert(part.len() > 0) by {
        if part.len() == 0 {
            text::lemma_first_index(part, '/', 0);
            assert(text::segments(part, '/') =~= seq![part]);
            assert(plain_segment(tail[0]));
        }
    }
    let base = fsx::plain(windows, folder);
    let joined = fsx::plain(windows, fsx::appended(windows, folder, path));
    let at_root = fsx::rooted(windows, folder);
    let end = fsx::drive_end(windows, base);
    fsx::lemma_drive(windows, base);
    fsx::lemma_drive(windows, joined);
    assert(fsx::drive_end(windows, joined) == end) by {
        assert(fsx::drive_of(windows, folder).len() == end);
    }
    let body = base.skip(end);
    let n = tail.len() as int;
    assert(tail.take(n) =~= tail);
    if base.last() == '/' {
        assert(end < base.len()) by {
            lemma_drive_is_no_slash(windows, base);
        }
        let stem = body.drop_last();
        let front = text::segments(stem, '/');
        let empty = Seq::<char>::empty();
        assert(body =~= stem.push('/') + empty);
        text::lemma_segments_concat(stem, empty, '/');
        text::lemma_first_index(empty, '/', 0);
        assert(text::segments(empty, '/') =~= seq![empty]);
        assert(joined =~= base + part);
        assert(joined.skip(end) =~= stem.push('/') + part);
        text::lemma_segments_concat(stem, part, '/');
        lemma_plain_tail(front, tail, at_root, n);
        let whole = front + seq![empty];
        lemma_same_front(front, seq![empty], at_root, front.len() as int);
        assert(whole[front.len() as int] == empty);
        assert(fsx::path_pieces(windows, folder) == fsx::resolved(
            whole,
            at_root,
            front.len() as int + 1,
        ));
    } else {
        let front = text::segments(body, '/');
        assert(joined =~= base.push('/') + part);
        assert(joined.skip(end) =~= body.push('/') + part);
        text::lemma_segments_concat(body, part, '/');
        lemma_plain_tail(front, tail, at_root, n);
    }
}

/// No drive and no share ends in a slash.
proof fn lemma_drive_is_no_slash(windows: bool, s: Seq<char>)
    ensures
        fsx::drive_end(windows, s) > 0 ==> s[fsx::drive_end(windows, s) - 1] != '/',
{
    let end = fsx::drive_end(windows, s);
    if end > 2 {
        let free = |c: char| c != '/';
        let server = fsx::piece_end(s, 2);
        text::lemma_skip_while(s, free, 2);
        if server < s.len() {
            text::lemma_skip_while(s, free, server + 1);
            assert(free(s[end - 1]));
        }
    }
}

/// A listed member never leaves the folder it is written to: joined to the folder, the folder's
/// own segments stay and the member's follow them.
pub proof fn a_listed_member_stays_in_its_folder(
    windows: bool,
    folder: Seq<char>,
    member: Seq<char>,
)
    requires
        folder.len() > 0,
        windows || folder.last() != '\\',
        member_path_spec(member) is Ok,
        fsx::stays_behind(windows, folder, member_path_spec(member)->Ok_0),
    ensures
        fsx::path_pieces(
            windows,
            fsx::appended(windows, folder, member_path_spec(member)->Ok_0),
        ) == fsx::path_pieces(windows, folder) + pieces_of(member),
{
    let path = text::slashed(member);
    assert(fsx::plain(windows, path) =~= path);
    assert forall|i: int| 0 <= i < text::segments(path, '/').len() implies plain_segment(
        #[trigger] text::segments(path, '/')[i],
    ) by {
        assert(pieces_of(member)[i] == text::segments(path, '/')[i]);
    }
    lemma_plain_path_stays(windows, folder, path);
}

/// A file taken out under its own name lands directly in the folder, and nowhere else.
pub proof fn an_output_lands_in_the_folder(windows: bool, folder: Seq<char>, member: Seq<char>)
    requires
        folder.len() > 0,
        windows || folder.last() != '\\',
        output_spec(member) is Ok,
        fsx::stays_behind(windows, folder, output_spec(member)->Ok_0),
    ensures
        fsx::path_pieces(windows, fsx::appended(windows, folder, output_spec(member)->Ok_0))
            == fsx::path_pieces(windows, folder).push(output_spec(member)->Ok_0),
{
    let pieces = pieces_of(member);
    let output = pieces.last();
    let path = text::slashed(member);
    text::lemma_segments_free(path, '/');
    assert(!path.contains('\\'));
    text::lemma_segments_keep(path, '/', '\\');
    assert(!pieces[pieces.len() - 1].contains('/') && !pieces[pieces.len() - 1].contains('\\'));
    assert(fsx::plain(windows, output) =~= output) by {
        assert forall|i: int| 0 <= i < output.len() implies output[i] != '\\' by {
            assert(output.contains(output[i]));
        }
    }
    text::lemma_first_index(output, '/', 0);
    if text::first_index(output, '/', 0) is Some {
        assert(output.contains(output[text::first_index(output, '/', 0)->0]));
    }
    assert(text::segments(output, '/') =~= seq![output]);
    lemma_plain_path_stays(windows, folder, output);
    assert(fsx::path_pieces(windows, folder) + seq![output] =~= fsx::path_pieces(
        windows,
        folder,
    ).push(output));
}

/// A word in braces.
pub open spec fn braced(s: Seq<char>) -> bool {
    &&& s.len() >= 2
    &&& s[0] == '{'
    &&& s.last() == '}'
    &&& forall|i: int| 0 < i < s.len() - 1 ==> #[trigger] s[i] != '{' && s[i] != '}'
}

/// Replacing one braced word keeps the occurrences of another.
proof fn lemma_other_word_survives(
    s: Seq<char>,
    word: Seq<char>,
    with: Seq<char>,
    kept: Seq<char>,
    k: int,
)
    requires
        braced(word),
        braced(kept),
        word != kept,
        text::occurs_at(s, kept, k),
    ensures
        text::find_from(text::replace_all_spec(s, word, with), kept, 0) is Some,
    decreases s.len(),
{
    let out = text::replace_all_spec(s, word, with);
    text::lemma_find_from(s, word, 0);
    text::lemma_find_from(out, kept, 0);
    match text::find_from(s, word, 0) {
        None => {
            assert(text::occurs_at(out, kept, k));
        },
        Some(at) => {
            let n = word.len() as int;
            let m = kept.len() as int;
            let rest = s.skip(at + n);
            let tail = text::replace_all_spec(rest, word, with);
            assert(out == s.take(at) + with + tail);
            assert(forall|i: int| 0 <= i < m ==> s[k + i] == #[trigger] kept[i]) by {
                assert forall|i: int| 0 <= i < m implies s[k + i] == #[trigger] kept[i] by {
                    assert(s.subrange(k, k + m)[i] == s[k + i]);
                }
            }
            assert(forall|i: int| 0 <= i < n ==> s[at + i] == #[trigger] word[i]) by {
                assert forall|i: int| 0 <= i < n implies s[at + i] == #[trigger] word[i] by {
                    assert(s.subrange(at, at + n)[i] == s[at + i]);
                }
            }
            if k + m <= at {
                assert(out.subrange(k, k + m) =~= s.subrange(k, k + m));
                assert(text::occurs_at(out, kept, k));
            } else if k >= at + n {
                let j = k - (at + n);
                assert(rest.subrange(j, j + m) =~= s.subrange(k, k + m));
                assert(text::occurs_at(rest, kept, j));
                lemma_other_word_survives(rest, word, with, kept, j);
                text::lemma_find_from(tail, kept, 0);
                let t = text::find_from(tail, kept, 0)->0;
                let moved = at + with.len() + t;
                assert(out.subrange(moved, moved + m) =~= tail.subrange(t, t + m));
                assert(text::occurs_at(out, kept, moved));
            } else {
                if k < at {
                    assert(kept[at - k] == word[0]);
                } else if k > at {
                    assert(word[k - at] == kept[0]);
                } else {
                    if n < m {
                        assert(kept[n - 1] == word[n - 1]);
                    } else if m < n {
                        assert(word[m - 1] == kept[m - 1]);
                    } else {
                        assert(word =~= kept) by {
                            assert forall|i: int| 0 <= i < n implies word[i] == kept[i] by {
                                assert(s[at + i] == word[i]);
                                assert(s[k + i] == kept[i]);
                            }
                        }
                    }
                }
                assert(false);
            }
        },
    }
}

/// What is expanded for a host keeps the config's own placeholders: a pattern that holds
/// `{release}` or `{version}` still holds it afterwards.
pub proof fn the_config_placeholders_survive(
    pattern: Seq<char>,
    triple: Seq<char>,
    host: Seq<char>,
    placeholder: Seq<char>,
)
    requires
        placeholder == "{release}"@ || placeholder == "{version}"@,
        text::find_from(pattern, placeholder, 0) is Some,
    ensures
        text::find_from(expand_spec(pattern, triple, host), placeholder, 0) is Some,
{
    reveal_strlit("{release}");
    reveal_strlit("{version}");
    reveal_strlit("{target}");
    reveal_strlit("{ext}");
    reveal_strlit("{exe}");
    assert(placeholder[1] == 'r' || placeholder[1] == 'v');
    text::lemma_find_from(pattern, placeholder, 0);
    lemma_other_word_survives(
        pattern,
        "{target}"@,
        triple,
        placeholder,
        text::find_from(pattern, placeholder, 0)->0,
    );
    let targeted = text::replace_all_spec(pattern, "{target}"@, triple);
    text::lemma_find_from(targeted, placeholder, 0);
    lemma_other_word_survives(
        targeted,
        "{ext}"@,
        archive_extension_spec(host),
        placeholder,
        text::find_from(targeted, placeholder, 0)->0,
    );
    let packed = text::replace_all_spec(targeted, "{ext}"@, archive_extension_spec(host));
    text::lemma_find_from(packed, placeholder, 0);
    lemma_other_word_survives(
        packed,
        "{exe}"@,
        executable_suffix_spec(host),
        placeholder,
        text::find_from(packed, placeholder, 0)->0,
    );
}

/// The last component of a path is `base`: a name that says something in its folder, behind the last
/// separator of either kind.
pub open spec fn ends_in(path: Seq<char>, base: Seq<char>) -> bool {
    &&& 0 < base.len() <= path.len()
    &&& base != "."@ && base != ".."@
    &&& !base.contains('/') && !base.contains('\\') && !base.contains(':')
    &&& path.skip(path.len() - base.len()) == base
    &&& path.len() > base.len() ==> ({
        let before = path[path.len() - base.len() - 1];
        before == '/' || before == '\\'
    })
}

/// A path without the backslashes that separate it is split as it stands.
proof fn lemma_pieces_end(path: Seq<char>)
    ensures
        pieces_of(path).len() > 0,
        ({
            let base = pieces_of(path).last();
            &&& base.len() <= path.len()
            &&& !base.contains('/') && !base.contains('\\')
            &&& path.skip(path.len() - base.len()) == base
            &&& path.len() > base.len() ==> ({
                let before = path[path.len() - base.len() - 1];
                before == '/' || before == '\\'
            })
        }),
{
    let plain = text::slashed(path);
    let pieces = text::segments(plain, '/');
    text::lemma_segments_free(plain, '/');
    text::lemma_joined_segments(plain, '/');
    assert(!plain.contains('\\'));
    text::lemma_segments_keep(plain, '/', '\\');
    let base = pieces.last();
    assert(base == pieces[pieces.len() - 1]);
    let k = path.len() - base.len();
    assert(plain.skip(k) =~= base);
    assert(path.skip(k) =~= base) by {
        assert forall|i: int| 0 <= i < base.len() implies path[k + i] == base[i] by {
            assert(plain.skip(k)[i] == base[i]);
            assert(base.contains(base[i]));
            assert(plain[k + i] == base[i]);
        }
    }
    if k > 0 {
        assert(plain[k - 1] == '/');
    }
}

/// What a file is saved under is the last component of what names it.
pub proof fn a_file_is_saved_under_its_last_component(path: Seq<char>)
    ensures
        output_spec(path) matches Ok(base) ==> ends_in(path, base),
{
    lemma_pieces_end(path);
}

/// A path of plain components is never refused, and gives its last one.
pub proof fn a_plain_path_names_a_file(path: Seq<char>, base: Seq<char>)
    requires
        ends_in(path, base),
        forall|i: int| 0 <= i < pieces_of(path).len() ==> plain_segment(#[trigger] pieces_of(path)[i]),
    ensures
        output_spec(path) == Ok::<Seq<char>, Seq<char>>(base),
{
    lemma_pieces_end(path);
    let pieces = pieces_of(path);
    let last = pieces.last();
    assert(pieces[pieces.len() - 1] == last);
    assert(plain_segment(last));
    assert(last == base) by {
        if last.len() < base.len() {
            let at = base.len() - last.len() - 1;
            assert(path.skip(path.len() - base.len())[at] == base[at]);
            assert(base.contains(base[at]));
        } else if base.len() < last.len() {
            let at = last.len() - base.len() - 1;
            assert(path.skip(path.len() - last.len())[at] == last[at]);
            assert(last.contains(last[at]));
        }
    }
    assert forall|n: int| 0 <= n <= pieces.len() implies #[trigger] height_of(pieces, n) >= 0 by {
        lemma_plain_height(pieces, n);
    }
    assert(!climbs(path));
    assert(!absolute(path)) by {
        let plain = text::slashed(path);
        let first = pieces[0];
        assert(plain_segment(first));
        text::lemma_first_index(plain, '/', 0);
        if absolute(path) {
            if path[0] == '/' || path[0] == '\\' {
                assert(plain[0] == '/');
                assert(text::first_index(plain, '/', 0) == Some(0int));
                assert(first =~= Seq::empty());
            } else {
                assert(plain[1] == ':' && plain[0] == path[0]);
                match text::first_index(plain, '/', 0) {
                    Some(at) => {
                        assert(at > 1);
                        assert(first == plain.take(at));
                        assert(first[1] == ':');
                    },
                    None => {
                        assert(first == plain);
                        assert(first[1] == ':');
                    },
                }
                assert(first.contains(':'));
            }
        }
    }
}

/// Plain components only lead further down.
proof fn lemma_plain_height(pieces: Seq<Seq<char>>, n: int)
    requires
        0 <= n <= pieces.len(),
        forall|i: int| 0 <= i < pieces.len() ==> plain_segment(#[trigger] pieces[i]),
    ensures
        height_of(pieces, n) == n,
    decreases n,
{
    if n > 0 {
        lemma_plain_height(pieces, n - 1);
        assert(plain_segment(pieces[n - 1]));
    }
}

/// A path from a root or a drive names no file to save under, nor does one that starts by leaving
/// its folder.
pub proof fn a_path_out_of_the_folder_is_refused(drive: char, rest: Seq<char>)
    requires
        ('a' <= drive && drive <= 'z') || ('A' <= drive && drive <= 'Z'),
    ensures
        output_spec("/"@ + rest) is Err,
        output_spec("\\"@ + rest) is Err,
        output_spec("../"@ + rest) is Err,
        output_spec(seq![drive, ':'] + rest) is Err,
{
    reveal_strlit("/");
    reveal_strlit("\\");
    reveal_strlit("../");
    reveal_strlit("..");
    assert(("/"@ + rest)[0] == '/');
    assert(("\\"@ + rest)[0] == '\\');
    let driven = seq![drive, ':'] + rest;
    assert(driven[0] == drive && driven[1] == ':');
    let climbing = "../"@ + rest;
    let plain = text::slashed(climbing);
    assert(plain[0] == '.' && plain[1] == '.' && plain[2] == '/');
    text::lemma_first_index(plain, '/', 0);
    assert(text::first_index(plain, '/', 0) == Some(2int));
    let pieces = pieces_of(climbing);
    assert(pieces[0] == plain.take(2));
    assert(pieces[0] =~= ".."@);
    reveal_with_fuel(height_of, 2);
    assert(height_of(pieces, 1) == -1);
}

/// A `files` array saves one asset, whole, under the last component of `source`.
pub open spec fn saves(files: Seq<EntryView>, asset: Seq<char>, source: Seq<char>) -> bool {
    &&& files.len() == 1
    &&& files[0] matches EntryView::Mapped(pairs) && pairs.len() == 1 && pairs[0].0 == asset && (
    pairs[0].1 matches model::TargetView::Rename(base) && ends_in(source, base))
}

/// A `files` array takes one member out of one asset, under the last component of `source`.
pub open spec fn takes_out(
    files: Seq<EntryView>,
    asset: Seq<char>,
    member: Seq<char>,
    source: Seq<char>,
) -> bool {
    &&& files.len() == 1
    &&& files[0] matches EntryView::Mapped(pairs) && pairs.len() == 1 && pairs[0].0 == asset && (
    pairs[0].1 matches model::TargetView::ExtractMap(members) && members.len() == 1
        && members[0].0 == member && ends_in(source, members[0].1))
}

/// A `files` array takes the listed members out of one asset, each under its own path.
pub open spec fn takes_out_all(
    files: Seq<EntryView>,
    asset: Seq<char>,
    paths: Seq<Seq<char>>,
) -> bool {
    &&& files.len() == 1
    &&& files[0] matches EntryView::Mapped(pairs) && pairs.len() == 1 && pairs[0].0 == asset && (
    pairs[0].1 matches model::TargetView::ExtractMap(members) && (forall|i: int|
        0 <= i < paths.len() ==> map_get(members, #[trigger] paths[i]) == Some(
            text::slashed(paths[i]),
        )) && forall|j: int|
        0 <= j < members.len() ==> paths.contains((#[trigger] members[j]).0))
}

/// Listed members are laid out under their own paths, all of them and no others.
proof fn lemma_layout(paths: Seq<Seq<char>>, n: int)
    requires
        0 <= n <= paths.len(),
    ensures
        layout_spec(paths, n) matches Ok(members) ==> (forall|i: int|
            0 <= i < n ==> map_get(members, #[trigger] paths[i]) == Some(text::slashed(paths[i])))
            && forall|j: int|
            0 <= j < members.len() ==> paths.contains((#[trigger] members[j]).0),
    decreases n,
{
    if n > 0 {
        lemma_layout(paths, n - 1);
        if layout_spec(paths, n) is Ok {
            let before = layout_spec(paths, n - 1)->Ok_0;
            let key = paths[n - 1];
            let members = map_insert(before, key, text::slashed(key));
            get_after_insert(before, key, text::slashed(key));
            assert forall|i: int| 0 <= i < n implies map_get(members, #[trigger] paths[i]) == Some(
                text::slashed(paths[i]),
            ) by {
                if paths[i] != key {
                    insert_keeps_the_others(before, key, text::slashed(key), paths[i]);
                }
            }
            assert forall|j: int| 0 <= j < members.len() implies paths.contains(
                (#[trigger] members[j]).0,
            ) by {
                lemma_key_index(before, key, 0);
                assert(paths.contains(key));
                if j < before.len() {
                    assert(members[j].0 == before[j].0);
                }
            }
        }
    }
}

/// What an asset listed for a host is saved under: the target's own `as` counts, whatever the entry
/// as a whole says; the entry's counts only where the target has none, and without either the file's
/// own name does.
pub proof fn a_target_has_the_first_say(
    name: Seq<char>,
    program: ProgramView,
    host: Seq<char>,
    explicit: ExplicitView,
)
    requires
        program.path is None,
        map_get(program.targets, host) == Some(TargetView::Explicit(explicit)),
    ensures
        resolution(name, program, host) matches Resolution::Found(entry) ==> {
            &&& explicit.member is None && explicit.output is Some ==> saves(
                entry.files,
                explicit.asset,
                explicit.output->0,
            )
            &&& explicit.member is None && explicit.output is None && program.output is Some
                ==> saves(entry.files, explicit.asset, program.output->0)
            &&& explicit.member is None && explicit.output is None && program.output is None
                ==> saves(entry.files, explicit.asset, explicit.asset)
            &&& match explicit.member {
                Some(MemberView::One(member)) => {
                    &&& explicit.output is Some ==> takes_out(
                        entry.files,
                        explicit.asset,
                        member,
                        explicit.output->0,
                    )
                    &&& explicit.output is None && program.output is Some ==> takes_out(
                        entry.files,
                        explicit.asset,
                        member,
                        program.output->0,
                    )
                    &&& explicit.output is None && program.output is None ==> takes_out(
                        entry.files,
                        explicit.asset,
                        member,
                        member,
                    )
                },
                Some(MemberView::Many(paths)) => explicit.output is None && program.output is None
                    && paths.len() > 0 && takes_out_all(entry.files, explicit.asset, paths),
                None => true,
            }
        },
{
    lemma_pieces_end(explicit.asset);
    if explicit.output is Some {
        lemma_pieces_end(explicit.output->0);
    }
    if program.output is Some {
        lemma_pieces_end(program.output->0);
    }
    match explicit.member {
        Some(MemberView::One(member)) => {
            lemma_pieces_end(member);
        },
        Some(MemberView::Many(paths)) => {
            lemma_layout(paths, paths.len() as int);
        },
        None => {},
    }
}

/// What a host gets by its triple: the entry's own asset, member and `as`, each with the host's
/// placeholders filled in.
pub proof fn a_triple_fills_the_patterns(
    name: Seq<char>,
    program: ProgramView,
    host: Seq<char>,
    triple: Seq<char>,
)
    requires
        program.path is None,
        map_get(program.targets, host) == Some(TargetView::Triple(triple)),
    ensures
        program.asset is None ==> resolution(name, program, host) is Invalid,
        resolution(name, program, host) matches Resolution::Found(entry) ==> program.asset is Some
            && ({
            let asset = expand_spec(program.asset->0, triple, host);
            match (program.member, program.output) {
                (None, Some(output)) => saves(
                    entry.files,
                    asset,
                    expand_spec(output, triple, host),
                ),
                (None, None) => saves(entry.files, asset, asset),
                (Some(MemberView::One(member)), Some(output)) => takes_out(
                    entry.files,
                    asset,
                    expand_spec(member, triple, host),
                    expand_spec(output, triple, host),
                ),
                (Some(MemberView::One(member)), None) => takes_out(
                    entry.files,
                    asset,
                    expand_spec(member, triple, host),
                    expand_spec(member, triple, host),
                ),
                (Some(MemberView::Many(paths)), output) => output is None && paths.len() > 0
                    && takes_out_all(
                    entry.files,
                    asset,
                    Seq::new(paths.len(), |i: int| expand_spec(paths[i], triple, host)),
                ),
            }
        }),
{
    if program.asset is Some {
        lemma_pieces_end(expand_spec(program.asset->0, triple, host));
    }
    if program.output is Some {
        lemma_pieces_end(expand_spec(program.output->0, triple, host));
    }
    match program.member {
        Some(MemberView::One(member)) => {
            lemma_pieces_end(expand_spec(member, triple, host));
        },
        Some(MemberView::Many(paths)) => {
            let expanded = Seq::new(paths.len(), |i: int| expand_spec(paths[i], triple, host));
            lemma_layout(expanded, expanded.len() as int);
        },
        None => {},
    }
}

/// Listing members and naming one output at once is refused, and so is listing none.
pub proof fn listed_members_have_no_single_name(
    name: Seq<char>,
    program: ProgramView,
    host: Seq<char>,
    explicit: ExplicitView,
    paths: Seq<Seq<char>>,
)
    requires
        program.path is None,
        map_get(program.targets, host) == Some(TargetView::Explicit(explicit)),
        explicit.member == Some(MemberView::Many(paths)),
        paths.len() == 0 || explicit.output is Some || program.output is Some,
    ensures
        resolution(name, program, host) is Invalid,
{
}

/// A file of the repository is taken as it stands, or saved under the last component of the `as` the
/// entry gives it. Such an entry lists neither assets nor hosts.
pub proof fn a_repository_file_is_taken_as_it_stands(
    name: Seq<char>,
    program: ProgramView,
    host: Seq<char>,
    path: Seq<char>,
)
    requires
        program.path == Some(path),
    ensures
        !(resolution(name, program, host) is Unsupported),
        program.targets.len() > 0 || program.asset is Some || program.member is Some ==> resolution(
            name,
            program,
            host,
        ) is Invalid,
        resolution(name, program, host) matches Resolution::Found(entry) ==> {
            &&& program.output is None ==> entry.files == seq![EntryView::Simple(path)]
            &&& program.output is Some ==> saves(entry.files, path, program.output->0)
        },
{
    if program.output is Some {
        lemma_pieces_end(program.output->0);
    }
}

/// A resolved entry goes by the name it was asked for and keeps the program's repository and what it
/// says of releases; a host is unsupported exactly where the program lists it nowhere.
pub proof fn an_entry_keeps_what_the_program_says(
    name: Seq<char>,
    program: ProgramView,
    host: Seq<char>,
)
    ensures
        resolution(name, program, host) matches Resolution::Found(entry) ==> entry.name == name
            && entry.repository == program.repository && entry.release_regex
            == program.release_regex && entry.hash_version_file == program.hash_version_file,
        resolution(name, program, host) is Unsupported <==> program.path is None && map_get(
            program.targets,
            host,
        ) is None,
{
}

/// A name that needs no more than its folder serves as the `as` of a target: the entry resolves, and
/// the asset is saved under that very name.
pub proof fn a_plain_name_is_used_as_it_is(
    name: Seq<char>,
    program: ProgramView,
    host: Seq<char>,
    explicit: ExplicitView,
    own: Seq<char>,
)
    requires
        program.path is None,
        map_get(program.targets, host) == Some(TargetView::Explicit(explicit)),
        explicit.member is None,
        explicit.output == Some(own),
        plain_segment(own),
        !own.contains('/'),
        !own.contains('\\'),
    ensures
        resolution(name, program, host) matches Resolution::Found(entry) && entry.files
            == seq![EntryView::Mapped(seq![(explicit.asset, model::TargetView::Rename(own))])],
{
    let plain = text::slashed(own);
    assert(plain =~= own) by {
        assert forall|i: int| 0 <= i < own.len() implies own[i] != '\\' by {
            assert(own.contains(own[i]));
        }
    }
    text::lemma_first_index(own, '/', 0);
    if text::first_index(own, '/', 0) is Some {
        assert(own.contains(own[text::first_index(own, '/', 0)->0]));
    }
    assert(pieces_of(own) =~= seq![own]);
    assert(own.skip(0) =~= own);
    a_plain_path_names_a_file(own, own);
}

/// What a placeholder stands for on a host.
pub open spec fn stands_for(
    word: Seq<char>,
    triple: Seq<char>,
    host: Seq<char>,
    value: Seq<char>,
) -> bool {
    ||| word == "{target}"@ && value == triple
    ||| word == "{ext}"@ && "windows"@.is_prefix_of(host) && value == ".zip"@
    ||| word == "{ext}"@ && !"windows"@.is_prefix_of(host) && value == ".tar.gz"@
    ||| word == "{exe}"@ && "windows"@.is_prefix_of(host) && value == ".exe"@
    ||| word == "{exe}"@ && !"windows"@.is_prefix_of(host) && value == ""@
}

/// A braced word begins nowhere in a text without an opening brace.
proof fn lemma_no_brace(front: Seq<char>, s: Seq<char>, word: Seq<char>)
    requires
        braced(word),
        !front.contains('{'),
    ensures
        forall|i: int| 0 <= i < front.len() ==> !#[trigger] text::occurs_at(front + s, word, i),
{
    assert forall|i: int| 0 <= i < front.len() implies !#[trigger] text::occurs_at(
        front + s,
        word,
        i,
    ) by {
        if text::occurs_at(front + s, word, i) {
            assert((front + s).subrange(i, i + word.len())[0] == (front + s)[i]);
            assert(front.contains(front[i]));
        }
    }
}

/// A braced word begins nowhere in another one.
proof fn lemma_other_word(other: Seq<char>, s: Seq<char>, word: Seq<char>)
    requires
        braced(word),
        braced(other),
        word != other,
    ensures
        forall|i: int| 0 <= i < other.len() ==> !#[trigger] text::occurs_at(other + s, word, i),
{
    let whole = other + s;
    let n = word.len() as int;
    let m = other.len() as int;
    assert forall|i: int| 0 <= i < m implies !#[trigger] text::occurs_at(whole, word, i) by {
        if text::occurs_at(whole, word, i) {
            assert forall|j: int| 0 <= j < n implies whole[i + j] == #[trigger] word[j] by {
                assert(whole.subrange(i, i + n)[j] == whole[i + j]);
            }
            assert(whole[i + 0] == word[0]);
            if i > 0 {
                assert(other[i] == '{');
                assert(other[i] == other.last() || 0 < i < m - 1);
            } else {
                if n < m {
                    assert(whole[0 + (n - 1)] == word[n - 1]);
                    assert(other[n - 1] == '}');
                } else if m < n {
                    assert(whole[0 + (m - 1)] == word[m - 1]);
                    assert(word[m - 1] == '}');
                } else {
                    assert(word =~= other) by {
                        assert forall|j: int| 0 <= j < n implies word[j] == other[j] by {
                            assert(whole[0 + j] == word[j]);
                        }
                    }
                }
            }
        }
    }
}

/// One round of replacing, on text, a braced word, text, another, and text.
proof fn lemma_round(
    a: Seq<char>,
    p: Seq<char>,
    b: Seq<char>,
    q: Seq<char>,
    c: Seq<char>,
    word: Seq<char>,
    with: Seq<char>,
)
    requires
        braced(word),
        braced(p) || !p.contains('{'),
        braced(q) || !q.contains('{'),
        !a.contains('{'),
        !b.contains('{'),
        !c.contains('{'),
    ensures
        text::replace_all_spec(a + p + b + q + c, word, with) == a + (if p == word {
            with
        } else {
            p
        }) + b + (if q == word {
            with
        } else {
            q
        }) + c,
{
    let empty = Seq::<char>::empty();
    let last = c;
    let fourth = q + c;
    let third = b + fourth;
    let second = p + third;
    assert(a + p + b + q + c =~= a + second);
    lemma_no_brace(a, second, word);
    text::replacing_leaves_the_rest(a, second, word, with);
    let after_p = text::replace_all_spec(third, word, with);
    if p == word {
        text::replacing_goes_on_behind(word, third, with);
    } else {
        if braced(p) {
            lemma_other_word(p, third, word);
        } else {
            lemma_no_brace(p, third, word);
        }
        text::replacing_leaves_the_rest(p, third, word, with);
    }
    lemma_no_brace(b, fourth, word);
    text::replacing_leaves_the_rest(b, fourth, word, with);
    if q == word {
        text::replacing_goes_on_behind(word, last, with);
    } else {
        if braced(q) {
            lemma_other_word(q, last, word);
        } else {
            lemma_no_brace(q, last, word);
        }
        text::replacing_leaves_the_rest(q, last, word, with);
    }
    lemma_no_brace(c, empty, word);
    text::replacing_leaves_the_rest(c, empty, word, with);
    text::lemma_find_from(empty, word, 0);
    assert(text::replace_all_spec(empty, word, with) =~= empty);
    assert(c + empty =~= c);
    let x = if p == word {
        with
    } else {
        p
    };
    let y = if q == word {
        with
    } else {
        q
    };
    assert(a + (x + (b + (y + c))) =~= a + x + b + y + c);
}

/// A pattern is filled for its host: wherever a placeholder stands in it, what that stands for on
/// the host takes its place, and the text around stays. The triple takes the place of `{target}`, the
/// archive extension that of `{ext}`, the suffix of executables that of `{exe}`.
pub proof fn a_pattern_is_filled_for_its_host(
    a: Seq<char>,
    p: Seq<char>,
    b: Seq<char>,
    q: Seq<char>,
    c: Seq<char>,
    triple: Seq<char>,
    host: Seq<char>,
    x: Seq<char>,
    y: Seq<char>,
)
    requires
        !a.contains('{'),
        !b.contains('{'),
        !c.contains('{'),
        !triple.contains('{'),
        stands_for(p, triple, host, x),
        stands_for(q, triple, host, y),
    ensures
        expand_spec(a + p + b + q + c, triple, host) == a + x + b + y + c,
        expand_spec(a, triple, host) == a,
{
    reveal_strlit("{target}");
    reveal_strlit("{ext}");
    reveal_strlit("{exe}");
    reveal_strlit(".zip");
    reveal_strlit(".tar.gz");
    reveal_strlit(".exe");
    reveal_strlit("");
    let target = "{target}"@;
    let ext = "{ext}"@;
    let exe = "{exe}"@;
    assert(target.len() == 8 && ext.len() == 5 && exe.len() == 5 && ext[3] == 't' && exe[3] == 'e');
    let extension = archive_extension_spec(host);
    let suffix = executable_suffix_spec(host);
    assert(!extension.contains('{') && !suffix.contains('{'));
    assert(target != ext && target != exe && ext != exe);
    let p1 = if p == target {
        triple
    } else {
        p
    };
    let q1 = if q == target {
        triple
    } else {
        q
    };
    lemma_round(a, p, b, q, c, target, triple);
    lemma_filled(p1, triple, p == target, ext);
    lemma_filled(q1, triple, q == target, ext);
    let p2 = if p1 == ext {
        extension
    } else {
        p1
    };
    let q2 = if q1 == ext {
        extension
    } else {
        q1
    };
    lemma_round(a, p1, b, q1, c, ext, extension);
    lemma_filled(p1, triple, p == target, exe);
    lemma_filled(q1, triple, q == target, exe);
    lemma_filled(p2, extension, p1 == ext, exe);
    lemma_filled(q2, extension, q1 == ext, exe);
    lemma_round(a, p2, b, q2, c, exe, suffix);
    let empty = Seq::<char>::empty();
    assert(a + empty + empty + empty + empty =~= a);
    lemma_round(a, empty, empty, empty, empty, target, triple);
    lemma_round(a, empty, empty, empty, empty, ext, extension);
    lemma_round(a, empty, empty, empty, empty, exe, suffix);
}

/// A value without a brace is no braced word.
proof fn lemma_filled(s: Seq<char>, value: Seq<char>, is_value: bool, word: Seq<char>)
    requires
        is_value ==> s == value,
        !value.contains('{'),
        braced(word),
    ensures
        is_value ==> s != word,
{
    assert(word.contains(word[0]));
}

/// A refusal names the entry and gives the reason, and only a refusal is answered with one.
pub proof fn a_refusal_names_the_entry<T: View>(
    r: Result<T, VendorError>,
    expected: Result<T::V, Seq<char>>,
    name: Seq<char>,
)
    requires
        settles(r, expected, name),
    ensures
        r is Ok <==> expected is Ok,
        r matches Ok(value) ==> value@ == expected->Ok_0,
        r matches Err(e) ==> (e matches VendorError::RegistryInvalidEntry { name: n, reason } && n@
            == name && reason@ == expected->Err_0),
{
}

/// A dot says nothing, and a folder that is left again is no way out: the name behind them is what a
/// file is saved under.
pub proof fn a_way_back_into_the_folder_is_fine(folder: Seq<char>, name: Seq<char>)
    requires
        plain_segment(folder),
        plain_segment(name),
        !folder.contains('/') && !folder.contains('\\'),
        !name.contains('/') && !name.contains('\\'),
    ensures
        output_spec("./"@ + name) == Ok::<Seq<char>, Seq<char>>(name),
        output_spec(folder + "/../"@ + name) == Ok::<Seq<char>, Seq<char>>(name),
{
    reveal_strlit("./");
    reveal_strlit("/../");
    reveal_strlit(".");
    reveal_strlit("..");
    let dotted = "./"@ + name;
    let back = folder + "/../"@ + name;
    lemma_no_separator(folder);
    lemma_no_separator(name);
    assert(text::slashed(dotted) =~= "."@.push('/') + name) by {
        assert forall|i: int| 0 <= i < name.len() implies name[i] != '\\' by {
            assert(name.contains(name[i]));
        }
    }
    assert(text::slashed(back) =~= folder.push('/') + (".."@.push('/') + name)) by {
        assert forall|i: int| 0 <= i < name.len() implies name[i] != '\\' by {
            assert(name.contains(name[i]));
        }
        assert forall|i: int| 0 <= i < folder.len() implies folder[i] != '\\' by {
            assert(folder.contains(folder[i]));
        }
    }
    assert(!"."@.contains('/') && !"."@.contains('\\'));
    assert(!".."@.contains('/') && !".."@.contains('\\'));
    lemma_no_separator("."@);
    lemma_no_separator(".."@);
    text::lemma_segments_concat("."@, name, '/');
    text::lemma_segments_concat(".."@, name, '/');
    text::lemma_segments_concat(folder, ".."@.push('/') + name, '/');
    assert(pieces_of(dotted) =~= seq!["."@, name]);
    assert(pieces_of(back) =~= seq![folder, ".."@, name]);
    reveal_with_fuel(height_of, 4);
    assert(height_of(pieces_of(dotted), 1) == 0 && height_of(pieces_of(dotted), 2) == 1);
    assert(height_of(pieces_of(back), 1) == 1 && height_of(pieces_of(back), 2) == 0 && height_of(
        pieces_of(back),
        3,
    ) == 1);
    assert(!climbs(dotted)) by {
        assert forall|n: int| 0 <= n <= 2 implies #[trigger] height_of(pieces_of(dotted), n) >= 0 by {
            assert(n == 0 || n == 1 || n == 2);
        }
    }
    assert(!climbs(back)) by {
        assert forall|n: int| 0 <= n <= 3 implies #[trigger] height_of(pieces_of(back), n) >= 0 by {
            assert(n == 0 || n == 1 || n == 2 || n == 3);
        }
    }
    assert(dotted[0] == '.');
    assert(back[0] == folder[0]);
    assert(folder.contains(folder[0]));
    if folder.len() > 1 {
        assert(folder.contains(folder[1]));
        assert(back[1] == folder[1]);
    } else {
        assert(back[1] == '/');
    }
}

/// Text without a separator is one component.
proof fn lemma_no_separator(s: Seq<char>)
    requires
        !s.contains('/'),
    ensures
        text::segments(s, '/') == seq![s],
{
    text::lemma_first_index(s, '/', 0);
    if let Some(at) = text::first_index(s, '/', 0) {
        assert(s.contains(s[at]));
    }
    assert(text::segments(s, '/') =~= seq![s]);
}

/// An entry that only names a file of the repository resolves on any host, where the file's name can be
/// saved under; one that names an asset for a triple resolves where the filled name can be.
pub proof fn a_sound_entry_resolves(
    name: Seq<char>,
    program: ProgramView,
    host: Seq<char>,
    triple: Seq<char>,
)
    requires
        program.output is None,
        program.member is None,
    ensures
        program.path is Some && program.targets.len() == 0 && program.asset is None && output_spec(
            program.path->0,
        ) is Ok ==> resolution(name, program, host) is Found,
        program.path is None && program.asset is Some && map_get(program.targets, host) == Some(
            TargetView::Triple(triple),
        ) && output_spec(expand_spec(program.asset->0, triple, host)) is Ok ==> resolution(
            name,
            program,
            host,
        ) is Found,
{
}

/// Members that are listed resolve where each is a plain path below the folder.
pub proof fn plain_members_resolve(
    name: Seq<char>,
    program: ProgramView,
    host: Seq<char>,
    explicit: ExplicitView,
    paths: Seq<Seq<char>>,
)
    requires
        program.path is None,
        program.output is None,
        map_get(program.targets, host) == Some(TargetView::Explicit(explicit)),
        explicit.output is None,
        explicit.member == Some(MemberView::Many(paths)),
        paths.len() > 0,
        forall|i: int, j: int|
            0 <= i < paths.len() && 0 <= j < pieces_of(paths[i]).len() ==> plain_segment(
                #[trigger] pieces_of(paths[i])[j],
            ),
    ensures
        resolution(name, program, host) is Found,
{
    lemma_plain_layout(paths, paths.len() as int);
}

/// Plain members are laid out.
proof fn lemma_plain_layout(paths: Seq<Seq<char>>, n: int)
    requires
        0 <= n <= paths.len(),
        forall|i: int, j: int|
            0 <= i < paths.len() && 0 <= j < pieces_of(paths[i]).len() ==> plain_segment(
                #[trigger] pieces_of(paths[i])[j],
            ),
    ensures
        layout_spec(paths, n) is Ok,
    decreases n,
{
    if n > 0 {
        lemma_plain_layout(paths, n - 1);
        assert(member_path_spec(paths[n - 1]) is Ok);
    }
}

} // verus!

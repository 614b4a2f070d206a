//! Dependencies `vendor` can install from a bare name.
//!
//! A handful of dependencies are worth knowing outright, starting with this tool: `vendor add
//! vendorfiles` writes an entry that points at the release asset for the running platform and
//! lands it on top of the running binary, which turns `vendor sync` into a self-update.

use vstd::prelude::*;
use crate::model::{entry_views, EntryView, FileEntry, FileTarget, TargetView};
use crate::text;
use crate::value::{view_map, OrderedMap};

verus! {

/// Where `vendor` releases live.
pub const REPOSITORY: &'static str = "https://github.com/Araxeus/vendorfiles-rs";

/// A dependency that needs no `--files` to describe it.
#[derive(Debug)]
pub struct Known {
    /// The repository to install from.
    pub repository: &'static str,
    /// The release asset for this platform, and what to take out of it.
    pub files: Vec<FileEntry>,
    /// Where the files belong, when the usual `vendor/<name>` is wrong.
    pub folder: Option<String>,
}

/// A name this tool answers to.
pub open spec fn is_known(name: Seq<char>) -> bool {
    name == "vendorfiles"@ || name == "vendorfiles-rs"@ || name == "vendor"@
}

/// The release asset of a platform.
pub open spec fn asset_of(os: Seq<char>) -> Seq<char> {
    if os == "windows"@ {
        "vendor_v{version}_windows.zip"@
    } else if os == "macos"@ {
        "vendor_v{version}_macos.tar.gz"@
    } else {
        "vendor_v{version}_linux.tar.gz"@
    }
}

/// The executable inside the release asset of a platform.
pub open spec fn executable_of(os: Seq<char>) -> Seq<char> {
    if os == "windows"@ {
        "vendor.exe"@
    } else {
        "vendor"@
    }
}

/// The release asset for a platform, and the executable inside it.
///
/// `{version}` expands to the semver core of the tag, so the `v` is spelled out here.
pub fn release_asset(os: &str) -> (r: (&'static str, &'static str))
    ensures
        r.0@ == asset_of(os@),
        r.1@ == executable_of(os@),
{
    if text::equal(os, "windows") {
        ("vendor_v{version}_windows.zip", "vendor.exe")
    } else if text::equal(os, "macos") {
        ("vendor_v{version}_macos.tar.gz", "vendor")
    } else {
        ("vendor_v{version}_linux.tar.gz", "vendor")
    }
}

/// The `files` array that keeps this tool up to date on a platform.
pub open spec fn own_files(os: Seq<char>) -> Seq<EntryView> {
    seq![
        EntryView::Mapped(
            seq![
                (
                    "{release}/"@ + asset_of(os),
                    TargetView::ExtractList(seq![executable_of(os)]),
                ),
            ],
        ),
    ]
}

/// An entry that keeps this tool up to date, given the platform and the folder of the running
/// binary.
///
/// A list keeps the member's own name, which is what makes the destination the running binary
/// rather than something beside it.
pub fn itself(os: &str, folder: Option<String>) -> (r: Known)
    ensures
        r.repository@ == REPOSITORY@,
        entry_views(r.files@) == own_files(os@),
        r.folder == folder,
{
    let (asset, member) = release_asset(os);
    let mut input = "{release}/".to_owned();
    input.append(asset);
    let ghost key = input@;
    let members = vec![member.to_owned()];
    assert(text::texts(members@) =~= seq![executable_of(os@)]);
    let target = FileTarget::ExtractList(members);
    let mut map: OrderedMap<FileTarget> = OrderedMap::new();
    map.insert(input, target);
    assert(view_map(map@) =~= seq![(key, target@)]);
    let files = vec![FileEntry::Mapped(map)];
    assert(entry_views(files@) =~= own_files(os@));
    Known { repository: REPOSITORY, files, folder }
}

/// The entry `name` describes, if there is one.
pub fn find(name: &str, os: &str, folder: Option<String>) -> (r: Option<Known>)
    ensures
        r is Some == is_known(name@),
        r matches Some(known) ==> known.repository@ == REPOSITORY@ && entry_views(known.files@)
            == own_files(os@) && known.folder == folder,
{
    if text::equal(name, "vendorfiles") || text::equal(name, "vendorfiles-rs") || text::equal(
        name,
        "vendor",
    ) {
        Some(itself(os, folder))
    } else {
        None
    }
}

/// Each platform has its own asset, and the executable in it has the platform's suffix.
pub proof fn each_platform_has_its_own_asset(os: Seq<char>)
    ensures
        os == "windows"@ ==> asset_of(os) == "vendor_v{version}_windows.zip"@ && executable_of(os)
            == "vendor.exe"@,
        os == "macos"@ ==> asset_of(os) == "vendor_v{version}_macos.tar.gz"@ && executable_of(os)
            == "vendor"@,
        os != "windows"@ && os != "macos"@ ==> asset_of(os) == "vendor_v{version}_linux.tar.gz"@
            && executable_of(os) == "vendor"@,
        own_files(os).len() == 1 && (own_files(os)[0] matches EntryView::Mapped(pairs) && pairs.len()
            == 1 && pairs[0].0 == "{release}/"@ + asset_of(os) && pairs[0].1
            == TargetView::ExtractList(seq![executable_of(os)])),
{
    reveal_strlit("windows");
    reveal_strlit("macos");
    assert("windows"@[0] == 'w' && "macos"@[0] == 'm');
}

} // verus!

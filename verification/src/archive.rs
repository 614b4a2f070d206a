//! Telling archives apart by their first bytes, and what their entries are called.
//!
//! The content decides the format, not the file name, and Chrome extension containers are
//! unwrapped as ZIPs.

use vstd::prelude::*;
use vstd::slice::slice_subrange;
use crate::error::VendorError;
use crate::fsx::{file_name, name_of};
use crate::text;

verus! {

/// Archive containers this tool understands.
#[derive(Debug, Clone, Copy, PartialEq, Eq, Structural)]
pub enum ArchiveKind {
    /// A ZIP.
    Zip,
    /// A Chrome extension: a signed header followed by a ZIP.
    Crx,
    /// Gzip: a `.tar.gz` if the decompressed stream is a tar, otherwise a single file.
    Gzip,
    /// Xz: likewise a `.tar.xz`, or a single compressed file.
    Xz,
    /// A tar.
    Tar,
}

/// Where a tar's magic stands in its first header.
pub const TAR_MAGIC_OFFSET: usize = 257;

/// The length of a tar header.
pub const TAR_HEADER_LEN: usize = 512;

/// `pattern` stands in `bytes` from `at` on.
pub open spec fn bytes_at(bytes: Seq<u8>, pattern: Seq<u8>, at: int) -> bool {
    at + pattern.len() <= bytes.len() && bytes.subrange(at, at + pattern.len()) == pattern
}

/// The bytes that begin a ZIP with entries: `PK`, three, four.
pub open spec fn zip_magic() -> Seq<u8> {
    seq![0x50u8, 0x4bu8, 0x03u8, 0x04u8]
}

/// The bytes that begin an empty ZIP: `PK`, five, six.
pub open spec fn empty_zip_magic() -> Seq<u8> {
    seq![0x50u8, 0x4bu8, 0x05u8, 0x06u8]
}

/// The bytes that begin a Chrome extension: `Cr24`.
pub open spec fn crx_magic() -> Seq<u8> {
    seq![0x43u8, 0x72u8, 0x32u8, 0x34u8]
}

/// The bytes that begin a gzip stream.
pub open spec fn gzip_magic() -> Seq<u8> {
    seq![0x1fu8, 0x8bu8]
}

/// The bytes that begin an xz stream.
pub open spec fn xz_magic() -> Seq<u8> {
    seq![0xfdu8, 0x37u8, 0x7au8, 0x58u8, 0x5au8, 0x00u8]
}

/// The bytes that mark a tar header: `ustar`.
pub open spec fn tar_magic() -> Seq<u8> {
    seq![0x75u8, 0x73u8, 0x74u8, 0x61u8, 0x72u8]
}

/// A tar header.
pub open spec fn tar_header(header: Seq<u8>) -> bool {
    bytes_at(header, tar_magic(), TAR_MAGIC_OFFSET as int)
}

/// The container that the leading bytes announce.
pub open spec fn sniffed(header: Seq<u8>) -> Option<ArchiveKind> {
    if bytes_at(header, zip_magic(), 0) || bytes_at(header, empty_zip_magic(), 0) {
        Some(ArchiveKind::Zip)
    } else if bytes_at(header, crx_magic(), 0) {
        Some(ArchiveKind::Crx)
    } else if bytes_at(header, gzip_magic(), 0) {
        Some(ArchiveKind::Gzip)
    } else if bytes_at(header, xz_magic(), 0) {
        Some(ArchiveKind::Xz)
    } else if tar_header(header) {
        Some(ArchiveKind::Tar)
    } else {
        None
    }
}

/// Whether `pattern` stands in `bytes` from `at` on.
fn has_bytes(bytes: &[u8], pattern: &Vec<u8>, at: usize) -> (r: bool)
    ensures
        r == bytes_at(bytes@, pattern@, at as int),
{
    let total: usize = bytes.len();
    if at > total || pattern.len() > total - at {
        return false;
    }
    let mut i: usize = 0;
    while i < pattern.len()
        invariant
            i <= pattern@.len(),
            at + pattern@.len() <= bytes@.len() == total,
            forall|j: int| 0 <= j < i ==> bytes@[at + j] == pattern@[j],
        decreases pattern@.len() - i,
    {
        if bytes[at + i] != pattern[i] {
            assert(bytes@.subrange(at as int, at + pattern@.len())[i as int] != pattern@[i as int]);
            return false;
        }
        i += 1;
    }
    assert(bytes@.subrange(at as int, at + pattern@.len()) =~= pattern@);
    true
}

/// Whether a header is that of a tar.
pub fn is_tar(header: &[u8]) -> (r: bool)
    ensures
        r == tar_header(header@),
{
    let magic: Vec<u8> = vec![0x75u8, 0x73u8, 0x74u8, 0x61u8, 0x72u8];
    assert(magic@ =~= tar_magic());
    has_bytes(header, &magic, TAR_MAGIC_OFFSET)
}

/// Identifies an archive from its leading bytes.
pub fn sniff(header: &[u8]) -> (r: Option<ArchiveKind>)
    ensures
        r == sniffed(header@),
{
    let zip: Vec<u8> = vec![0x50u8, 0x4bu8, 0x03u8, 0x04u8];
    assert(zip@ =~= zip_magic());
    let empty_zip: Vec<u8> = vec![0x50u8, 0x4bu8, 0x05u8, 0x06u8];
    assert(empty_zip@ =~= empty_zip_magic());
    if has_bytes(header, &zip, 0) || has_bytes(header, &empty_zip, 0) {
        return Some(ArchiveKind::Zip);
    }
    let crx: Vec<u8> = vec![0x43u8, 0x72u8, 0x32u8, 0x34u8];
    assert(crx@ =~= crx_magic());
    if has_bytes(header, &crx, 0) {
        return Some(ArchiveKind::Crx);
    }
    let gzip: Vec<u8> = vec![0x1fu8, 0x8bu8];
    assert(gzip@ =~= gzip_magic());
    if has_bytes(header, &gzip, 0) {
        return Some(ArchiveKind::Gzip);
    }
    let xz: Vec<u8> = vec![0xfdu8, 0x37u8, 0x7au8, 0x58u8, 0x5au8, 0x00u8];
    assert(xz@ =~= xz_magic());
    if has_bytes(header, &xz, 0) {
        return Some(ArchiveKind::Xz);
    }
    if is_tar(header) {
        return Some(ArchiveKind::Tar);
    }
    None
}

/// The container to read a file as: what its first bytes announce, or a ZIP, whose reader then
/// says what is wrong.
pub fn container(header: &[u8]) -> (r: ArchiveKind)
    ensures
        r == match sniffed(header@) {
            Some(kind) => kind,
            None => ArchiveKind::Zip,
        },
{
    match sniff(header) {
        Some(kind) => kind,
        None => ArchiveKind::Zip,
    }
}

/// The number that four bytes from `at` on make, the lowest first.
pub open spec fn le32(bytes: Seq<u8>, at: int) -> int {
    bytes[at] + bytes[at + 1] * 0x100 + bytes[at + 2] * 0x10000 + bytes[at + 3] * 0x1000000
}

/// Where the ZIP begins that a Chrome extension wraps, for both of its layouts.
pub open spec fn crx_offset(bytes: Seq<u8>) -> Option<int> {
    if !bytes_at(bytes, crx_magic(), 0) || bytes.len() < 12 {
        None
    } else if le32(bytes, 4) == 2 && bytes.len() >= 16 {
        let offset = 16 + le32(bytes, 8) + le32(bytes, 12);
        if offset <= bytes.len() {
            Some(offset)
        } else {
            None
        }
    } else if le32(bytes, 4) == 3 {
        let offset = 12 + le32(bytes, 8);
        if offset <= bytes.len() {
            Some(offset)
        } else {
            None
        }
    } else {
        None
    }
}

/// The number that four bytes from `at` on make, the lowest first.
fn read_le32(bytes: &[u8], at: usize) -> (r: u64)
    requires
        at + 4 <= bytes@.len(),
    ensures
        r == le32(bytes@, at as int),
        r <= 0xffff_ffff,
{
    bytes[at] as u64 + bytes[at + 1] as u64 * 0x100 + bytes[at + 2] as u64 * 0x10000 + bytes[at
        + 3] as u64 * 0x1000000
}

/// Byte offset of the ZIP payload inside a Chrome extension, for both layouts.
pub fn crx_payload_offset(bytes: &[u8]) -> (r: Option<usize>)
    ensures
        match r {
            Some(offset) => crx_offset(bytes@) == Some(offset as int) && offset <= bytes@.len(),
            None => crx_offset(bytes@) is None,
        },
{
    let total: usize = bytes.len();
    let crx: Vec<u8> = vec![0x43u8, 0x72u8, 0x32u8, 0x34u8];
    assert(crx@ =~= crx_magic());
    if !has_bytes(bytes, &crx, 0) || total < 12 {
        return None;
    }
    let version: u64 = read_le32(bytes, 4);
    let offset: u64 = if version == 2 && total >= 16 {
        16 + read_le32(bytes, 8) + read_le32(bytes, 12)
    } else if version == 3 {
        12 + read_le32(bytes, 8)
    } else {
        return None;
    };
    if offset <= total as u64 {
        Some(offset as usize)
    } else {
        None
    }
}

/// The ZIP that a Chrome extension wraps.
pub fn crx_payload(bytes: &[u8]) -> (r: Result<&[u8], VendorError>)
    ensures
        match crx_offset(bytes@) {
            Some(start) => r matches Ok(payload) && payload@ == bytes@.skip(start),
            None => r matches Err(VendorError::Http(said)) && said@ == "unsupported CRX header"@,
        },
{
    match crx_payload_offset(bytes) {
        Some(start) => {
            let payload = slice_subrange(bytes, start, bytes.len());
            assert(payload@ =~= bytes@.skip(start as int));
            Ok(payload)
        },
        None => Err(VendorError::Http("unsupported CRX header".to_owned())),
    }
}

/// The name a lone compressed file extracts to.
pub open spec fn lone_name(windows: bool, archive: Seq<char>, suffix: Seq<char>) -> Seq<char> {
    text::without_suffix(
        match name_of(windows, archive) {
            Some(name) => name,
            None => "archive"@,
        },
        suffix,
    )
}

/// The name a lone compressed file extracts to: its own, minus the compression suffix.
///
/// Shared by extraction and listing so the two cannot disagree.
pub fn lone_file_name(windows: bool, archive: &str, suffix: &str) -> (r: String)
    ensures
        r@ == lone_name(windows, archive@, suffix@),
{
    let name = match file_name(windows, archive) {
        Some(name) => name,
        None => "archive".to_owned(),
    };
    text::strip_suffix(name.as_str(), suffix)
}

/// What a compressed stream turns out to hold.
#[derive(Debug, Clone, PartialEq, Eq)]
pub enum Payload {
    /// A tar.
    Tar,
    /// A lone file, which goes by this name.
    Lone(String),
}

/// The suffix that a compressed file carries.
pub open spec fn suffix_of(kind: ArchiveKind) -> Seq<char> {
    match kind {
        ArchiveKind::Gzip => ".gz"@,
        ArchiveKind::Xz => ".xz"@,
        _ => ""@,
    }
}

/// What a compressed file holds, going by the first bytes of what it decompresses to: a tar, or a
/// lone file named after it.
pub fn payload(windows: bool, archive: &str, kind: ArchiveKind, head: &[u8]) -> (r: Payload)
    ensures
        tar_header(head@) ==> r is Tar,
        !tar_header(head@) ==> (r matches Payload::Lone(name) && name@ == lone_name(
            windows,
            archive@,
            suffix_of(kind),
        )),
{
    if is_tar(head) {
        return Payload::Tar;
    }
    let suffix = match kind {
        ArchiveKind::Gzip => ".gz",
        ArchiveKind::Xz => ".xz",
        _ => "",
    };
    Payload::Lone(lone_file_name(windows, archive, suffix))
}

/// The name of a directory in a ZIP, which marks one by the separator at the end of its name.
pub open spec fn directory_name(name: Seq<char>) -> bool {
    name.len() > 0 && (name.last() == '/' || name.last() == '\\')
}

/// The names that are no directories, of the first `n`.
pub open spec fn zip_members_spec(names: Seq<Seq<char>>, n: int) -> Seq<Seq<char>>
    decreases n,
{
    if n <= 0 {
        Seq::empty()
    } else if directory_name(names[n - 1]) {
        zip_members_spec(names, n - 1)
    } else {
        zip_members_spec(names, n - 1).push(names[n - 1])
    }
}

/// The file paths among a ZIP's names, in their order.
///
/// Directory entries are left out: a member is something that is moved into place, which fails on
/// a directory.
pub fn zip_members(names: &Vec<String>) -> (r: Vec<String>)
    ensures
        text::texts(r@) == zip_members_spec(text::texts(names@), names@.len() as int),
{
    let ghost all = text::texts(names@);
    let mut r: Vec<String> = Vec::new();
    assert(text::texts(r@) =~= Seq::empty());
    let mut i: usize = 0;
    while i < names.len()
        invariant
            i <= names@.len(),
            all == text::texts(names@),
            text::texts(r@) == zip_members_spec(all, i as int),
        decreases names@.len() - i,
    {
        let ghost before = r@;
        let cs = text::chars_of(names[i].as_str());
        let n: usize = cs.len();
        assert(cs@ == all[i as int]);
        if !(n > 0 && (cs[n - 1] == '/' || cs[n - 1] == '\\')) {
            r.push(names[i].clone());
            assert(text::texts(r@) =~= text::texts(before).push(all[i as int]));
        }
        i += 1;
    }
    r
}

/// One entry of a tar, which says in its header whether it is a directory.
#[derive(Debug, Clone, PartialEq, Eq)]
pub struct TarEntry {
    /// Its path.
    pub path: String,
    /// Whether it is a directory.
    pub is_dir: bool,
}

/// The paths of the entries that are no directories, of the first `n`.
pub open spec fn tar_members_spec(entries: Seq<TarEntry>, n: int) -> Seq<Seq<char>>
    decreases n,
{
    if n <= 0 {
        Seq::empty()
    } else if entries[n - 1].is_dir {
        tar_members_spec(entries, n - 1)
    } else {
        tar_members_spec(entries, n - 1).push(entries[n - 1].path@)
    }
}

/// The file paths among a tar's entries, in their order.
pub fn tar_members(entries: &Vec<TarEntry>) -> (r: Vec<String>)
    ensures
        text::texts(r@) == tar_members_spec(entries@, entries@.len() as int),
{
    let mut r: Vec<String> = Vec::new();
    assert(text::texts(r@) =~= Seq::empty());
    let mut i: usize = 0;
    while i < entries.len()
        invariant
            i <= entries@.len(),
            text::texts(r@) == tar_members_spec(entries@, i as int),
        decreases entries@.len() - i,
    {
        let ghost before = r@;
        if !entries[i].is_dir {
            r.push(entries[i].path.clone());
            assert(text::texts(r@) =~= text::texts(before).push(entries@[i as int].path@));
        }
        i += 1;
    }
    r
}

/// What listing a ZIP gives: the names in it, in the order of its central directory, or what is
/// wrong with it.
pub uninterp spec fn zip_listing(bytes: Seq<u8>) -> Result<Seq<Seq<char>>, Seq<char>>;

/// `zip::ZipArchive::new` reads the central directory of a ZIP, and `file_names` lists what is in it,
/// directories included. The format and the wording of a refusal are not stated.
#[verifier::external_body]
fn zip_file_names(bytes: &[u8]) -> (r: Result<Vec<String>, String>)
    ensures
        match r {
            Ok(names) => zip_listing(bytes@) == Ok::<_, Seq<char>>(text::texts(names@)),
            Err(message) => zip_listing(bytes@) == Err::<Seq<Seq<char>>, _>(message@),
        },
{
    let reader = std::io::Cursor::new(bytes);
    let archive = zip::ZipArchive::new(reader).map_err(|error| error.to_string())?;
    archive
        .file_names()
        .map(|name| name.map(|name| name.into_owned()).map_err(|error| error.to_string()))
        .collect()
}

/// The files in the ZIP that a Chrome extension wraps.
pub fn crx_members(bytes: &[u8]) -> (r: Result<Vec<String>, VendorError>)
    ensures
        match crx_offset(bytes@) {
            None => r matches Err(VendorError::Http(said)) && said@ == "unsupported CRX header"@,
            Some(start) => match zip_listing(bytes@.skip(start)) {
                Ok(names) => r matches Ok(members) && text::texts(members@) == zip_members_spec(
                    names,
                    names.len() as int,
                ),
                Err(message) => r matches Err(VendorError::Http(said)) && said@ == message,
            },
        },
{
    let payload = match crx_payload(bytes) {
        Ok(payload) => payload,
        Err(error) => {
            return Err(error);
        },
    };
    match zip_file_names(payload) {
        Ok(names) => Ok(zip_members(&names)),
        Err(said) => Err(VendorError::Http(said)),
    }
}

/// What begins an archive says what it is: the letters of a ZIP, with entries or without, those of a
/// Chrome extension, the two bytes of gzip, the six of xz. What begins otherwise is a tar where its
/// mark stands in its header, and nothing known where not.
pub proof fn the_first_bytes_say_what_it_is(rest: Seq<u8>, header: Seq<u8>)
    ensures
        sniffed(seq![0x50u8, 0x4bu8, 0x03u8, 0x04u8] + rest) == Some(ArchiveKind::Zip),
        sniffed(seq![0x50u8, 0x4bu8, 0x05u8, 0x06u8] + rest) == Some(ArchiveKind::Zip),
        sniffed(seq![0x43u8, 0x72u8, 0x32u8, 0x34u8] + rest) == Some(ArchiveKind::Crx),
        sniffed(seq![0x1fu8, 0x8bu8] + rest) == Some(ArchiveKind::Gzip),
        sniffed(seq![0xfdu8, 0x37u8, 0x7au8, 0x58u8, 0x5au8, 0x00u8] + rest) == Some(
            ArchiveKind::Xz,
        ),
        sniffed(header) == Some(ArchiveKind::Tar) ==> header.len() >= 262 && header[257] == 0x75u8
            && header[258] == 0x73u8 && header[259] == 0x74u8 && header[260] == 0x61u8 && header[261]
            == 0x72u8,
        header.len() >= 262 && header[257] == 0x75u8 && header[258] == 0x73u8 && header[259]
            == 0x74u8 && header[260] == 0x61u8 && header[261] == 0x72u8 && header[0] != 0x50u8
            && header[0] != 0x43u8 && header[0] != 0x1fu8 && header[0] != 0xfdu8 ==> sniffed(header)
            == Some(ArchiveKind::Tar),
        header.len() < 2 ==> sniffed(header) is None,
{
    let zip = zip_magic() + rest;
    let empty_zip = empty_zip_magic() + rest;
    let crx = crx_magic() + rest;
    let gzip = gzip_magic() + rest;
    let xz = xz_magic() + rest;
    assert(zip.subrange(0, 4) =~= zip_magic());
    assert(empty_zip.subrange(0, 4) =~= empty_zip_magic());
    assert(crx.subrange(0, 4) =~= crx_magic());
    assert(gzip.subrange(0, 2) =~= gzip_magic());
    assert(xz.subrange(0, 6) =~= xz_magic());
    lemma_first_byte(crx, zip_magic());
    lemma_first_byte(crx, empty_zip_magic());
    lemma_first_byte(gzip, zip_magic());
    lemma_first_byte(gzip, empty_zip_magic());
    lemma_first_byte(gzip, crx_magic());
    lemma_first_byte(xz, zip_magic());
    lemma_first_byte(xz, empty_zip_magic());
    lemma_first_byte(xz, crx_magic());
    lemma_first_byte(xz, gzip_magic());
    lemma_first_byte(header, zip_magic());
    lemma_first_byte(header, empty_zip_magic());
    lemma_first_byte(header, crx_magic());
    lemma_first_byte(header, gzip_magic());
    lemma_first_byte(header, xz_magic());
    if header.len() >= 262 {
        let mark = header.subrange(257, 262);
        assert(mark[0] == header[257] && mark[1] == header[258] && mark[2] == header[259] && mark[3]
            == header[260] && mark[4] == header[261]);
        if header[257] == 0x75u8 && header[258] == 0x73u8 && header[259] == 0x74u8 && header[260]
            == 0x61u8 && header[261] == 0x72u8 {
            assert(mark =~= tar_magic());
        }
    }
}

/// What begins with a pattern begins with its first byte.
proof fn lemma_first_byte(bytes: Seq<u8>, pattern: Seq<u8>)
    requires
        pattern.len() > 0,
    ensures
        bytes_at(bytes, pattern, 0) ==> bytes.len() > 0 && bytes[0] == pattern[0],
{
    if bytes_at(bytes, pattern, 0) {
        assert(bytes.subrange(0, pattern.len() as int)[0] == bytes[0]);
    }
}

/// A Chrome extension is unwrapped: what is left is the ZIP behind its header, whose length the
/// extension says itself. The older layout has a key and a signature there, the newer one header.
pub proof fn an_extension_is_unwrapped(
    version: u8,
    a: u8,
    b: u8,
    first: Seq<u8>,
    second: Seq<u8>,
    zip: Seq<u8>,
)
    requires
        first.len() == a,
        second.len() == b,
    ensures
        ({
            let bytes = seq![
                0x43u8, 0x72u8, 0x32u8, 0x34u8, 3u8, 0u8, 0u8, 0u8, a, 0u8, 0u8, 0u8,
            ] + first + zip;
            crx_offset(bytes) matches Some(at) && bytes.skip(at) == zip
        }),
        ({
            let bytes = seq![
                0x43u8, 0x72u8, 0x32u8, 0x34u8, 2u8, 0u8, 0u8, 0u8, a, 0u8, 0u8, 0u8, b, 0u8, 0u8,
                0u8,
            ] + first + second + zip;
            crx_offset(bytes) matches Some(at) && bytes.skip(at) == zip
        }),
        version != 2 && version != 3 ==> crx_offset(
            seq![0x43u8, 0x72u8, 0x32u8, 0x34u8, version, 0u8, 0u8, 0u8, a, 0u8, 0u8, 0u8] + zip,
        ) is None,
{
    let newer = seq![0x43u8, 0x72u8, 0x32u8, 0x34u8, 3u8, 0u8, 0u8, 0u8, a, 0u8, 0u8, 0u8] + first
        + zip;
    assert(newer.subrange(0, 4) =~= crx_magic());
    assert(newer[4] == 3 && newer[5] == 0 && newer[6] == 0 && newer[7] == 0 && newer[8] == a
        && newer[9] == 0 && newer[10] == 0 && newer[11] == 0);
    assert(crx_offset(newer) == Some(12 + a as int));
    assert(newer.skip(12 + a as int) =~= zip);
    let older = seq![
        0x43u8, 0x72u8, 0x32u8, 0x34u8, 2u8, 0u8, 0u8, 0u8, a, 0u8, 0u8, 0u8, b, 0u8, 0u8, 0u8,
    ] + first + second + zip;
    assert(older.subrange(0, 4) =~= crx_magic());
    assert(older[4] == 2 && older[5] == 0 && older[6] == 0 && older[7] == 0 && older[8] == a
        && older[9] == 0 && older[10] == 0 && older[11] == 0 && older[12] == b && older[13] == 0
        && older[14] == 0 && older[15] == 0);
    assert(crx_offset(older) == Some(16 + a as int + b as int));
    assert(older.skip(16 + a as int + b as int) =~= zip);
    let other = seq![0x43u8, 0x72u8, 0x32u8, 0x34u8, version, 0u8, 0u8, 0u8, a, 0u8, 0u8, 0u8]
        + zip;
    assert(other[4] == version && other[5] == 0 && other[6] == 0 && other[7] == 0);
}

/// The members of a ZIP are its names but for the directories, each as often as it stands there and
/// in the same order; a name that ends in a separator is a directory's.
pub proof fn the_members_are_the_files(names: Seq<Seq<char>>, n: int)
    requires
        0 <= n < names.len(),
    ensures
        ({
            let name = names[n];
            let before = zip_members_spec(names, n);
            let after = zip_members_spec(names, n + 1);
            &&& name.len() > 0 && (name.last() == '/' || name.last() == '\\') ==> after == before
            &&& name.len() == 0 || (name.last() != '/' && name.last() != '\\') ==> after
                == before.push(name)
            &&& zip_members_spec(names, 0).len() == 0
        }),
{
}

/// The members of a tar are the paths of its entries but for the directories, in the same order.
pub proof fn the_members_of_a_tar_are_the_files(entries: Seq<TarEntry>, n: int)
    requires
        0 <= n < entries.len(),
    ensures
        ({
            let before = tar_members_spec(entries, n);
            let after = tar_members_spec(entries, n + 1);
            &&& entries[n].is_dir ==> after == before
            &&& !entries[n].is_dir ==> after == before.push(entries[n].path@)
            &&& tar_members_spec(entries, 0).len() == 0
        }),
{
}

/// A lone file goes by the archive's name without the compression's own suffix.
pub proof fn a_lone_file_loses_the_suffix(windows: bool, archive: Seq<char>, name: Seq<char>)
    requires
        name_of(windows, archive) == Some(name),
    ensures
        name == name.take(name.len() - 3) + ".gz"@ && name.len() >= 3 ==> lone_name(
            windows,
            archive,
            suffix_of(ArchiveKind::Gzip),
        ) == name.take(name.len() - 3),
        name == name.take(name.len() - 3) + ".xz"@ && name.len() >= 3 ==> lone_name(
            windows,
            archive,
            suffix_of(ArchiveKind::Xz),
        ) == name.take(name.len() - 3),
        !".gz"@.is_suffix_of(name) ==> lone_name(windows, archive, suffix_of(ArchiveKind::Gzip))
            == name,
        !".xz"@.is_suffix_of(name) ==> lone_name(windows, archive, suffix_of(ArchiveKind::Xz))
            == name,
{
    reveal_strlit(".gz");
    reveal_strlit(".xz");
    let n = name.len() as int;
    if n >= 3 {
        let stem = name.take(n - 3);
        if name == stem + ".gz"@ {
            assert(name.subrange(n - 3, n) =~= ".gz"@) by {
                assert((stem + ".gz"@).subrange(n - 3, n) =~= ".gz"@);
            }
        }
        if name == stem + ".xz"@ {
            assert(name.subrange(n - 3, n) =~= ".xz"@) by {
                assert((stem + ".xz"@).subrange(n - 3, n) =~= ".xz"@);
            }
        }
    }
}

} // verus!

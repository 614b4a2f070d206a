//! Paths as text.
//!
//! Paths appear verbatim in what is printed, so joining and normalising are purely textual: the
//! filesystem is never consulted. Which characters separate the pieces of a path, and whether it may
//! begin with a drive, depends on the platform, so each function is told whether that is Windows.

use vstd::prelude::*;
use crate::error::{lowered, to_lower};
use crate::text;

verus! {

/// A path with slashes between its pieces: on Windows a backslash separates them too.
pub open spec fn plain(windows: bool, path: Seq<char>) -> Seq<char> {
    if windows {
        text::slashed(path)
    } else {
        path
    }
}

/// A path with slashes between its pieces, written with the separator of the platform.
pub open spec fn native(windows: bool, path: Seq<char>) -> Seq<char> {
    if windows {
        Seq::new(
            path.len(),
            |i: int|
                if path[i] == '/' {
                    '\\'
                } else {
                    path[i]
                },
        )
    } else {
        path
    }
}

/// The separator that a platform writes.
pub open spec fn separator(windows: bool) -> char {
    if windows {
        '\\'
    } else {
        '/'
    }
}

/// A character that separates the pieces of a path.
pub open spec fn separates(windows: bool, c: char) -> bool {
    c == '/' || (windows && c == '\\')
}

/// Text that begins with the letter of a drive and a colon.
pub open spec fn drive_start(s: Seq<char>) -> bool {
    s.len() > 1 && text::is_letter(s[0]) && s[1] == ':'
}

/// The end of the run of characters from `from` on that are no slash.
pub open spec fn piece_end(s: Seq<char>, from: int) -> int {
    text::skip_while(s, |c: char| c != '/', from)
}

/// Where the drive, or the server and its share, ends that a path with slashes begins with; the
/// start where it begins with neither. Only Windows knows such a beginning.
pub open spec fn drive_end(windows: bool, s: Seq<char>) -> int {
    if !windows {
        0
    } else if drive_start(s) {
        2
    } else if s.len() > 1 && s[0] == '/' && s[1] == '/' {
        let server = piece_end(s, 2);
        let share = piece_end(s, server + 1);
        if 2 < server && server + 1 < share {
            share
        } else {
            0
        }
    } else {
        0
    }
}

/// A path with slashes begins at a root. A share is one, and a drive with a separator behind it; the
/// drive alone is none.
pub open spec fn rooted_in(windows: bool, s: Seq<char>) -> bool {
    let end = drive_end(windows, s);
    end > 2 || (end < s.len() && s[end] == '/')
}

/// A path that begins at a root.
pub open spec fn rooted(windows: bool, path: Seq<char>) -> bool {
    rooted_in(windows, plain(windows, path))
}

/// The drive or the share that a path begins with, with slashes.
pub open spec fn drive_of(windows: bool, path: Seq<char>) -> Seq<char> {
    let s = plain(windows, path);
    s.take(drive_end(windows, s))
}

/// A piece that says nothing of where the path leads.
pub open spec fn idle(piece: Seq<char>) -> bool {
    piece.len() == 0 || piece == "."@
}

/// The pieces that are left of the first `n` once `.` is dropped and `..` is resolved. A `..` with
/// nothing to resolve is kept where the path is relative, and dropped at the root.
pub open spec fn resolved(pieces: Seq<Seq<char>>, at_root: bool, n: int) -> Seq<Seq<char>>
    decreases n,
{
    if n <= 0 {
        Seq::empty()
    } else {
        let before = resolved(pieces, at_root, n - 1);
        let piece = pieces[n - 1];
        if idle(piece) {
            before
        } else if piece == ".."@ {
            if before.len() > 0 && before.last() != ".."@ {
                before.drop_last()
            } else if at_root {
                before
            } else {
                before.push(piece)
            }
        } else {
            before.push(piece)
        }
    }
}

/// The pieces of a path with slashes, behind its drive, resolved.
pub open spec fn pieces_in(windows: bool, s: Seq<char>) -> Seq<Seq<char>> {
    let pieces = text::segments(s.skip(drive_end(windows, s)), '/');
    resolved(pieces, rooted_in(windows, s), pieces.len() as int)
}

/// The pieces of a path, behind its drive, resolved.
pub open spec fn path_pieces(windows: bool, path: Seq<char>) -> Seq<Seq<char>> {
    pieces_in(windows, plain(windows, path))
}

/// A path with slashes written from its drive, its root and its pieces.
pub open spec fn path_of(drive: Seq<char>, at_root: bool, pieces: Seq<Seq<char>>) -> Seq<char> {
    let root = if at_root {
        seq!['/']
    } else {
        Seq::empty()
    };
    let path = drive + root + text::joined(pieces, '/');
    if path.len() == 0 {
        "."@
    } else {
        path
    }
}

/// A path with slashes, without `.`, without empty pieces, and with `..` resolved.
pub open spec fn tidy(windows: bool, s: Seq<char>) -> Seq<char> {
    path_of(s.take(drive_end(windows, s)), rooted_in(windows, s), pieces_in(windows, s))
}

/// A path without `.`, without empty pieces, with `..` resolved, and with the separators of the
/// platform.
pub open spec fn normalized(windows: bool, path: Seq<char>) -> Seq<char> {
    native(windows, tidy(windows, plain(windows, path)))
}

/// `base` with `part` behind it, and a separator between the two where `base` ends in none.
pub open spec fn appended(windows: bool, base: Seq<char>, part: Seq<char>) -> Seq<char> {
    if part.len() == 0 {
        base
    } else if base.len() > 0 && base.last() != '/' && base.last() != '\\' {
        base.push(separator(windows)) + part
    } else {
        base + part
    }
}

/// `base` with the first `n` parts behind it.
pub open spec fn appended_all(
    windows: bool,
    base: Seq<char>,
    parts: Seq<Seq<char>>,
    n: int,
) -> Seq<char>
    decreases n,
{
    if n <= 0 {
        base
    } else {
        appended(windows, appended_all(windows, base, parts, n - 1), parts[n - 1])
    }
}

/// The texts of a list of string slices.
pub open spec fn strs(v: Seq<&str>) -> Seq<Seq<char>> {
    Seq::new(v.len(), |i: int| v[i]@)
}

/// Where a declared path lands, given the folder it belongs to.
pub open spec fn anchored(windows: bool, folder: Seq<char>, path: Seq<char>) -> Seq<char> {
    if rooted(windows, path) {
        normalized(windows, path)
    } else {
        normalized(windows, appended(windows, folder, path))
    }
}

/// A path with slashes between its pieces.
fn to_plain(windows: bool, path: &str) -> (r: String)
    ensures
        r@ == plain(windows, path@),
{
    if windows {
        text::to_slashes(path)
    } else {
        path.to_owned()
    }
}

/// A path with slashes, written with the separator of the platform.
fn to_native(windows: bool, path: String) -> (r: String)
    ensures
        r@ == native(windows, path@),
{
    if !windows {
        return path;
    }
    let cs = text::chars_of(path.as_str());
    let mut r = String::new();
    let mut i: usize = 0;
    while i < cs.len()
        invariant
            i <= cs@.len(),
            cs@ == path@,
            r@ == native(true, path@).take(i as int),
        decreases cs@.len() - i,
    {
        if cs[i] == '/' {
            r.push('\\');
        } else {
            r.push(cs[i]);
        }
        i += 1;
        assert(r@ =~= native(true, path@).take(i as int));
    }
    assert(r@ =~= native(true, path@));
    r
}

/// The end of the run of characters from `from` on that are no slash.
fn end_of_piece(cs: &Vec<char>, from: usize) -> (r: usize)
    requires
        from <= cs@.len(),
    ensures
        r == piece_end(cs@, from as int),
        from <= r <= cs@.len(),
{
    let ghost free = |c: char| c != '/';
    let mut i: usize = from;
    while i < cs.len() && cs[i] != '/'
        invariant
            from <= i <= cs@.len(),
            free == |c: char| c != '/',
            text::skip_while(cs@, free, from as int) == text::skip_while(cs@, free, i as int),
        decreases cs@.len() - i,
    {
        i += 1;
    }
    i
}

/// Where the drive or the share ends that a path with slashes begins with.
fn end_of_drive(windows: bool, cs: &Vec<char>) -> (r: usize)
    ensures
        r == drive_end(windows, cs@),
        r <= cs@.len(),
{
    if !windows || cs.len() < 2 {
        return 0;
    }
    let c: char = cs[0];
    if (('a' <= c && c <= 'z') || ('A' <= c && c <= 'Z')) && cs[1] == ':' {
        return 2;
    }
    if c != '/' || cs[1] != '/' {
        return 0;
    }
    let server = end_of_piece(cs, 2);
    if server >= cs.len() {
        return 0;
    }
    let share = end_of_piece(cs, server + 1);
    if server > 2 && share > server + 1 {
        share
    } else {
        0
    }
}

/// A path taken apart: its drive, whether it begins at a root, and its pieces, resolved.
struct Parts {
    drive: String,
    at_root: bool,
    pieces: Vec<String>,
}

/// Takes a path apart.
fn parts_of(windows: bool, path: &str) -> (r: Parts)
    ensures
        r.drive@ == drive_of(windows, path@),
        r.at_root == rooted(windows, path@),
        text::texts(r.pieces@) == path_pieces(windows, path@),
{
    let plain = to_plain(windows, path);
    let cs = text::chars_of(plain.as_str());
    let end = end_of_drive(windows, &cs);
    let at_root = end > 2 || (end < cs.len() && cs[end] == '/');
    let drive = text::string_of(&cs, 0, end);
    let body = text::string_of(&cs, end, cs.len());
    assert(cs@.subrange(0, end as int) =~= cs@.take(end as int));
    assert(body@ =~= plain@.skip(end as int));
    let pieces = text::split_on(body.as_str(), '/');
    let ghost all = text::segments(body@, '/');
    let mut out: Vec<String> = Vec::new();
    let mut i: usize = 0;
    assert(text::texts(out@) =~= Seq::empty());
    while i < pieces.len()
        invariant
            i <= pieces@.len() == all.len(),
            text::texts(pieces@) == all,
            text::texts(out@) == resolved(all, at_root, i as int),
        decreases pieces@.len() - i,
    {
        let piece = pieces[i].as_str();
        let ghost before = out@;
        assert(piece@ == all[i as int]);
        if piece.is_empty() || text::equal(piece, ".") {
        } else if text::equal(piece, "..") {
            let climbs = out.len() > 0 && !text::equal(out[out.len() - 1].as_str(), "..");
            if climbs {
                assert(text::texts(before).last() == before.last()@);
                out.pop();
                assert(text::texts(out@) =~= text::texts(before).drop_last());
            } else if !at_root {
                out.push(piece.to_owned());
                assert(text::texts(out@) =~= text::texts(before).push(piece@));
            }
        } else {
            out.push(piece.to_owned());
            assert(text::texts(out@) =~= text::texts(before).push(piece@));
        }
        i += 1;
    }
    Parts { drive, at_root, pieces: out }
}

/// Whether a path begins at a root.
pub fn is_rooted(windows: bool, path: &str) -> (r: bool)
    ensures
        r == rooted(windows, path@),
{
    let plain = to_plain(windows, path);
    let cs = text::chars_of(plain.as_str());
    let end = end_of_drive(windows, &cs);
    end > 2 || (end < cs.len() && cs[end] == '/')
}

/// A path with slashes written from its drive, its root and its pieces.
fn write_path(drive: &str, at_root: bool, pieces: &Vec<String>) -> (r: String)
    ensures
        r@ == path_of(drive@, at_root, text::texts(pieces@)),
{
    let tail = text::join_with(pieces, '/');
    let mut r = drive.to_owned();
    if at_root {
        r.push('/');
    }
    r.append(tail.as_str());
    proof {
        let root = if at_root {
            seq!['/']
        } else {
            Seq::empty()
        };
        assert(r@ =~= drive@ + root + tail@);
    }
    if r.as_str().is_empty() {
        ".".to_owned()
    } else {
        r
    }
}

/// A path with slashes, without the drive it begins with.
pub open spec fn behind_drive(windows: bool, path: Seq<char>) -> Seq<char> {
    let s = plain(windows, path);
    if windows && drive_start(s) {
        s.skip(2)
    } else {
        s
    }
}

/// A path with slashes, without the drive it begins with.
pub fn without_drive(windows: bool, path: &str) -> (r: String)
    ensures
        r@ == behind_drive(windows, path@),
{
    let plain = to_plain(windows, path);
    let cs = text::chars_of(plain.as_str());
    if end_of_drive(windows, &cs) == 2 {
        proof {
            lemma_drive(windows, plain@);
        }
        assert(cs@.subrange(2, cs@.len() as int) =~= plain@.skip(2));
        return text::string_of(&cs, 2, cs.len());
    }
    plain
}

/// Lexically normalises a path: drops `.`, resolves `..`, and unifies separators.
pub fn normalize(windows: bool, path: &str) -> (r: String)
    ensures
        r@ == normalized(windows, path@),
{
    let parts = parts_of(windows, path);
    to_native(windows, write_path(parts.drive.as_str(), parts.at_root, &parts.pieces))
}

/// Puts `part` behind `base`, with a separator between the two where `base` ends in none.
pub fn append_part(windows: bool, base: String, part: &str) -> (r: String)
    ensures
        r@ == appended(windows, base@, part@),
{
    if part.is_empty() {
        return base;
    }
    let cs = text::chars_of(base.as_str());
    let n: usize = cs.len();
    let mut r = base;
    if n > 0 && cs[n - 1] != '/' && cs[n - 1] != '\\' {
        if windows {
            r.push('\\');
        } else {
            r.push('/');
        }
    }
    r.append(part);
    r
}

/// Joins path segments by writing them one after the other, and normalises.
///
/// A segment that starts with a separator does not discard the base.
pub fn join_normalized(windows: bool, base: &str, parts: &[&str]) -> (r: String)
    ensures
        r@ == normalized(
            windows,
            appended_all(windows, base@, strs(parts@), parts@.len() as int),
        ),
{
    let mut joined = base.to_owned();
    let mut i: usize = 0;
    while i < parts.len()
        invariant
            i <= parts@.len(),
            joined@ == appended_all(windows, base@, strs(parts@), i as int),
        decreases parts@.len() - i,
    {
        joined = append_part(windows, joined, parts[i]);
        i += 1;
    }
    normalize(windows, joined.as_str())
}

/// Where a declared path lands, given the folder it belongs to.
///
/// A relative path hangs off `folder`, which is the ordinary case and keeps a checked-in project
/// working wherever it is cloned. A rooted one names a destination of its own and is taken at its
/// word. This is the one rule for where things go, so placing a file and deleting it later cannot
/// disagree.
pub fn anchor(windows: bool, folder: &str, path: &str) -> (r: String)
    ensures
        r@ == anchored(windows, folder@, path@),
{
    if is_rooted(windows, path) {
        normalize(windows, path)
    } else {
        normalize(windows, append_part(windows, folder.to_owned(), path).as_str())
    }
}

/// A plain drive root such as `C:\` stands at `at`.
pub open spec fn drive_at(s: Seq<char>, at: int) -> bool {
    at + 2 < s.len() && text::is_letter(s[at]) && s[at + 1] == ':' && s[at + 2] == '\\'
}

/// A path without the verbatim prefix that Windows puts before a drive.
pub open spec fn simplified(path: Seq<char>) -> Seq<char> {
    if "\\\\?\\"@.is_prefix_of(path) && drive_at(path, 4) {
        path.skip(4)
    } else {
        path
    }
}

/// Strips Windows' `\\?\` verbatim prefix from a simple drive path.
pub fn simplify(path: &str) -> (r: String)
    ensures
        r@ == simplified(path@),
{
    let cs = text::chars_of(path);
    let n: usize = cs.len();
    if text::starts_with(path, "\\\\?\\") && n > 6 {
        let c: char = cs[4];
        if (('a' <= c && c <= 'z') || ('A' <= c && c <= 'Z')) && cs[5] == ':' && cs[6] == '\\' {
            assert(cs@.subrange(4, n as int) == cs@.skip(4));
            return text::string_of(&cs, 4, n);
        }
    }
    path.to_owned()
}

/// Where the pieces of a path with slashes begin: behind its drive and its root.
pub open spec fn body_start(windows: bool, s: Seq<char>) -> int {
    let end = drive_end(windows, s);
    if end < s.len() && s[end] == '/' {
        end + 1
    } else {
        end
    }
}

/// Piece `i` says something of where a path leads. A `.` that a path without a root begins with
/// counts.
pub open spec fn telling(pieces: Seq<Seq<char>>, at_root: bool, i: int) -> bool {
    !idle(pieces[i]) || (i == 0 && !at_root && pieces[i] == "."@)
}

/// How many of the first `n` pieces are left once those at the end that say nothing are dropped.
pub open spec fn told(pieces: Seq<Seq<char>>, at_root: bool, n: int) -> int
    decreases n,
{
    if n <= 0 {
        0
    } else if telling(pieces, at_root, n - 1) {
        n
    } else {
        told(pieces, at_root, n - 1)
    }
}

/// The folder a path lies in: the path up to the last piece but one that says anything, as it is
/// written. What has no such piece at all lies in `.`.
pub open spec fn parent_of(windows: bool, path: Seq<char>) -> Seq<char> {
    let s = plain(windows, path);
    let start = body_start(windows, s);
    let at_root = rooted_in(windows, s);
    let pieces = text::segments(s.skip(start), '/');
    let last = told(pieces, at_root, pieces.len() as int);
    if last == 0 {
        "."@
    } else {
        let kept = pieces.take(told(pieces, at_root, last - 1));
        path.take(start + text::joined(kept, '/').len())
    }
}

/// The name at the end of a path, where it ends in one.
pub open spec fn name_of(windows: bool, path: Seq<char>) -> Option<Seq<char>> {
    let s = plain(windows, path);
    let pieces = text::segments(s.skip(body_start(windows, s)), '/');
    let last = told(pieces, rooted_in(windows, s), pieces.len() as int);
    if last == 0 || pieces[last - 1] == ".."@ || pieces[last - 1] == "."@ {
        None
    } else {
        Some(pieces[last - 1])
    }
}

/// What stands behind the drive and the root of a path: where that begins, whether there is a root,
/// and the pieces as they are written.
fn body_of(windows: bool, path: &str) -> (r: (usize, bool, Vec<String>))
    ensures
        ({
            let s = plain(windows, path@);
            &&& r.0 == body_start(windows, s)
            &&& r.0 <= s.len()
            &&& r.1 == rooted_in(windows, s)
            &&& text::texts(r.2@) == text::segments(s.skip(r.0 as int), '/')
        }),
{
    let plain = to_plain(windows, path);
    let cs = text::chars_of(plain.as_str());
    let end = end_of_drive(windows, &cs);
    let mut start = end;
    let mut at_root = end > 2;
    if end < cs.len() && cs[end] == '/' {
        start = end + 1;
        at_root = true;
    }
    let body = text::string_of(&cs, start, cs.len());
    assert(body@ =~= plain@.skip(start as int));
    (start, at_root, text::split_on(body.as_str(), '/'))
}

/// How many of the first `n` pieces are left once those at the end that say nothing are dropped.
fn count_told(pieces: &Vec<String>, at_root: bool, n: usize) -> (r: usize)
    requires
        n <= pieces@.len(),
    ensures
        r == told(text::texts(pieces@), at_root, n as int),
        r <= n,
{
    let ghost all = text::texts(pieces@);
    let mut k: usize = n;
    while k > 0
        invariant
            k <= n <= pieces@.len(),
            all == text::texts(pieces@),
            told(all, at_root, n as int) == told(all, at_root, k as int),
        decreases k,
    {
        let piece = pieces[k - 1].as_str();
        assert(piece@ == all[k - 1]);
        let dot = text::equal(piece, ".");
        if (!piece.is_empty() && !dot) || (k == 1 && !at_root && dot) {
            return k;
        }
        k -= 1;
    }
    k
}

/// The folder a path lies in.
pub fn parent(windows: bool, path: &str) -> (r: String)
    ensures
        r@ == parent_of(windows, path@),
{
    let (start, at_root, mut pieces) = body_of(windows, path);
    let ghost s = plain(windows, path@);
    let ghost all = text::segments(s.skip(start as int), '/');
    let last = count_told(&pieces, at_root, pieces.len());
    if last == 0 {
        return ".".to_owned();
    }
    let kept = count_told(&pieces, at_root, last - 1);
    while pieces.len() > kept
        invariant
            kept <= pieces@.len() <= all.len(),
            text::texts(pieces@) == all.take(pieces@.len() as int),
        decreases pieces@.len(),
    {
        let ghost held = pieces@;
        pieces.pop();
        proof {
            assert(text::texts(pieces@) =~= text::texts(held).drop_last());
            assert(all.take(held.len() as int).drop_last() =~= all.take(held.len() - 1));
        }
    }
    let front = text::join_with(&pieces, '/');
    let cs = text::chars_of(path);
    let length: usize = text::chars_of(front.as_str()).len();
    proof {
        lemma_joined_front(all, kept as int);
        text::lemma_joined_segments(s.skip(start as int), '/');
    }
    let end: usize = start + length;
    assert(cs@.subrange(0, end as int) =~= path@.take(end as int));
    text::string_of(&cs, 0, end)
}

/// The join of the first pieces is no longer than that of all.
proof fn lemma_joined_front(pieces: Seq<Seq<char>>, n: int)
    requires
        0 <= n <= pieces.len(),
    ensures
        text::joined(pieces.take(n), '/').len() <= text::joined(pieces, '/').len(),
    decreases pieces.len(),
{
    if n < pieces.len() {
        lemma_joined_front(pieces.drop_last(), n);
        assert(pieces.drop_last().take(n) =~= pieces.take(n));
    } else {
        assert(pieces.take(n) =~= pieces);
    }
}

/// The name at the end of a path: none where the path is empty, a root, or ends in `..`.
pub fn file_name(windows: bool, path: &str) -> (r: Option<String>)
    ensures
        text::text_of(r) == name_of(windows, path@),
{
    let (_, at_root, pieces) = body_of(windows, path);
    let ghost all = text::texts(pieces@);
    let last = count_told(&pieces, at_root, pieces.len());
    if last == 0 {
        return None;
    }
    let piece = pieces[last - 1].as_str();
    assert(piece@ == all[last - 1]);
    if text::equal(piece, "..") || text::equal(piece, ".") {
        None
    } else {
        Some(piece.to_owned())
    }
}

/// `name` inside `folder`.
pub open spec fn below_spec(windows: bool, folder: Seq<char>, name: Seq<char>) -> Seq<char> {
    if folder.len() == 0 || separates(windows, folder.last()) || (windows && folder.len() == 2
        && drive_start(folder)) {
        folder + name
    } else {
        folder.push(separator(windows)) + name
    }
}

/// `name` inside `folder`, as it stands: nothing is resolved.
pub fn below(windows: bool, folder: &str, name: &str) -> (r: String)
    ensures
        r@ == below_spec(windows, folder@, name@),
{
    let cs = text::chars_of(folder);
    let n: usize = cs.len();
    let mut r = folder.to_owned();
    if n > 0 && cs[n - 1] != '/' && !(windows && cs[n - 1] == '\\') {
        if !windows {
            r.push('/');
        } else if !(n == 2 && end_of_drive(true, &cs) == 2) {
            r.push('\\');
        }
    }
    r.append(name);
    r
}

/// The name of the temporary file that stands in for `name`.
pub open spec fn staged_name(name: Seq<char>) -> Seq<char> {
    "."@ + name + ".vendorfiles-update"@
}

/// A path next to `target`.
pub open spec fn staged_spec(windows: bool, target: Seq<char>) -> Seq<char> {
    let folder = parent_of(windows, target);
    let name = staged_name(
        match name_of(windows, target) {
            Some(name) => name,
            None => "vendor"@,
        },
    );
    below_spec(windows, folder, name)
}

/// A temporary path next to `target`, so swapping the two never crosses a filesystem.
pub fn staged_beside(windows: bool, target: &str) -> (r: String)
    ensures
        r@ == staged_spec(windows, target@),
{
    let folder = parent(windows, target);
    let name = match file_name(windows, target) {
        Some(name) => name,
        None => "vendor".to_owned(),
    };
    let mut staged = ".".to_owned();
    staged.append(name.as_str());
    staged.append(".vendorfiles-update");
    below(windows, folder.as_str(), staged.as_str())
}

/// The folders between `root` and a file that has `pieces`, for pieces up to `n`: innermost first,
/// `root` itself not among them.
pub open spec fn folders_inside(
    windows: bool,
    drive: Seq<char>,
    at_root: bool,
    pieces: Seq<Seq<char>>,
    depth: int,
    n: int,
) -> Seq<Seq<char>>
    decreases n,
{
    if n <= depth || n <= 0 {
        Seq::empty()
    } else {
        seq![native(windows, path_of(drive, at_root, pieces.take(n)))] + folders_inside(
            windows,
            drive,
            at_root,
            pieces,
            depth,
            n - 1,
        )
    }
}

/// Two drives or shares are the same: the case of a drive's letter does not count.
pub open spec fn same_drive(a: Seq<char>, b: Seq<char>) -> bool {
    a == b || (a.len() == 2 && b.len() == 2 && lowered(a) == lowered(b))
}

/// The folders that deleting `file` may leave empty and that lie inside `root`.
pub open spec fn prunable_spec(windows: bool, root: Seq<char>, file: Seq<char>) -> Seq<Seq<char>> {
    let base = path_pieces(windows, root);
    let pieces = path_pieces(windows, file);
    if same_drive(drive_of(windows, root), drive_of(windows, file)) && rooted(windows, root)
        == rooted(windows, file) && base.is_prefix_of(pieces) {
        folders_inside(
            windows,
            drive_of(windows, file),
            rooted(windows, file),
            pieces,
            base.len() as int,
            pieces.len() - 1,
        )
    } else {
        Seq::empty()
    }
}

/// The folders that deleting `file` may leave empty, innermost first. Only those inside `root`
/// count: `root` itself stays, and so does everything outside it.
pub fn prunable_folders(windows: bool, root: &str, file: &str) -> (r: Vec<String>)
    ensures
        text::texts(r@) == prunable_spec(windows, root@, file@),
{
    let Parts { drive: root_drive, at_root: from_root, pieces: base } = parts_of(windows, root);
    let Parts { drive, at_root, mut pieces } = parts_of(windows, file);
    let ghost all = path_pieces(windows, file@);
    let ghost bs = path_pieces(windows, root@);
    let mut out: Vec<String> = Vec::new();
    assert(text::texts(out@) =~= Seq::empty());
    let length: usize = text::chars_of(drive.as_str()).len();
    let same = if length == 2 && text::chars_of(root_drive.as_str()).len() == 2 {
        text::equal(to_lower(root_drive.as_str()).as_str(), to_lower(drive.as_str()).as_str())
    } else {
        text::equal(root_drive.as_str(), drive.as_str())
    };
    if !same || from_root != at_root || base.len() > pieces.len() {
        return out;
    }
    let mut i: usize = 0;
    while i < base.len()
        invariant
            i <= base@.len() <= pieces@.len(),
            text::texts(base@) == bs,
            text::texts(pieces@) == all,
            bs == path_pieces(windows, root@),
            all == path_pieces(windows, file@),
            text::texts(out@) == Seq::<Seq<char>>::empty(),
            forall|j: int| 0 <= j < i ==> bs[j] == all[j],
        decreases base@.len() - i,
    {
        assert(base@[i as int]@ == bs[i as int]);
        assert(pieces@[i as int]@ == all[i as int]);
        if !text::equal(base[i].as_str(), pieces[i].as_str()) {
            assert(all.subrange(0, bs.len() as int)[i as int] != bs[i as int]);
            return out;
        }
        i += 1;
    }
    assert(bs =~= all.subrange(0, bs.len() as int));
    let depth: usize = base.len();
    pieces.pop();
    let ghost n = if all.len() == 0 { 0 } else { all.len() - 1 };
    assert(text::texts(pieces@) =~= all.take(n));
    let ghost d = drive@;
    while pieces.len() > depth
        invariant
            pieces@.len() <= all.len(),
            n <= all.len(),
            depth == bs.len(),
            d == drive@,
            pieces@.len() <= n || n == 0,
            n == 0 ==> pieces@.len() == 0,
            text::texts(pieces@) == all.take(pieces@.len() as int),
            text::texts(out@) + folders_inside(
                windows,
                d,
                at_root,
                all,
                depth as int,
                pieces@.len() as int,
            ) == folders_inside(windows, d, at_root, all, depth as int, n),
        decreases pieces@.len(),
    {
        let ghost k = pieces@.len() as int;
        let ghost before = out@;
        let ghost held = pieces@;
        out.push(to_native(windows, write_path(drive.as_str(), at_root, &pieces)));
        pieces.pop();
        proof {
            let here = native(windows, path_of(d, at_root, all.take(k)));
            assert(text::texts(out@) =~= text::texts(before).push(here));
            assert(text::texts(pieces@) =~= text::texts(held).drop_last());
            assert(all.take(k).drop_last() =~= all.take(k - 1));
            assert(text::texts(out@) + folders_inside(windows, d, at_root, all, depth as int, k - 1)
                =~= text::texts(before) + folders_inside(
                windows,
                d,
                at_root,
                all,
                depth as int,
                k,
            ));
        }
    }
    assert(text::texts(out@) =~= folders_inside(windows, d, at_root, all, depth as int, n));
    out
}

/// What is said of a body that stopped short of, or ran past, what was promised.
pub open spec fn length_mismatch(promised: u64, written: u64) -> Seq<char> {
    "expected "@ + text::decimal_spec(promised as int) + " bytes, received "@ + text::decimal_spec(
        written as int,
    )
}

/// Checks that a saved body is the whole of it, where its length was promised.
pub fn check_length(promised: Option<u64>, written: u64) -> (r: Result<(), String>)
    ensures
        match r {
            Ok(_) => promised is None || promised == Some(written),
            Err(message) => promised is Some && promised != Some(written) && message@
                == length_mismatch(promised->0, written),
        },
{
    match promised {
        Some(promised) => if promised == written {
            Ok(())
        } else {
            let mut message = "expected ".to_owned();
            message.append(text::decimal(promised).as_str());
            message.append(" bytes, received ");
            message.append(text::decimal(written).as_str());
            Err(message)
        },
        None => Ok(()),
    }
}

/// A resolved piece list: no idle pieces, no slashes, and `..` only in front of a relative path.
pub open spec fn clean(pieces: Seq<Seq<char>>, at_root: bool) -> bool {
    &&& forall|i: int|
        0 <= i < pieces.len() ==> !idle(#[trigger] pieces[i]) && !pieces[i].contains('/')
    &&& forall|i: int|
        0 <= i < pieces.len() && #[trigger] pieces[i] == ".."@ ==> !at_root && forall|j: int|
            0 <= j < i ==> #[trigger] pieces[j] == ".."@
}

/// Resolving leaves a clean list.
proof fn lemma_resolved_clean(pieces: Seq<Seq<char>>, at_root: bool, n: int)
    requires
        n <= pieces.len(),
        forall|i: int| 0 <= i < pieces.len() ==> !(#[trigger] pieces[i]).contains('/'),
    ensures
        clean(resolved(pieces, at_root, n), at_root),
    decreases n,
{
    if n > 0 {
        lemma_resolved_clean(pieces, at_root, n - 1);
        let before = resolved(pieces, at_root, n - 1);
        let after = resolved(pieces, at_root, n);
        let piece = pieces[n - 1];
        if !idle(piece) && piece == ".."@ && !(before.len() > 0 && before.last() != ".."@)
            && !at_root {
            assert forall|i: int| 0 <= i < after.len() && #[trigger] after[i] == ".."@ implies !at_root
                && forall|j: int| 0 <= j < i ==> #[trigger] after[j] == ".."@ by {
                if before.len() > 0 {
                    assert(before[before.len() - 1] == ".."@);
                }
                assert forall|j: int| 0 <= j < i implies #[trigger] after[j] == ".."@ by {
                    assert(after[j] == before[j]);
                }
            }
        } else if !idle(piece) && piece != ".."@ {
            assert forall|i: int| 0 <= i < after.len() && #[trigger] after[i] == ".."@ implies !at_root
                && forall|j: int| 0 <= j < i ==> #[trigger] after[j] == ".."@ by {
                assert(before[i] == ".."@);
                assert forall|j: int| 0 <= j < i implies #[trigger] after[j] == ".."@ by {
                    assert(after[j] == before[j]);
                }
            }
        }
    }
}

/// Resolving a clean list changes nothing.
proof fn lemma_resolved_fixed(pieces: Seq<Seq<char>>, at_root: bool, n: int)
    requires
        0 <= n <= pieces.len(),
        clean(pieces, at_root),
    ensures
        resolved(pieces, at_root, n) == pieces.take(n),
    decreases n,
{
    if n > 0 {
        lemma_resolved_fixed(pieces, at_root, n - 1);
        let before = pieces.take(n - 1);
        assert(!idle(pieces[n - 1]));
        assert(pieces.take(n) =~= before.push(pieces[n - 1]));
        if pieces[n - 1] == ".."@ && before.len() > 0 {
            assert(before.last() == pieces[n - 2]);
        }
    } else {
        assert(pieces.take(0) =~= Seq::empty());
    }
}

/// A leading empty piece, which a root leaves in front, changes nothing when resolving.
proof fn lemma_resolved_behind_root(pieces: Seq<Seq<char>>, n: int)
    requires
        0 <= n <= pieces.len(),
    ensures
        resolved(seq![Seq::<char>::empty()] + pieces, true, n + 1) == resolved(pieces, true, n),
    decreases n,
{
    let all = seq![Seq::<char>::empty()] + pieces;
    if n > 0 {
        lemma_resolved_behind_root(pieces, n - 1);
        assert(all[n] == pieces[n - 1]);
    } else {
        assert(resolved(all, true, 0) =~= Seq::empty());
        assert(idle(all[0]));
    }
}

/// What stands behind the root of a path that is written from clean pieces reads as those pieces.
proof fn lemma_body_reads(at_root: bool, pieces: Seq<Seq<char>>, body: Seq<char>)
    requires
        clean(pieces, at_root),
        body == if at_root {
            seq!['/'] + text::joined(pieces, '/')
        } else {
            text::joined(pieces, '/')
        } || (!at_root && pieces.len() == 0 && body == "."@),
    ensures
        ({
            let read = text::segments(body, '/');
            resolved(read, at_root, read.len() as int) == pieces
        }),
        at_root || body.len() == 0 || body[0] != '/',
{
    let n = pieces.len() as int;
    let empty = Seq::<char>::empty();
    reveal_strlit(".");
    if n > 0 {
        assert forall|i: int| 0 <= i < n implies !(#[trigger] pieces[i]).contains('/') by {
            assert(!idle(pieces[i]));
        }
        text::lemma_segments_joined(pieces, '/');
        lemma_resolved_fixed(pieces, at_root, n);
        assert(pieces.take(n) =~= pieces);
        lemma_joined_start(pieces);
    }
    if at_root {
        let tail = text::joined(pieces, '/');
        assert(body =~= empty.push('/') + tail);
        text::lemma_segments_concat(empty, tail, '/');
        assert(text::first_index(empty, '/', 0) is None);
        assert(text::segments(empty, '/') =~= seq![empty]);
        if n > 0 {
            lemma_resolved_behind_root(pieces, n);
        } else {
            assert(tail =~= empty);
            let all = seq![empty] + seq![empty];
            assert(text::segments(body, '/') =~= all);
            reveal_with_fuel(resolved, 3);
            assert(resolved(all, true, 2) =~= Seq::empty());
        }
    } else if n == 0 {
        text::lemma_first_index(body, '/', 0);
        assert(body.len() <= 1);
        assert(text::segments(body, '/') =~= seq![body]);
        assert(idle(body));
        reveal_with_fuel(resolved, 2);
        assert(resolved(seq![body], false, 1) =~= Seq::empty());
    }
}

/// The join of clean pieces does not begin with a slash.
proof fn lemma_joined_start(pieces: Seq<Seq<char>>)
    requires
        pieces.len() > 0,
        forall|i: int|
            0 <= i < pieces.len() ==> !idle(#[trigger] pieces[i]) && !pieces[i].contains('/'),
    ensures
        text::joined(pieces, '/').len() > 0,
        text::joined(pieces, '/')[0] != '/',
{
    let first = pieces[0];
    assert(!idle(first));
    assert(first.contains(first[0]));
    text::lemma_joined_first(pieces, '/');
}

/// A drive or a share with nothing else behind it.
pub open spec fn whole_drive(windows: bool, drive: Seq<char>) -> bool {
    drive_end(windows, drive) == drive.len()
}

/// What a path begins with is a whole drive or share, or nothing.
pub proof fn lemma_drive(windows: bool, s: Seq<char>)
    ensures
        0 <= drive_end(windows, s) <= s.len(),
        whole_drive(windows, s.take(drive_end(windows, s))),
{
    let end = drive_end(windows, s);
    if windows && !drive_start(s) && s.len() > 1 && s[0] == '/' && s[1] == '/' {
        let free = |c: char| c != '/';
        let server = piece_end(s, 2);
        text::lemma_skip_while(s, free, 2);
        if server < s.len() {
            let share = piece_end(s, server + 1);
            text::lemma_skip_while(s, free, server + 1);
            if 2 < server && server + 1 < share {
                let drive = s.take(share);
                text::lemma_skip_to(drive, free, 2, server);
                text::lemma_skip_to(drive, free, server + 1, share);
            }
        }
    }
}

/// A path that is written from a drive, a root and clean pieces is taken apart into these again.
proof fn lemma_written(windows: bool, drive: Seq<char>, at_root: bool, pieces: Seq<Seq<char>>)
    requires
        whole_drive(windows, drive),
        drive.len() > 2 ==> at_root,
        clean(pieces, at_root),
        windows && drive.len() == 0 && !at_root && pieces.len() > 0 ==> !drive_start(pieces[0]),
    ensures
        ({
            let path = path_of(drive, at_root, pieces);
            &&& drive_end(windows, path) == drive.len()
            &&& path.take(drive.len() as int) == drive
            &&& rooted_in(windows, path) == at_root
            &&& pieces_in(windows, path) == pieces
        }),
{
    let path = path_of(drive, at_root, pieces);
    let tail = text::joined(pieces, '/');
    let end = drive.len() as int;
    let body = path.skip(end);
    reveal_strlit(".");
    if pieces.len() > 0 {
        lemma_joined_start(pieces);
        text::lemma_joined_first(pieces, '/');
        assert(!idle(pieces[0]));
    }
    assert(path.take(end) =~= drive);
    assert(body =~= if at_root {
        seq!['/'] + tail
    } else {
        tail
    } || body == "."@);
    lemma_body_reads(at_root, pieces, body);
    assert(drive_end(windows, path) == end) by {
        if windows {
            if end > 2 {
                let free = |c: char| c != '/';
                let server = piece_end(drive, 2);
                text::lemma_skip_while(drive, free, 2);
                text::lemma_skip_while(drive, free, server + 1);
                assert forall|i: int| 0 <= i < end implies path[i] == drive[i] by {}
                assert(path[end] == '/');
                text::lemma_skip_to(path, free, 2, server);
                text::lemma_skip_to(path, free, server + 1, end);
            } else if end == 2 {
                assert(path[0] == drive[0] && path[1] == drive[1]);
                lemma_drive(windows, drive);
            } else {
                assert(end == 0) by {
                    lemma_drive(windows, drive);
                }
                assert(path == body);
                if at_root && path.len() > 1 {
                    assert(path[1] == tail[0]);
                } else if !at_root && pieces.len() > 0 {
                    assert(path == tail);
                    assert(path[0] == pieces[0][0]);
                    if pieces[0].len() > 1 {
                        assert(path[1] == pieces[0][1]);
                    }
                }
            }
        }
    }
    if end < path.len() {
        assert(path[end] == body[0]);
    }
}

/// A path without a drive whose first piece would be taken for one, were it written by itself.
pub open spec fn mistaken(windows: bool, path: Seq<char>) -> bool {
    let pieces = path_pieces(windows, path);
    windows && drive_of(windows, path).len() == 0 && !rooted(windows, path) && pieces.len() > 0
        && drive_start(pieces[0])
}

/// What a path is taken apart into is whole and clean, and on Windows has no backslash.
proof fn lemma_taken_apart(windows: bool, path: Seq<char>)
    ensures
        whole_drive(windows, drive_of(windows, path)),
        drive_of(windows, path).len() > 2 ==> rooted(windows, path),
        clean(path_pieces(windows, path), rooted(windows, path)),
        plain(windows, normalized(windows, path)) == tidy(windows, plain(windows, path)),
{
    let s = plain(windows, path);
    let end = drive_end(windows, s);
    let body = s.skip(end);
    let pieces = text::segments(body, '/');
    let at_root = rooted_in(windows, s);
    lemma_drive(windows, s);
    text::lemma_segments_free(body, '/');
    lemma_resolved_clean(pieces, at_root, pieces.len() as int);
    if windows {
        assert(!s.contains('\\'));
        assert(!body.contains('\\')) by {
            if body.contains('\\') {
                assert(s[end + body.index_of('\\')] == '\\');
            }
        }
        text::lemma_segments_keep(body, '/', '\\');
        lemma_resolved_free(pieces, at_root, pieces.len() as int);
        let kept = pieces_in(windows, s);
        text::lemma_joined_keep(kept, '/', '\\');
        let written = tidy(windows, s);
        reveal_strlit(".");
        assert forall|i: int| 0 <= i < written.len() implies written[i] != '\\' by {
            let tail = text::joined(kept, '/');
            if i < end {
                assert(written[i] == s[i] || written == "."@);
            } else if written != "."@ && i >= written.len() - tail.len() {
                assert(written[i] == tail[i - (written.len() - tail.len())]);
                assert(tail.contains(tail[i - (written.len() - tail.len())]));
            }
        }
        assert(text::slashed(native(true, written)) =~= written);
    }
}

/// Resolving brings in no backslash.
proof fn lemma_resolved_free(pieces: Seq<Seq<char>>, at_root: bool, n: int)
    requires
        0 <= n <= pieces.len(),
        forall|i: int| 0 <= i < pieces.len() ==> !(#[trigger] pieces[i]).contains('\\'),
    ensures
        forall|i: int|
            0 <= i < resolved(pieces, at_root, n).len() ==> !(#[trigger] resolved(
                pieces,
                at_root,
                n,
            )[i]).contains('\\'),
    decreases n,
{
    if n > 0 {
        lemma_resolved_free(pieces, at_root, n - 1);
        let before = resolved(pieces, at_root, n - 1);
        let after = resolved(pieces, at_root, n);
        assert forall|i: int| 0 <= i < after.len() implies !(#[trigger] after[i]).contains('\\') by {
            if i < before.len() {
                assert(after[i] == before[i]);
            } else {
                assert(after[i] == pieces[n - 1]);
            }
        }
    }
}

/// Normalising a normalised path changes nothing, but where its first piece is a single dot behind
/// what would be taken for a drive.
pub proof fn normalize_is_idempotent(windows: bool, path: Seq<char>)
    requires
        mistaken(windows, path) ==> path_pieces(windows, path)[0].skip(2) != "."@,
    ensures
        normalized(windows, normalized(windows, path)) == normalized(windows, path),
{
    let drive = drive_of(windows, path);
    let at_root = rooted(windows, path);
    let pieces = path_pieces(windows, path);
    lemma_taken_apart(windows, path);
    if mistaken(windows, path) {
        lemma_mistaken(pieces);
    } else {
        lemma_written(windows, drive, at_root, pieces);
    }
}

/// What is written of pieces the first of which looks like a drive stays as it is, though it is
/// taken apart otherwise.
proof fn lemma_mistaken(pieces: Seq<Seq<char>>)
    requires
        clean(pieces, false),
        pieces.len() > 0,
        drive_start(pieces[0]),
        pieces[0].skip(2) != "."@,
    ensures
        tidy(true, path_of(Seq::empty(), false, pieces)) == path_of(Seq::empty(), false, pieces),
{
    reveal_strlit(".");
    reveal_strlit("..");
    let path = path_of(Seq::empty(), false, pieces);
    let first = pieces[0];
    let drive = first.take(2);
    let name = first.skip(2);
    let rest = pieces.skip(1);
    text::lemma_joined_first(pieces, '/');
    assert(!idle(first));
    assert(path =~= text::joined(pieces, '/'));
    assert(first != ".."@);
    assert forall|i: int| 0 <= i < rest.len() implies !idle(#[trigger] rest[i])
        && !rest[i].contains('/') && rest[i] != ".."@ by {
        assert(rest[i] == pieces[i + 1]);
        assert(!idle(pieces[i + 1]));
    }
    assert(whole_drive(true, drive));
    if name.len() == 0 {
        assert(first =~= drive);
        let at_root = rest.len() > 0;
        assert(clean(rest, at_root));
        lemma_written(true, drive, at_root, rest);
        if at_root {
            assert(path =~= drive + seq!['/'] + text::joined(rest, '/'));
        } else {
            assert(text::joined(rest, '/') =~= Seq::empty());
            assert(path =~= drive + Seq::<char>::empty() + Seq::<char>::empty());
        }
        assert(path == path_of(drive, at_root, rest));
    } else {
        let all = seq![name] + rest;
        assert forall|i: int| 0 <= i < all.len() implies !idle(#[trigger] all[i])
            && !all[i].contains('/') && (i > 0 ==> all[i] != ".."@) by {
            if i == 0 {
                if name.contains('/') {
                    assert(first[2 + name.index_of('/')] == '/');
                    assert(first.contains('/'));
                }
            } else {
                assert(all[i] == rest[i - 1]);
            }
        }
        assert(clean(all, false));
        lemma_written(true, drive, false, all);
        text::lemma_joined_first(all, '/');
        assert(all.skip(1) =~= rest);
        assert(first =~= drive + name);
        assert(path =~= drive + Seq::<char>::empty() + text::joined(all, '/'));
        assert(path == path_of(drive, false, all));
    }
}

/// A path put behind a folder leaves the folder's drive and root as they are: the folder is no bare
/// drive, and no share whose name the path would complete.
pub open spec fn stays_behind(windows: bool, folder: Seq<char>, path: Seq<char>) -> bool {
    let joined = appended(windows, folder, path);
    drive_of(windows, joined) == drive_of(windows, folder) && rooted(windows, joined) == rooted(
        windows,
        folder,
    )
}

/// What is written between the separators of a path, behind its drive and its root.
pub open spec fn written_pieces(windows: bool, path: Seq<char>) -> Seq<Seq<char>> {
    let s = plain(windows, path);
    text::segments(s.skip(body_start(windows, s)), '/')
}

/// A normalised path keeps its drive and its root, and holds no `.` and no empty piece, and `..`
/// only in front where it is relative: its text is the drive and the root alone, a lone `.`, or
/// these with clean pieces behind them and a separator between each two.
pub proof fn normalized_path_is_clean(windows: bool, path: Seq<char>)
    requires
        !mistaken(windows, path),
    ensures
        drive_of(windows, normalized(windows, path)) == drive_of(windows, path),
        rooted(windows, normalized(windows, path)) == rooted(windows, path),
        path_pieces(windows, normalized(windows, path)) == path_pieces(windows, path),
        path_pieces(windows, path).len() > 0 ==> written_pieces(windows, normalized(windows, path))
            == path_pieces(windows, path) && clean(
            written_pieces(windows, normalized(windows, path)),
            rooted(windows, path),
        ),
        path_pieces(windows, path).len() == 0 ==> normalized(windows, path) == native(
            windows,
            path_of(drive_of(windows, path), rooted(windows, path), Seq::empty()),
        ),
{
    let drive = drive_of(windows, path);
    let at_root = rooted(windows, path);
    let pieces = path_pieces(windows, path);
    lemma_taken_apart(windows, path);
    lemma_written(windows, drive, at_root, pieces);
    let s = tidy(windows, plain(windows, path));
    if pieces.len() > 0 {
        lemma_joined_start(pieces);
        text::lemma_segments_joined(pieces, '/');
        assert(s.skip(body_start(windows, s)) =~= text::joined(pieces, '/'));
    } else {
        assert(pieces =~= Seq::empty());
    }
}

/// A rooted segment does not escape the base it is joined to: the result is rooted only where the
/// base is. A bare drive is no base: what is joined to it hangs off the drive's root.
pub proof fn a_joined_segment_keeps_the_base(windows: bool, base: Seq<char>, part: Seq<char>)
    requires
        base.len() > 0,
        !(windows && base.len() == 2 && drive_start(base)),
        !mistaken(windows, appended(windows, base, part)),
    ensures
        rooted(windows, normalized(windows, appended(windows, base, part))) == rooted(windows, base),
{
    normalized_path_is_clean(windows, appended(windows, base, part));
    let s = plain(windows, appended(windows, base, part));
    let b = plain(windows, base);
    assert forall|i: int| 0 <= i < b.len() implies s[i] == b[i] by {}
    lemma_drive(windows, s);
    lemma_drive(windows, b);
    if base.len() == 1 && s.len() > 1 && b[0] != '/' {
        assert(s[1] == '/' || !windows);
    }
}

/// What pieces of a path come to: an empty piece and a `.` change nothing, a `..` undoes the piece
/// before it, and with nothing to undo it is dropped at the root and kept elsewhere.
pub proof fn a_step_up_undoes_a_step_down(pieces: Seq<Seq<char>>, at_root: bool, name: Seq<char>)
    requires
        name.len() > 0,
        name != "."@,
        name != ".."@,
    ensures
        ({
            let n = pieces.len() as int;
            let here = resolved(pieces, at_root, n);
            let empty = Seq::<char>::empty();
            &&& resolved(pieces.push("."@), at_root, n + 1) == here
            &&& resolved(pieces.push(empty), at_root, n + 1) == here
            &&& resolved(pieces.push(name), at_root, n + 1) == here.push(name)
            &&& resolved(pieces.push(name).push(".."@), at_root, n + 2) == here
            &&& here.len() == 0 && at_root ==> resolved(pieces.push(".."@), at_root, n + 1).len()
                == 0
            &&& here.len() == 0 && !at_root ==> resolved(pieces.push(".."@), at_root, n + 1) == seq![
                ".."@,
            ]
        }),
{
    reveal_strlit(".");
    reveal_strlit("..");
    let n = pieces.len() as int;
    let here = resolved(pieces, at_root, n);
    let empty = Seq::<char>::empty();
    assert("."@.len() == 1 && ".."@.len() == 2);
    lemma_resolved_front(pieces, pieces.push("."@), at_root, n);
    lemma_resolved_front(pieces, pieces.push(empty), at_root, n);
    lemma_resolved_front(pieces, pieces.push(name), at_root, n);
    lemma_resolved_front(pieces, pieces.push(".."@), at_root, n);
    lemma_resolved_front(pieces.push(name), pieces.push(name).push(".."@), at_root, n + 1);
    assert(here.push(name).drop_last() =~= here);
    assert(pieces.push("."@)[n] == "."@ && pieces.push(empty)[n] == empty && pieces.push(name)[n]
        == name && pieces.push(".."@)[n] == ".."@ && pieces.push(name).push(".."@)[n + 1] == ".."@);
    if here.len() == 0 {
        assert(here.push(".."@) =~= seq![".."@]);
    }
}

/// Resolving the first pieces does not look at those behind them.
proof fn lemma_resolved_front(a: Seq<Seq<char>>, b: Seq<Seq<char>>, at_root: bool, n: int)
    requires
        0 <= n <= a.len(),
        n <= b.len(),
        forall|i: int| 0 <= i < n ==> a[i] == b[i],
    ensures
        resolved(a, at_root, n) == resolved(b, at_root, n),
    decreases n,
{
    if n > 0 {
        lemma_resolved_front(a, b, at_root, n - 1);
    }
}

/// A path that begins at the root lands there, whatever folder it belongs to; any other lands where
/// it is put behind the folder.
pub proof fn a_rooted_path_lands_at_its_root(
    windows: bool,
    folder: Seq<char>,
    other: Seq<char>,
    path: Seq<char>,
)
    ensures
        rooted(windows, path) ==> anchored(windows, folder, path) == anchored(windows, other, path)
            && anchored(windows, folder, path) == normalized(windows, path),
        !rooted(windows, path) ==> anchored(windows, folder, path) == normalized(
            windows,
            appended(windows, folder, path),
        ),
        !windows ==> (rooted(windows, path) <==> path.len() > 0 && path[0] == '/'),
        path.len() == 0 || (path[0] != '/' && path[0] != '\\' && (path.len() < 2 || path[1] != ':'))
            ==> !rooted(windows, path),
{
    let s = plain(windows, path);
    lemma_drive(windows, s);
}

/// A separator stands between a folder and what is put behind it, once.
pub proof fn one_separator_joins(windows: bool, folder: Seq<char>, part: Seq<char>)
    requires
        folder.len() > 0,
        part.len() > 0,
    ensures
        folder.last() == '/' || folder.last() == '\\' ==> appended(windows, folder, part) == folder
            + part,
        folder.last() != '/' && folder.last() != '\\' && windows ==> appended(windows, folder, part)
            == folder.push('\\') + part,
        folder.last() != '/' && folder.last() != '\\' && !windows ==> appended(
            windows,
            folder,
            part,
        ) == folder.push('/') + part,
        appended(windows, folder, Seq::empty()) == folder,
        appended(windows, Seq::empty(), part) == part,
{
    assert(Seq::<char>::empty() + part =~= part);
}

/// What a path says behind its drive and its root, taken apart at its last separator.
proof fn lemma_split_at_the_name(folder: Seq<char>, name: Seq<char>)
    requires
        folder.len() > 0,
        folder.last() != '/',
        folder.last() != '.',
        name.len() > 0,
        name != "."@,
        !name.contains('/'),
    ensures
        ({
            let path = folder.push('/') + name;
            let start = body_start(false, path);
            let pieces = text::segments(path.skip(start), '/');
            let at_root = rooted_in(false, path);
            let n = pieces.len() as int;
            &&& start <= folder.len()
            &&& n >= 2
            &&& pieces[n - 1] == name
            &&& told(pieces, at_root, n) == n
            &&& told(pieces, at_root, n - 1) == n - 1
            &&& text::joined(pieces.take(n - 1), '/') == folder.skip(start)
        }),
{
    reveal_strlit(".");
    let path = folder.push('/') + name;
    let start = body_start(false, path);
    let at_root = rooted_in(false, path);
    assert(path[0] == folder[0]);
    assert(start == 0 || start == 1);
    if start == 1 {
        assert(folder[0] == '/');
        assert(folder.len() > 1);
    }
    let body = folder.skip(start);
    assert(path.skip(start) =~= body.push('/') + name);
    text::lemma_segments_concat(body, name, '/');
    text::lemma_first_index(name, '/', 0);
    if let Some(at) = text::first_index(name, '/', 0) {
        assert(name.contains(name[at]));
    }
    assert(text::segments(name, '/') =~= seq![name]);
    let front = text::segments(body, '/');
    let pieces = text::segments(path.skip(start), '/');
    assert(pieces == front + seq![name]);
    text::lemma_segments_free(body, '/');
    text::lemma_joined_segments(body, '/');
    let n = pieces.len() as int;
    assert(pieces.take(n - 1) =~= front);
    assert(pieces[n - 1] == name);
    assert(telling(pieces, at_root, n - 1));
    let last = front.last();
    assert(pieces[n - 2] == last);
    assert(!idle(last)) by {
        assert(body.len() > 0 && body.last() == folder.last());
        if front.len() == 1 {
            assert(body == front[0]);
        } else {
            let head = text::joined(front.drop_last(), '/').push('/');
            assert(body == head + last);
            if last.len() == 0 {
                assert(body =~= head);
                assert(head.last() == '/');
            }
        }
        assert(last.len() > 0 && last.last() == body.last());
    }
    assert(telling(pieces, at_root, n - 2));
}

/// A path is its folder, a separator and its name: the folder it lies in is what stands before the
/// last separator, and its name what stands behind.
pub proof fn a_path_is_its_folder_and_its_name(folder: Seq<char>, name: Seq<char>)
    requires
        folder.len() > 0,
        folder.last() != '/',
        folder.last() != '.',
        name.len() > 0,
        name != "."@,
        name != ".."@,
        !name.contains('/'),
    ensures
        parent_of(false, folder.push('/') + name) == folder,
        name_of(false, folder.push('/') + name) == Some(name),
        staged_spec(false, folder.push('/') + name) == folder.push('/') + ("."@ + name
            + ".vendorfiles-update"@),
{
    lemma_split_at_the_name(folder, name);
    let path = folder.push('/') + name;
    let start = body_start(false, path);
    assert(folder.skip(start).len() == folder.len() - start);
    assert(path.take(folder.len() as int) =~= folder);
}

/// The folders that deleting a file may leave empty lie on its way up, innermost first: the folder it
/// is in, the folder that is in, and so on, up to the last that is inside the root. Those of a file
/// outside the root are left alone.
pub proof fn only_folders_inside_the_root_are_pruned(
    windows: bool,
    root: Seq<char>,
    file: Seq<char>,
)
    ensures
        ({
            let base = path_pieces(windows, root);
            let pieces = path_pieces(windows, file);
            let found = prunable_spec(windows, root, file);
            &&& found.len() > 0 ==> base.is_prefix_of(pieces) && base.len() < pieces.len() - 1
                && rooted(windows, root) == rooted(windows, file)
            &&& forall|i: int|
                0 <= i < found.len() ==> #[trigger] found[i] == native(
                    windows,
                    path_of(
                        drive_of(windows, file),
                        rooted(windows, file),
                        pieces.take(pieces.len() - 1 - i),
                    ),
                )
            &&& found.len() > 0 ==> found.len() == pieces.len() - 1 - base.len()
            &&& drive_of(windows, root) == drive_of(windows, file) && rooted(windows, root) == rooted(
                windows,
                file,
            ) && base.is_prefix_of(pieces) && base.len() < pieces.len() ==> found.len()
                == pieces.len() - 1 - base.len()
        }),
{
    let base = path_pieces(windows, root);
    let pieces = path_pieces(windows, file);
    lemma_folders(
        windows,
        drive_of(windows, file),
        rooted(windows, file),
        pieces,
        base.len() as int,
        pieces.len() - 1,
    );
}

/// The folders on the way up, one for each piece.
proof fn lemma_folders(
    windows: bool,
    drive: Seq<char>,
    at_root: bool,
    pieces: Seq<Seq<char>>,
    depth: int,
    n: int,
)
    requires
        0 <= depth,
    ensures
        ({
            let found = folders_inside(windows, drive, at_root, pieces, depth, n);
            &&& found.len() == if n > depth {
                n - depth
            } else {
                0
            }
            &&& forall|i: int|
                0 <= i < found.len() ==> #[trigger] found[i] == native(
                    windows,
                    path_of(drive, at_root, pieces.take(n - i)),
                )
        }),
    decreases n,
{
    if n > depth {
        lemma_folders(windows, drive, at_root, pieces, depth, n - 1);
        let rest = folders_inside(windows, drive, at_root, pieces, depth, n - 1);
        let found = folders_inside(windows, drive, at_root, pieces, depth, n);
        assert forall|i: int| 0 <= i < found.len() implies #[trigger] found[i] == native(
            windows,
            path_of(drive, at_root, pieces.take(n - i)),
        ) by {
            if i > 0 {
                assert(found[i] == rest[i - 1]);
            }
        }
    }
}

/// The verbatim prefix is dropped before a drive, and only there.
pub proof fn a_verbatim_prefix_is_dropped_before_a_drive(drive: char, rest: Seq<char>, path: Seq<char>)
    requires
        text::is_letter(drive),
    ensures
        simplified("\\\\?\\"@ + (seq![drive, ':', '\\'] + rest)) == seq![drive, ':', '\\'] + rest,
        simplified(path) == path || "\\\\?\\"@ + simplified(path) == path,
        path.len() < 7 || path[5] != ':' ==> simplified(path) == path,
{
    reveal_strlit("\\\\?\\");
    let prefix = "\\\\?\\"@;
    let tail = seq![drive, ':', '\\'] + rest;
    let whole = prefix + tail;
    assert(prefix.len() == 4);
    assert(whole.subrange(0, 4) =~= prefix);
    assert(whole[4] == drive && whole[5] == ':' && whole[6] == '\\');
    assert(whole.skip(4) =~= tail);
    if simplified(path) != path {
        assert(path.subrange(0, 4) == prefix);
        assert(prefix + path.skip(4) =~= path);
    }
}

/// A name inside a folder stands behind one separator, but for a drive alone, whose files hang off it.
pub proof fn a_name_hangs_below_its_folder(folder: Seq<char>, name: Seq<char>, drive: char)
    requires
        folder.len() > 0,
    ensures
        folder.last() == '/' ==> below_spec(false, folder, name) == folder + name && below_spec(
            true,
            folder,
            name,
        ) == folder + name,
        folder.last() == '\\' ==> below_spec(true, folder, name) == folder + name,
        folder.last() != '/' ==> below_spec(false, folder, name) == folder.push('/') + name,
        folder.last() != '/' && folder.last() != '\\' && folder.len() != 2 ==> below_spec(
            true,
            folder,
            name,
        ) == folder.push('\\') + name,
        text::is_letter(drive) ==> below_spec(true, seq![drive, ':'], name) == seq![drive, ':'] + name,
        below_spec(true, Seq::empty(), name) == name && below_spec(false, Seq::empty(), name) == name,
{
    assert(Seq::<char>::empty() + name =~= name);
}

/// The case of a drive's letter does not count; shares are told apart as they are written.
pub proof fn drives_are_the_same_by_their_letter(a: char, b: char, x: Seq<char>, y: Seq<char>)
    ensures
        same_drive(seq![a, ':'], seq![b, ':']) <==> text::lower_spec(a) == text::lower_spec(b),
        x.len() != 2 ==> (same_drive(x, y) <==> x == y),
        same_drive(x, x),
{
    let p = seq![a, ':'];
    let q = seq![b, ':'];
    assert(lowered(p)[0] == text::lower_spec(a) && lowered(q)[0] == text::lower_spec(b));
    assert(p[0] == a && q[0] == b);
    if text::lower_spec(a) == text::lower_spec(b) {
        assert(lowered(p) =~= lowered(q));
    }
}

/// A file on another drive, or not below the root, leaves nothing to prune.
pub proof fn a_file_elsewhere_prunes_nothing(windows: bool, root: Seq<char>, file: Seq<char>)
    requires
        !same_drive(drive_of(windows, root), drive_of(windows, file)) || rooted(windows, root)
            != rooted(windows, file) || !path_pieces(windows, root).is_prefix_of(
            path_pieces(windows, file),
        ),
    ensures
        prunable_spec(windows, root, file).len() == 0,
{
}

/// A leading dot is the folder of what stands behind it, and a bare name lies in no folder of its own.
pub proof fn a_dot_is_a_folder(name: Seq<char>)
    requires
        name.len() > 0,
        name != "."@,
        name != ".."@,
        !name.contains('/'),
    ensures
        parent_of(false, "./"@ + name) == "."@,
        name_of(false, "./"@ + name) == Some(name),
        parent_of(false, name) == Seq::<char>::empty(),
        name_of(false, name) == Some(name),
        parent_of(false, "/"@ + name) == "/"@,
        name_of(false, "/"@ + name) == Some(name),
{
    reveal_strlit(".");
    reveal_strlit("./");
    reveal_strlit("/");
    let dotted = "./"@ + name;
    let top = "/"@ + name;
    let empty = Seq::<char>::empty();
    text::lemma_first_index(name, '/', 0);
    if let Some(at) = text::first_index(name, '/', 0) {
        assert(name.contains(name[at]));
    }
    assert(name.contains(name[0]));
    assert(text::segments(name, '/') =~= seq![name]);
    assert(!"."@.contains('/'));
    text::lemma_first_index("."@, '/', 0);
    if let Some(at) = text::first_index("."@, '/', 0) {
        assert("."@.contains("."@[at]));
    }
    assert(text::segments("."@, '/') =~= seq!["."@]);
    text::lemma_segments_concat("."@, name, '/');
    assert(dotted.skip(0) =~= "."@.push('/') + name);
    assert(dotted[0] == '.');
    assert(seq!["."@] + seq![name] =~= seq!["."@, name]);
    assert(text::segments(dotted.skip(0), '/') == seq!["."@, name]);
    assert(name.skip(0) =~= name);
    assert(top[0] == '/');
    assert(top.skip(1) =~= name);
    reveal_with_fuel(told, 3);
    reveal_with_fuel(text::joined, 3);
    let pieces = seq!["."@, name];
    assert(pieces.take(1) =~= seq!["."@]);
    assert(dotted.take(1) =~= "."@);
    let single = seq![name];
    assert(single.take(0) =~= Seq::<Seq<char>>::empty());
    assert(name.take(0) =~= empty);
    assert(top.take(1) =~= "/"@);
}

/// A drive in front of a path is no part of its pieces on Windows, and a name like any other elsewhere;
/// on Windows backslashes separate too.
pub proof fn a_drive_is_no_piece(drive: char, rest: Seq<char>, path: Seq<char>)
    requires
        ('a' <= drive && drive <= 'z') || ('A' <= drive && drive <= 'Z'),
    ensures
        behind_drive(true, seq![drive, ':'] + rest) == plain(true, rest),
        behind_drive(false, path) == path,
        path.len() < 2 || path[1] != ':' ==> behind_drive(true, path) == plain(true, path),
        plain(true, path).len() == path.len(),
        forall|i: int|
            0 <= i < path.len() ==> #[trigger] plain(true, path)[i] == if path[i] == '\\' {
                '/'
            } else {
                path[i]
            },
        plain(false, path) == path,
{
    let whole = seq![drive, ':'] + rest;
    let s = plain(true, whole);
    assert(s[0] == drive && s[1] == ':');
    assert(s.skip(2) =~= plain(true, rest));
}

} // verus!

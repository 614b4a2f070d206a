//! Paths and archives: where files land, and what their first bytes say.

use vendorfiles::archive::{
    container, crx_members, crx_payload, crx_payload_offset, is_tar, lone_file_name, payload,
    sniff, tar_members, zip_members, ArchiveKind, Payload, TarEntry, TAR_HEADER_LEN,
    TAR_MAGIC_OFFSET,
};
use vendorfiles::fsx::{
    anchor, append_part, check_length, file_name, is_rooted, join_normalized, normalize, parent,
    prunable_folders, simplify, staged_beside,
};

#[test]
fn the_staging_path_sits_beside_its_target() {
    let staged = staged_beside(false, "/tools/bin/vendor.exe");
    let (folder, name) = staged.rsplit_once('/').unwrap();
    assert_eq!(folder, "/tools/bin");
    assert_ne!(name, "vendor.exe");
    // Beside it, so the swap is a rename within one filesystem rather than a copy across.
    assert!(name.contains("vendor.exe"));
}

#[test]
fn normalize_resolves_dot_segments() {
    assert_eq!(normalize(false, "a/./b"), "a/b");
    assert_eq!(normalize(false, "a/b/../c"), "a/c");
    assert_eq!(normalize(false, ""), ".");
    assert_eq!(normalize(false, "./"), ".");
}

#[test]
fn normalize_keeps_leading_parents_only_when_relative() {
    assert_eq!(normalize(false, "../a"), "../a");
    assert_eq!(normalize(false, "/a/../../b"), "/b");
}

#[test]
fn a_normalized_path_is_written_without_idle_pieces() {
    for (path, expected) in [
        ("a//b/./../c/", "a/c"),
        ("/./a//../", "/"),
        ("a/..", "."),
        ("../.././b//", "../../b"),
        ("/../../b", "/b"),
    ] {
        assert_eq!(normalize(false, path), expected);
    }
}

#[test]
fn normalizing_twice_changes_nothing() {
    for path in ["a//b/./../c", "/../x", "../../a/b/..", "/", ""] {
        let once = normalize(false, path);
        assert_eq!(normalize(false, &once), once);
    }
}

#[test]
fn a_relative_destination_hangs_off_the_folder() {
    let folder = "proj/vendor/dep";
    assert_eq!(anchor(false, folder, "tool.exe"), "proj/vendor/dep/tool.exe");
    assert_eq!(anchor(false, folder, "bin/tool.exe"), "proj/vendor/dep/bin/tool.exe");
    // `..` still climbs, as it does for any relative output the config declares.
    assert_eq!(anchor(false, folder, "../licenses/L"), "proj/vendor/licenses/L");
}

#[test]
fn an_absolute_destination_is_taken_at_its_word() {
    // What `vendorFolder` has always done, now for a single file too: one binary can land on
    // `PATH` without the rest of the dependency moving with it.
    let folder = "proj/vendor/dep";

    assert_eq!(anchor(false, folder, "/opt/tools/tool"), normalize(false, "/opt/tools/tool"));

    assert_eq!(anchor(true, folder, r"C:\tools\tool.exe"), r"C:\tools\tool.exe");

    // `C:relative` has no root on either platform, so it takes the relative branch rather than
    // being mistaken for a destination of its own.
    assert_eq!(
        anchor(false, folder, "C:relative"),
        join_normalized(false, folder, &["C:relative"])
    );
    assert_eq!(
        anchor(true, folder, "C:relative"),
        join_normalized(true, folder, &["C:relative"])
    );
}

#[test]
fn join_does_not_let_a_rooted_segment_escape_the_base() {
    let joined = join_normalized(false, "proj", &["/abs", "x"]);
    assert_eq!(joined, "proj/abs/x");
}

#[test]
fn join_expands_relative_outputs() {
    assert_eq!(
        join_normalized(false, "proj/vendor/dep", &["../licenses/L"]),
        "proj/vendor/licenses/L"
    );
}

#[test]
fn simplify_strips_the_windows_verbatim_prefix() {
    assert_eq!(simplify(r"\\?\C:\proj\vendor"), r"C:\proj\vendor");
    assert_eq!(simplify("/tmp/x"), "/tmp/x");
}

#[test]
fn windows_paths_keep_their_drive_and_take_both_separators() {
    for (path, expected) in [
        ("a/./b\\..\\c", r"a\c"),
        (r"C:\proj\..\..\x", r"C:\x"),
        ("C:/proj//vendor/", r"C:\proj\vendor"),
        (r"C:proj\..\..\x", r"C:..\x"),
        (r"C:", "C:"),
        (r"\a\..\..\b", r"\b"),
        (r"\\server\share\..\x", r"\\server\share\x"),
        ("//server/share", r"\\server\share\"),
        (r"\\?\C:\a\.\b", r"\\?\C:\a\b"),
        (r"\\server", r"\server"),
        (r".\", "."),
    ] {
        assert_eq!(normalize(true, path), expected, "{path}");
        assert_eq!(normalize(true, expected), expected);
    }
    // On other platforms neither means anything.
    assert_eq!(normalize(false, r"C:\a\..\b"), r"C:\a\..\b");
}

#[test]
fn windows_roots_are_told_from_drives() {
    for path in [r"C:\x", "C:/", r"\x", "/x", r"\\server\share", r"\\?\C:"] {
        assert!(is_rooted(true, path), "{path}");
    }
    for path in ["C:", "C:x", "x", r"x\y", ""] {
        assert!(!is_rooted(true, path), "{path}");
    }
    assert!(!is_rooted(false, r"\x"));
    assert_eq!(anchor(true, r"C:\proj", r"\tools\t"), r"\tools\t");
    assert_eq!(anchor(true, r"C:\proj", r"bin/tool"), r"C:\proj\bin\tool");
    assert_eq!(anchor(true, r"C:\proj", r"..\lib\t"), r"C:\lib\t");
    assert_eq!(append_part(true, "a".to_owned(), "b"), r"a\b");
    assert_eq!(append_part(true, "a/".to_owned(), "b"), "a/b");
}

#[test]
fn windows_paths_have_parents_and_names() {
    for (path, folder, name) in [
        (r"C:\proj\vendor.json", r"C:\proj", Some("vendor.json")),
        (r"C:\vendor.json", r"C:\", Some("vendor.json")),
        ("C:vendor.json", "C:", Some("vendor.json")),
        ("C:/a\\b/c.txt", "C:/a\\b", Some("c.txt")),
        (r"\\server\share\x", r"\\server\share\", Some("x")),
        (r"a\..", "a", None),
        (r"C:\", ".", None),
    ] {
        assert_eq!(parent(true, path), folder, "{path}");
        assert_eq!(file_name(true, path).as_deref(), name, "{path}");
    }
    // What stands between two pieces says nothing, wherever it is.
    assert_eq!(parent(false, "a//./b/."), "a");
    assert_eq!(parent(false, "./a"), ".");
    assert_eq!(parent(false, "."), "");
    assert_eq!(
        staged_beside(true, r"C:\tools\vendor.exe"),
        r"C:\tools\.vendor.exe.vendorfiles-update"
    );
    assert_eq!(staged_beside(true, "C:vendor.exe"), "C:.vendor.exe.vendorfiles-update");
    assert_eq!(lone_file_name(true, r"C:\temp\jq.gz", ".gz"), "jq");
}

#[test]
fn windows_folders_are_pruned_up_to_the_root() {
    assert_eq!(
        prunable_folders(true, r"C:\proj", r"c:\proj\vendor\fzf\fzf.exe"),
        [r"c:\proj\vendor\fzf", r"c:\proj\vendor"]
    );
    assert!(prunable_folders(true, r"C:\proj", r"D:\proj\vendor\fzf.exe").is_empty());
}

#[test]
fn a_dot_behind_what_looks_like_a_drive_is_dropped_the_second_time() {
    assert_eq!(normalize(true, r".\C:x"), "C:x");
    assert_eq!(normalize(true, r".\C:."), "C:.");
    assert_eq!(normalize(true, "C:."), "C:");
}

#[test]
fn a_part_is_appended_below_its_base() {
    assert_eq!(append_part(false, "a".to_owned(), "b"), "a/b");
    assert!(is_rooted(false, "/a"));
    assert!(!is_rooted(false, "a"));
}

#[test]
fn the_parent_and_the_name_make_up_a_path() {
    assert_eq!(parent(false, "/proj/vendor.yml"), "/proj");
    assert_eq!(parent(false, "vendor.yml"), "");
    assert_eq!(parent(false, "/vendor.yml"), "/");
    assert_eq!(file_name(false, "/proj/vendor.yml").as_deref(), Some("vendor.yml"));
    assert_eq!(file_name(false, "/proj/").as_deref(), Some("proj"));
    assert_eq!(file_name(false, "a/.."), None);
    assert_eq!(file_name(false, "/"), None);
    assert_eq!(staged_beside(false, "tool"), ".tool.vendorfiles-update");
    assert_eq!(staged_beside(false, "/"), "./.vendor.vendorfiles-update");
}

#[test]
fn folders_are_pruned_from_the_file_up_to_the_root() {
    assert_eq!(
        prunable_folders(false, "/proj", "/proj/vendor/fzf/bin/fzf"),
        ["/proj/vendor/fzf/bin", "/proj/vendor/fzf", "/proj/vendor"]
    );
    assert!(prunable_folders(false, "/proj", "/elsewhere/x").is_empty());
}

#[test]
fn a_body_shorter_than_promised_is_refused() {
    assert!(check_length(Some(10), 10).is_ok());
    assert!(check_length(None, 3).is_ok());
    assert!(check_length(Some(10), 3).is_err());
}

#[test]
fn sniffing_recognises_the_supported_containers() {
    assert_eq!(sniff(b"PK\x03\x04rest"), Some(ArchiveKind::Zip));
    assert_eq!(sniff(b"Cr24\x02\0\0\0"), Some(ArchiveKind::Crx));
    assert_eq!(sniff(&[0x1f, 0x8b, 0x08]), Some(ArchiveKind::Gzip));
    assert_eq!(sniff(b"not an archive"), None);

    let mut tar = vec![0u8; 512];
    tar[TAR_MAGIC_OFFSET..TAR_MAGIC_OFFSET + 5].copy_from_slice(b"ustar");
    assert_eq!(sniff(&tar), Some(ArchiveKind::Tar));
}

#[test]
fn the_other_magic_bytes_are_recognised_too() {
    assert_eq!(sniff(b"PK\x05\x06"), Some(ArchiveKind::Zip));
    assert_eq!(sniff(&[0xfd, 0x37, 0x7a, 0x58, 0x5a, 0x00]), Some(ArchiveKind::Xz));
    assert_eq!(sniff(b""), None);
    // What is not recognised is opened as a ZIP, which then says what is wrong with it.
    assert_eq!(container(b"not an archive"), ArchiveKind::Zip);
    assert_eq!(container(&[0x1f, 0x8b]), ArchiveKind::Gzip);
}

#[test]
fn what_the_encoders_write_is_recognised() {
    let mut builder = tar::Builder::new(Vec::new());
    let mut header = tar::Header::new_gnu();
    header.set_size(2);
    header.set_mode(0o644);
    header.set_cksum();
    builder.append_data(&mut header, "fresh", &b"hi"[..]).unwrap();
    let tarred = builder.into_inner().unwrap();
    assert_eq!(sniff(&tarred), Some(ArchiveKind::Tar));
    assert!(is_tar(&tarred[..TAR_HEADER_LEN]));

    let mut compressed = Vec::new();
    lzma_rs::xz_compress(&mut std::io::Cursor::new(&tarred), &mut compressed).unwrap();
    assert_eq!(sniff(&compressed), Some(ArchiveKind::Xz));
    assert!(!is_tar(&compressed));
}

#[test]
fn crx_offsets_follow_the_two_container_versions() {
    let mut crx2 = b"Cr24".to_vec();
    crx2.extend_from_slice(&2u32.to_le_bytes());
    crx2.extend_from_slice(&3u32.to_le_bytes()); // public key length
    crx2.extend_from_slice(&5u32.to_le_bytes()); // signature length
    crx2.extend_from_slice(&[0u8; 8]);
    assert_eq!(crx_payload_offset(&crx2), Some(24));

    let mut crx3 = b"Cr24".to_vec();
    crx3.extend_from_slice(&3u32.to_le_bytes());
    crx3.extend_from_slice(&4u32.to_le_bytes()); // header length
    crx3.extend_from_slice(&[0u8; 8]);
    assert_eq!(crx_payload_offset(&crx3), Some(16));
}

#[test]
fn a_crx_header_that_lies_is_refused() {
    let mut short = b"Cr24".to_vec();
    short.extend_from_slice(&3u32.to_le_bytes());
    short.extend_from_slice(&1000u32.to_le_bytes());
    assert_eq!(crx_payload_offset(&short), None);

    let mut unknown = b"Cr24".to_vec();
    unknown.extend_from_slice(&4u32.to_le_bytes());
    unknown.extend_from_slice(&[0u8; 16]);
    assert_eq!(crx_payload_offset(&unknown), None);
    assert_eq!(crx_payload_offset(b"PK\x03\x04"), None);
    assert_eq!(crx_payload_offset(b"Cr24"), None);
}

#[test]
fn a_lone_file_is_named_after_its_archive() {
    assert_eq!(lone_file_name(false, "dir/notes.txt.gz", ".gz"), "notes.txt");
    assert_eq!(lone_file_name(false, "dir/yamlfmt.xz", ".xz"), "yamlfmt");
    assert_eq!(lone_file_name(false, "dir/plain", ".gz"), "plain");
    assert_eq!(lone_file_name(false, "", ".gz"), "archive");
}

#[test]
fn directories_are_left_out_of_a_listing() {
    assert_eq!(
        zip_members(&vec![
            "tool/bin/".to_owned(),
            "tool/bin/tool".to_owned(),
            "win\\".to_owned()
        ]),
        ["tool/bin/tool"]
    );
    assert_eq!(
        tar_members(&vec![
            TarEntry {
                path: "tool/bin".to_owned(),
                is_dir: true
            },
            TarEntry {
                path: "tool/bin/tool".to_owned(),
                is_dir: false
            },
        ]),
        ["tool/bin/tool"]
    );
}

#[test]
fn a_compressed_file_is_a_tar_or_goes_by_its_own_name() {
    let mut head = vec![0u8; TAR_HEADER_LEN];
    assert_eq!(
        payload(false, "/tmp/jq.gz", ArchiveKind::Gzip, &head),
        Payload::Lone("jq".to_owned())
    );
    assert_eq!(
        payload(false, "/tmp/jq.xz", ArchiveKind::Xz, &head),
        Payload::Lone("jq".to_owned())
    );
    head[TAR_MAGIC_OFFSET..TAR_MAGIC_OFFSET + 5].copy_from_slice(b"ustar");
    assert_eq!(payload(false, "/tmp/a.gz", ArchiveKind::Gzip, &head), Payload::Tar);
}

#[test]
fn an_extension_lists_the_files_of_the_zip_it_wraps() {
    let mut writer = zip::ZipWriter::new(std::io::Cursor::new(Vec::new()));
    let options = zip::write::SimpleFileOptions::default();
    writer.add_directory::<_, ()>("images", options).unwrap();
    writer
        .start_file::<_, ()>("images/icon.png", options)
        .unwrap();
    writer.start_file::<_, ()>("background.js", options).unwrap();
    let zipped = writer.finish().unwrap().into_inner();

    let mut crx = b"Cr24".to_vec();
    crx.extend_from_slice(&3u32.to_le_bytes());
    crx.extend_from_slice(&4u32.to_le_bytes());
    crx.extend_from_slice(&[0u8; 4]);
    let header = crx.len();
    crx.extend_from_slice(&zipped);

    assert_eq!(crx_payload(&crx).unwrap(), &zipped[..]);
    assert_eq!(
        crx_members(&crx).unwrap(),
        ["images/icon.png", "background.js"]
    );
    assert!(crx_members(&crx[..header]).is_err());
    assert_eq!(
        crx_members(b"not an extension").unwrap_err().to_text(),
        "unsupported CRX header"
    );
}

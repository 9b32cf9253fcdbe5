use tarply::engine::{ApplyPass, Mutation, RawEntry};
use tarply::kinds::{ArchiveKind, EntryKind, datatype_to_i32, datatype_to_string, i32_to_datatype};
use tarply::record::{EntryRecord, TarplyError};
use tarply::state::FileTree;

fn dir_entry(path: &str, perm: u32) -> RawEntry {
    RawEntry {
        path: path.to_string(),
        kind: ArchiveKind::Directory,
        content: Vec::new(),
        link_target: None,
        perm,
        uid: 0,
        gid: 0,
    }
}

fn file_entry(path: &str, content: &[u8], perm: u32) -> RawEntry {
    RawEntry {
        path: path.to_string(),
        kind: ArchiveKind::Regular,
        content: content.to_vec(),
        link_target: None,
        perm,
        uid: 0,
        gid: 0,
    }
}

#[test]
fn first_run_creates_directory_then_file() {
    let mut pass = ApplyPass::begin(FileTree::new(), Vec::new());
    let m1 = pass.process_entry(dir_entry("a/", 0o755)).unwrap();
    assert_eq!(m1, vec![Mutation::MakeDir { path: "a/".to_string() }]);
    let m2 = pass.process_entry(file_entry("a/f.txt", b"hunt", 0o644)).unwrap();
    assert_eq!(
        m2,
        vec![Mutation::WriteFile { path: "a/f.txt".to_string(), content: b"hunt".to_vec() }]
    );
    let (tree, dels) = pass.finish();
    assert_eq!(tree.entries.len(), 2);
    assert_eq!(tree.entries[0].path, "a/");
    assert_eq!(tree.entries[1].path, "a/f.txt");
    assert_eq!(tree.entries[1].size, 4);
    assert!(dels.is_empty());
    let blob = tree.export();
    assert!(!blob.is_empty());
}

#[test]
fn second_run_rewrites_changed_file_only() {
    let mut pass = ApplyPass::begin(FileTree::new(), Vec::new());
    pass.process_entry(dir_entry("a/", 0o755)).unwrap();
    pass.process_entry(file_entry("a/f.txt", b"hunt", 0o644)).unwrap();
    let (tree, _) = pass.finish();

    let mut pass2 = ApplyPass::begin(tree, Vec::new());
    let m1 = pass2.process_entry(dir_entry("a/", 0o755)).unwrap();
    assert!(m1.is_empty());
    let m2 = pass2.process_entry(file_entry("a/f.txt", b"hunted", 0o644)).unwrap();
    assert_eq!(
        m2,
        vec![
            Mutation::Chmod { path: "a/f.txt".to_string(), perm: 0o644 },
            Mutation::WriteFile { path: "a/f.txt".to_string(), content: b"hunted".to_vec() },
        ]
    );
    let (tree2, dels) = pass2.finish();
    assert!(dels.is_empty());
    let i = tree2.find(&"a/f.txt".to_string()).unwrap();
    assert_eq!(tree2.entries[i].size, 6);
}

#[test]
fn third_run_deletes_missing_file() {
    let mut pass = ApplyPass::begin(FileTree::new(), Vec::new());
    pass.process_entry(dir_entry("a/", 0o755)).unwrap();
    pass.process_entry(file_entry("a/f.txt", b"hunt", 0o644)).unwrap();
    let (tree, _) = pass.finish();

    let mut pass2 = ApplyPass::begin(tree, Vec::new());
    let m1 = pass2.process_entry(dir_entry("a/", 0o755)).unwrap();
    assert!(m1.is_empty());
    let (tree2, dels) = pass2.finish();
    assert_eq!(dels, vec![Mutation::RemoveFile { path: "a/f.txt".to_string() }]);
    assert_eq!(tree2.entries.len(), 1);
    assert_eq!(tree2.entries[0].path, "a/");
}

#[test]
fn absolute_path_is_rejected() {
    let mut pass = ApplyPass::begin(FileTree::new(), Vec::new());
    let r = pass.process_entry(file_entry("/etc/oops", b"x", 0o644));
    assert_eq!(r, Err(TarplyError::AbsolutePath));
    let (tree, dels) = pass.finish();
    assert!(tree.entries.is_empty());
    assert!(dels.is_empty());
}

#[test]
fn idempotence_second_pass_is_silent() {
    let entries = [
        dir_entry("a/", 0o755),
        file_entry("a/f.txt", b"hunt", 0o644),
        file_entry("b.txt", b"more", 0o600),
    ];
    let mut pass = ApplyPass::begin(FileTree::new(), Vec::new());
    for e in entries.iter() {
        pass.process_entry(clone_entry(e)).unwrap();
    }
    let (tree, _) = pass.finish();

    let mut pass2 = ApplyPass::begin(tree, Vec::new());
    for e in entries.iter() {
        let muts = pass2.process_entry(clone_entry(e)).unwrap();
        assert!(muts.is_empty());
    }
    let (tree2, dels) = pass2.finish();
    assert!(dels.is_empty());
    assert_eq!(tree2.entries.len(), 3);
}

fn clone_entry(e: &RawEntry) -> RawEntry {
    RawEntry {
        path: e.path.clone(),
        kind: e.kind,
        content: e.content.clone(),
        link_target: e.link_target.clone(),
        perm: e.perm,
        uid: e.uid,
        gid: e.gid,
    }
}

#[test]
fn deletion_removes_children_before_parent() {
    let mut pass = ApplyPass::begin(FileTree::new(), Vec::new());
    pass.process_entry(dir_entry("d/", 0o755)).unwrap();
    pass.process_entry(file_entry("d/x", b"1", 0o644)).unwrap();
    pass.process_entry(file_entry("d/y", b"2", 0o644)).unwrap();
    let (tree, _) = pass.finish();

    let pass2 = ApplyPass::begin(tree, Vec::new());
    let (tree2, dels) = pass2.finish();
    assert_eq!(
        dels,
        vec![
            Mutation::RemoveFile { path: "d/y".to_string() },
            Mutation::RemoveFile { path: "d/x".to_string() },
            Mutation::RemoveDir { path: "d/".to_string() },
        ]
    );
    assert!(tree2.entries.is_empty());
}

#[test]
fn ignored_path_is_never_written_or_deleted() {
    let ignored = vec!["cache/".to_string()];
    let mut pass = ApplyPass::begin(FileTree::new(), ignored.clone());
    let muts = pass.process_entry(file_entry("cache/blob", b"data", 0o644)).unwrap();
    assert!(muts.is_empty());
    let muts = pass.process_entry(file_entry("kept.txt", b"k", 0o644)).unwrap();
    assert_eq!(muts.len(), 1);
    let (tree, _) = pass.finish();
    assert_eq!(tree.entries.len(), 1);

    // A path recorded in an earlier run but under an ignore prefix is not
    // deleted even when the archive no longer carries it.
    let mut pass0 = ApplyPass::begin(FileTree::new(), Vec::new());
    pass0.process_entry(file_entry("cache/blob", b"data", 0o644)).unwrap();
    let (prior, _) = pass0.finish();
    let pass1 = ApplyPass::begin(prior, ignored);
    let (tree1, dels) = pass1.finish();
    assert!(dels.is_empty());
    assert_eq!(tree1.entries.len(), 1);
    assert_eq!(tree1.entries[0].path, "cache/blob");
}

#[test]
fn unsupported_kind_is_fatal() {
    let mut pass = ApplyPass::begin(FileTree::new(), Vec::new());
    let e = RawEntry {
        path: "dev/null".to_string(),
        kind: ArchiveKind::Char,
        content: Vec::new(),
        link_target: None,
        perm: 0o644,
        uid: 0,
        gid: 0,
    };
    assert_eq!(
        pass.process_entry(e),
        Err(TarplyError::UnsupportedKind(ArchiveKind::Char))
    );
}

#[test]
fn link_without_target_is_fatal() {
    let mut pass = ApplyPass::begin(FileTree::new(), Vec::new());
    let e = RawEntry {
        path: "l".to_string(),
        kind: ArchiveKind::Link,
        content: Vec::new(),
        link_target: None,
        perm: 0o644,
        uid: 0,
        gid: 0,
    };
    assert_eq!(pass.process_entry(e), Err(TarplyError::MissingLinkTarget));
}

#[test]
fn invalid_utf8_link_target_is_fatal() {
    let mut pass = ApplyPass::begin(FileTree::new(), Vec::new());
    let e = RawEntry {
        path: "l".to_string(),
        kind: ArchiveKind::Symlink,
        content: Vec::new(),
        link_target: Some(vec![0xff, 0xfe, 0x00]),
        perm: 0o644,
        uid: 0,
        gid: 0,
    };
    assert_eq!(pass.process_entry(e), Err(TarplyError::InvalidText));
}

// Pins the link directions: both kinds of link are created at the entry's
// archive path; the stored target names what the link refers to, never
// where the link is placed.
#[test]
fn symlink_and_hardlink_directions() {
    let mut pass = ApplyPass::begin(FileTree::new(), Vec::new());
    let e = RawEntry {
        path: "link-here".to_string(),
        kind: ArchiveKind::Symlink,
        content: Vec::new(),
        link_target: Some(b"points-there".to_vec()),
        perm: 0o777,
        uid: 0,
        gid: 0,
    };
    let muts = pass.process_entry(e).unwrap();
    assert_eq!(
        muts,
        vec![Mutation::MakeSymlink {
            link: "link-here".to_string(),
            target: "points-there".to_string(),
        }]
    );
    let e = RawEntry {
        path: "hard-here".to_string(),
        kind: ArchiveKind::Link,
        content: Vec::new(),
        link_target: Some(b"existing".to_vec()),
        perm: 0o644,
        uid: 0,
        gid: 0,
    };
    let muts = pass.process_entry(e).unwrap();
    assert_eq!(
        muts,
        vec![Mutation::MakeHardLink {
            original: "existing".to_string(),
            link: "hard-here".to_string(),
        }]
    );
}

#[test]
fn archive_root_marker_needs_no_mkdir() {
    let mut pass = ApplyPass::begin(FileTree::new(), Vec::new());
    let muts = pass.process_entry(dir_entry("./", 0o755)).unwrap();
    assert!(muts.is_empty());
    let (tree, _) = pass.finish();
    assert_eq!(tree.entries.len(), 1);
}

#[test]
fn best_effort_policy_per_mutation() {
    assert!(Mutation::MakeDir { path: "d".to_string() }.best_effort());
    assert!(Mutation::MakeSymlink { link: "l".to_string(), target: "t".to_string() }
        .best_effort());
    assert!(Mutation::MakeHardLink { original: "o".to_string(), link: "l".to_string() }
        .best_effort());
    assert!(!Mutation::WriteFile { path: "f".to_string(), content: Vec::new() }.best_effort());
    assert!(!Mutation::Chmod { path: "f".to_string(), perm: 0 }.best_effort());
    assert!(!Mutation::RemoveFile { path: "f".to_string() }.best_effort());
    assert!(!Mutation::RemoveDir { path: "d".to_string() }.best_effort());
}

#[test]
fn md5_digest_of_empty_payload() {
    let (rec, payload) = EntryRecord::new(
        "a/".to_string(),
        ArchiveKind::Directory,
        Vec::new(),
        None,
        0o755,
        0,
        0,
    )
    .unwrap();
    assert!(payload.is_empty());
    assert_eq!(
        rec.digest.0,
        [
            0xd4, 0x1d, 0x8c, 0xd9, 0x8f, 0x00, 0xb2, 0x04, 0xe9, 0x80, 0x09, 0x98, 0xec, 0xf8,
            0x42, 0x7e,
        ]
    );
}

#[test]
fn md5_digest_matches_reference_implementation() {
    let (rec, payload) = EntryRecord::new(
        "f".to_string(),
        ArchiveKind::Regular,
        b"some file content".to_vec(),
        None,
        0o644,
        1000,
        1000,
    )
    .unwrap();
    assert_eq!(payload, b"some file content".to_vec());
    assert_eq!(rec.size, 17);
    assert_eq!(rec.digest.0, md5::compute(b"some file content").0);
    assert_eq!(rec.data_type, EntryKind::Regular);
    assert_eq!(rec.uid, 1000);
    assert_eq!(rec.gid, 1000);
}

#[test]
fn link_record_measures_target_not_content() {
    let (rec, payload) = EntryRecord::new(
        "l".to_string(),
        ArchiveKind::Symlink,
        Vec::new(),
        Some(b"target".to_vec()),
        0o777,
        0,
        0,
    )
    .unwrap();
    assert_eq!(payload, b"target".to_vec());
    assert_eq!(rec.size, 6);
    assert_eq!(rec.digest.0, md5::compute(b"target").0);
    assert_eq!(rec.data_type, EntryKind::Symlink);
}

#[test]
fn kind_codes_round_trip() {
    let kinds = [
        ArchiveKind::Regular,
        ArchiveKind::Link,
        ArchiveKind::Symlink,
        ArchiveKind::Char,
        ArchiveKind::Block,
        ArchiveKind::Directory,
        ArchiveKind::Fifo,
        ArchiveKind::Continuous,
        ArchiveKind::GNULongName,
        ArchiveKind::GNULongLink,
        ArchiveKind::XGlobalHeader,
        ArchiveKind::XHeader,
    ];
    for (i, k) in kinds.iter().enumerate() {
        assert_eq!(datatype_to_i32(k), i as i32);
        assert_eq!(i32_to_datatype(i as i32), Some(*k));
    }
    assert_eq!(i32_to_datatype(12), None);
    assert_eq!(i32_to_datatype(-1), None);
    assert_eq!(datatype_to_string(&ArchiveKind::Regular), "Regular");
    assert_eq!(datatype_to_string(&ArchiveKind::XGlobalHeader), "XGlobalHeader");
}

use tarply::engine::ApplyPass;
use tarply::engine::RawEntry;
use tarply::kinds::ArchiveKind;
use tarply::record::TarplyError;
use tarply::state::FileTree;

fn sample_tree() -> FileTree {
    let mut pass = ApplyPass::begin(FileTree::new(), Vec::new());
    let entries = [
        ("a/", ArchiveKind::Directory, Vec::new(), None, 0o755u32, 0u64, 0u64),
        ("a/f.txt", ArchiveKind::Regular, b"hello".to_vec(), None, 0o644, 1000, 100),
        (
            "a/ln",
            ArchiveKind::Symlink,
            Vec::new(),
            Some(b"f.txt".to_vec()),
            0o777,
            0,
            0,
        ),
        ("caf\u{e9}.txt", ArchiveKind::Regular, b"utf8 path".to_vec(), None, 0o600, 5, 7),
    ];
    for (path, kind, content, link_target, perm, uid, gid) in entries {
        pass.process_entry(RawEntry {
            path: path.to_string(),
            kind,
            content,
            link_target,
            perm,
            uid,
            gid,
        })
        .unwrap();
    }
    let (tree, _) = pass.finish();
    tree
}

fn assert_trees_equal(a: &FileTree, b: &FileTree) {
    assert_eq!(a.entries.len(), b.entries.len());
    for i in 0..a.entries.len() {
        let x = &a.entries[i];
        let y = &b.entries[i];
        assert_eq!(x.path, y.path);
        assert_eq!(x.size, y.size);
        assert_eq!(x.digest.0, y.digest.0);
        assert_eq!(x.data_type, y.data_type);
        assert_eq!(x.perm, y.perm);
        assert_eq!(x.uid, y.uid);
        assert_eq!(x.gid, y.gid);
    }
}

#[test]
fn codec_round_trip_preserves_every_field() {
    let tree = sample_tree();
    let raw = tree.encode();
    let back = FileTree::decode(&raw).unwrap();
    assert_trees_equal(&tree, &back);
}

#[test]
fn codec_round_trip_of_empty_tree() {
    let tree = FileTree::new();
    let raw = tree.encode();
    let back = FileTree::decode(&raw).unwrap();
    assert_eq!(back.entries.len(), 0);
}

#[test]
fn export_import_round_trip() {
    let tree = sample_tree();
    let blob = tree.export();
    let back = FileTree::import(&blob).unwrap();
    assert_trees_equal(&tree, &back);
}

#[test]
fn export_really_compresses() {
    // If the compressor handed its input back unchanged, the blob would be
    // the raw encoding and the raw encoding would import cleanly.
    let tree = sample_tree();
    let blob = tree.export();
    let raw = tree.encode();
    assert_ne!(blob, raw);
    assert!(matches!(FileTree::import(&raw), Err(TarplyError::CorruptState)));
}

#[test]
fn import_rejects_garbage() {
    let garbage = vec![0u8, 1, 2, 3, 4, 5, 6, 7, 8, 9];
    assert!(matches!(FileTree::import(&garbage), Err(TarplyError::CorruptState)));
    assert!(matches!(FileTree::import(&Vec::new()), Err(TarplyError::CorruptState)));
}

#[test]
fn decode_rejects_truncation_and_trailing_bytes() {
    let tree = sample_tree();
    let raw = tree.encode();
    let mut truncated = raw.clone();
    truncated.pop();
    assert!(FileTree::decode(&truncated).is_none());
    let mut padded = raw.clone();
    padded.push(0);
    assert!(FileTree::decode(&padded).is_none());
}

#[test]
fn decode_rejects_duplicate_paths() {
    let tree = sample_tree();
    let mut doubled = FileTree { entries: Vec::new() };
    doubled.entries.push(tree.entries[1].duplicate());
    doubled.entries.push(tree.entries[1].duplicate());
    let raw = doubled.encode();
    assert!(FileTree::decode(&raw).is_none());
}

#[test]
fn copy_is_field_for_field() {
    let tree = sample_tree();
    let twin = tree.copy();
    assert_trees_equal(&tree, &twin);
}

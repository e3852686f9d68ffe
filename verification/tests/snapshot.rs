use snapshot_comparison::{
    CompareResult, DiffOutput, FileType, LineChange, Snapshot, SnapshotConfig, SnapshotError,
    SnapshotMetadata, SnapshotStore, StoredFile,
};

/// A directory held in memory, with the clock that stamps what is stored.
struct Shelf {
    store: SnapshotStore,
    files: Vec<StoredFile>,
    clock: u64,
}

impl Shelf {
    fn new() -> Shelf {
        Shelf { store: SnapshotStore::new("snapshots".to_string()), files: Vec::new(), clock: 1_700_000_000 }
    }

    fn tick(&mut self) -> u64 {
        self.clock += 1;
        self.clock
    }

    fn file(&self, name: &str) -> Option<&[u8]> {
        let wanted = format!("{}.snap", name);
        self.files.iter().find(|f| f.name == wanted).map(|f| f.content.as_slice())
    }

    fn put(&mut self, name: &str, content: Vec<u8>) {
        let wanted = format!("{}.snap", name);
        self.files.retain(|f| f.name != wanted);
        self.files.push(StoredFile { name: wanted, content });
    }

    fn create(&mut self, name: &str, content: &[u8], config: &SnapshotConfig) -> Result<Snapshot, SnapshotError> {
        let now = self.tick();
        let snapshot = self.store.create(name, content, config, now)?;
        self.put(name, SnapshotStore::write_snapshot(&snapshot));
        Ok(snapshot)
    }

    fn read(&self, name: &str) -> Result<Snapshot, SnapshotError> {
        self.store.read(name, self.file(name))
    }

    fn update(&mut self, name: &str, content: &[u8], config: &SnapshotConfig) -> Result<Snapshot, SnapshotError> {
        let now = self.tick();
        let snapshot = self.store.update(name, content, config, self.file(name), now)?;
        self.put(name, SnapshotStore::write_snapshot(&snapshot));
        Ok(snapshot)
    }

    fn check(&mut self, name: &str, actual: &[u8], config: &SnapshotConfig) -> Result<CompareResult, SnapshotError> {
        let result = self.store.check(name, self.file(name), actual, config)?;
        if result.was_updated() {
            self.update(name, actual, config)?;
        }
        Ok(result)
    }

    fn delete(&mut self, name: &str) -> Result<(), SnapshotError> {
        self.store.delete(name, self.file(name).is_some())?;
        let wanted = format!("{}.snap", name);
        self.files.retain(|f| f.name != wanted);
        Ok(())
    }

    fn is_there(&self, name: &str) -> Result<bool, SnapshotError> {
        self.store.snapshot_exists(name, self.file(name).is_some())
    }

    fn list(&self) -> Result<Vec<SnapshotMetadata>, SnapshotError> {
        Ok(self.store.list(&self.files))
    }

    fn write_file(&mut self, file_name: &str, content: impl AsRef<[u8]>) {
        self.files.retain(|f| f.name != file_name);
        self.files.push(StoredFile { name: file_name.to_string(), content: content.as_ref().to_vec() });
    }

    fn clean(&mut self, keep: &[&str], dry_run: bool) -> Result<Vec<String>, SnapshotError> {
        let deleted = self.store.clean(&self.files, keep, dry_run)?;
        if !dry_run {
            for name in &deleted {
                let wanted = format!("{}.snap", name);
                self.files.retain(|f| f.name != wanted);
            }
        }
        Ok(deleted)
    }
}

#[test]
fn test_hash_consistency() {
    let content = b"hello world";
    let hash1 = SnapshotStore::compute_hash(content);
    let hash2 = SnapshotStore::compute_hash(content);
    assert_eq!(hash1, hash2);

    let different_content = b"hello world!";
    let hash3 = SnapshotStore::compute_hash(different_content);
    assert_ne!(hash1, hash3);
}

#[test]
fn test_create_and_check_snapshot() {
    let mut store = Shelf::new();
    let config = SnapshotConfig::default();

    // Create a snapshot
    let content = b"Hello, World!";
    let snapshot = store.create("test", content, &config).unwrap();

    assert_eq!(snapshot.metadata.name, "test");
    assert_eq!(snapshot.metadata.size, content.len());
    assert_eq!(snapshot.metadata.file_type, FileType::Text);

    // Check matching content
    let result = store.check("test", content, &config).unwrap();
    assert!(matches!(result, CompareResult::Match));
}

#[test]
fn test_mismatch_detection() {
    let mut store = Shelf::new();
    let config = SnapshotConfig::default();

    store.create("test", b"original content", &config).unwrap();

    let result = store.check("test", b"modified content", &config).unwrap();

    match result {
        CompareResult::Mismatch { diff, .. } => {
            let output = diff.format("test", false);
            assert!(output.contains("original") || output.contains("modified"));
        }
        _ => panic!("Expected mismatch"),
    }
}

#[test]
fn integration_test_update_mode() {
    let mut store = Shelf::new();
    let config = SnapshotConfig::default();
    let update_config = SnapshotConfig {
        update_mode: true,
        ..Default::default()
    };

    // Create initial snapshot
    store.create("test", b"version 1", &config).unwrap();

    // Check with update mode - should update on mismatch
    let result = store.check("test", b"version 2", &update_config).unwrap();

    match result {
        CompareResult::Updated {
            old_snapshot,
            new_content,
        } => {
            assert_eq!(old_snapshot.metadata.size, 9); // "version 1"
            assert_eq!(new_content.len(), 9); // "version 2"
        }
        _ => panic!("Expected updated"),
    }

    // Verify the update persisted
    let result = store.check("test", b"version 2", &config).unwrap();
    assert!(matches!(result, CompareResult::Match));
}

#[test]
fn test_explicit_update() {
    let mut store = Shelf::new();
    let config = SnapshotConfig::default();

    store.create("test", b"original", &config).unwrap();

    // Update explicitly
    let updated = store.update("test", b"new content", &config).unwrap();

    assert_eq!(updated.metadata.size, 11); // "new content"

    // Verify the update
    let result = store.check("test", b"new content", &config).unwrap();
    assert!(matches!(result, CompareResult::Match));
}

#[test]
fn integration_test_delete_snapshot() {
    let mut store = Shelf::new();
    let config = SnapshotConfig::default();

    store.create("test", b"content", &config).unwrap();

    // Delete it
    store.delete("test").unwrap();

    // Verify it's gone
    let result = store.check("test", b"content", &config);
    assert!(matches!(result, Err(SnapshotError::NotFound(_))));
}

#[test]
fn integration_test_json_snapshot() {
    let mut store = Shelf::new();
    let config = SnapshotConfig {
        file_type: Some(FileType::Json),
        ..Default::default()
    };

    let json = br#"{"name": "test", "value": 42}"#;
    let snapshot = store.create("json-test", json, &config).unwrap();

    assert_eq!(snapshot.metadata.file_type, FileType::Json);

    // Check semantically equivalent JSON (different formatting)
    let equivalent = br#"{"name":"test","value":42}"#;
    let result = store.check("json-test", equivalent, &config).unwrap();

    // The bytes differ, so the digests do; the values do not, so the diff
    // that comes with the mismatch is empty.
    match result {
        CompareResult::Match => {
            println!("JSON was normalized");
        }
        CompareResult::Mismatch { diff, .. } => {
            println!("JSON compared byte-by-byte");
            assert!(matches!(diff, DiffOutput::Json(_)));
            assert!(!diff.has_changes());
        }
        _ => {}
    }
}

#[test]
fn integration_test_binary_snapshot() {
    let mut store = Shelf::new();
    let config = SnapshotConfig {
        file_type: Some(FileType::Binary),
        ..Default::default()
    };

    let binary: Vec<u8> = (0..=255).collect();
    let snapshot = store.create("binary-test", &binary, &config).unwrap();

    assert_eq!(snapshot.metadata.file_type, FileType::Binary);

    // Check matching
    let result = store.check("binary-test", &binary, &config).unwrap();
    assert!(matches!(result, CompareResult::Match));

    // Check with modification
    let mut modified = binary.clone();
    modified[100] = 0xFF;
    let result = store.check("binary-test", &modified, &config).unwrap();
    assert!(matches!(result, CompareResult::Mismatch { .. }));
}

#[test]
fn test_not_found_error() {
    let mut store = Shelf::new();
    let config = SnapshotConfig::default();

    let result = store.check("nonexistent", b"content", &config);

    match result {
        Err(SnapshotError::NotFound(name)) => {
            assert_eq!(name, "nonexistent");
        }
        _ => panic!("Expected NotFound error"),
    }
}

#[test]
fn test_empty_snapshot() {
    let mut store = Shelf::new();
    let config = SnapshotConfig::default();

    // Empty content is valid
    let snapshot = store.create("empty", b"", &config).unwrap();
    assert_eq!(snapshot.metadata.size, 0);

    let result = store.check("empty", b"", &config).unwrap();
    assert!(matches!(result, CompareResult::Match));
}

#[test]
fn integration_test_large_content() {
    let mut store = Shelf::new();
    let config = SnapshotConfig::default();

    // 1 MB of content
    let large: Vec<u8> = (0..1_000_000).map(|i| (i % 256) as u8).collect();
    let snapshot = store.create("large", &large, &config).unwrap();

    assert_eq!(snapshot.metadata.size, 1_000_000);

    let result = store.check("large", &large, &config).unwrap();
    assert!(matches!(result, CompareResult::Match));
}

#[test]
fn test_context_lines() {
    let mut store = Shelf::new();

    let content = b"line1\nline2\nline3\nline4\nline5";
    let config = SnapshotConfig::default();
    store.create("ctx", content, &config).unwrap();

    let modified = b"line1\nLINE2\nline3\nline4\nline5";

    for ctx in [1, 3, 5] {
        let ctx_config = SnapshotConfig {
            context_lines: ctx,
            ..Default::default()
        };
        let result = store.check("ctx", modified, &ctx_config).unwrap();
        match result {
            CompareResult::Mismatch { diff, .. } => {
                let output = diff.format("ctx", false);
                assert!(!output.is_empty());
            }
            _ => panic!("Expected mismatch"),
        }
    }
}

#[test]
fn integration_test_unicode_content() {
    let mut store = Shelf::new();
    let config = SnapshotConfig::default();

    let unicode = "日本語 🎉 émoji café über".as_bytes();
    store.create("unicode", unicode, &config).unwrap();

    let result = store.check("unicode", unicode, &config).unwrap();
    assert!(matches!(result, CompareResult::Match));
}

#[test]
fn test_config_default_values() {
    let config = SnapshotConfig::default();

    assert!(config.file_type.is_none()); // Auto-detect
    assert!(!config.color); // No color by default
    assert!(!config.update_mode); // No auto-update
    assert_eq!(config.context_lines, 3); // Default context lines
}

#[test]
fn test_config_color_option() {
    let mut store = Shelf::new();
    let config = SnapshotConfig {
        color: true,
        ..Default::default()
    };

    store.create("color-test", b"line 1", &config).unwrap();

    let result = store.check("color-test", b"line 2", &config).unwrap();
    match result {
        CompareResult::Mismatch { diff, .. } => {
            let output = diff.format("color-test", true);
            // Color output should contain ANSI escape sequences
            assert!(output.contains("\x1b[") || !output.is_empty());
        }
        _ => panic!("Expected mismatch"),
    }
}

#[test]
fn test_error_display_not_found() {
    let err = SnapshotError::NotFound("test-snapshot".to_string());
    let msg = err.to_string();
    assert!(msg.contains("not found") || msg.contains("test-snapshot"));
}

#[test]
fn test_error_display_invalid_name() {
    let err = SnapshotError::InvalidName("bad/name".to_string());
    let msg = err.to_string();
    assert!(msg.to_lowercase().contains("invalid") || msg.contains("bad/name"));
}

#[test]
fn test_error_display_io_error() {
    let err = SnapshotError::IoError("permission denied".to_string());
    let msg = err.to_string();
    assert!(msg.to_lowercase().contains("io") || msg.contains("permission"));
}

#[test]
fn test_error_display_corrupted() {
    let err = SnapshotError::CorruptedSnapshot("missing header".to_string());
    let msg = err.to_string();
    assert!(msg.to_lowercase().contains("corrupt") || msg.contains("missing"));
}

#[test]
fn test_error_is_send_sync() {
    fn assert_send_sync<T: Send + Sync>() {}
    assert_send_sync::<SnapshotError>();
}

#[test]
fn test_whitespace_in_content() {
    let mut store = Shelf::new();
    let config = SnapshotConfig::default();

    let whitespace = b"   \t\n\r\n   ";
    store.create("whitespace", whitespace, &config).unwrap();

    let result = store.check("whitespace", whitespace, &config).unwrap();
    assert!(matches!(result, CompareResult::Match));
}

// ---------------------------------------------------------------------------
// The store, operation by operation
// ---------------------------------------------------------------------------

#[test]
fn test_create_and_read_snapshot() {
    let mut store = Shelf::new();
    let config = SnapshotConfig::default();

    let content = b"hello world";
    let snapshot = store.create("test-1", content, &config).unwrap();

    assert_eq!(snapshot.metadata.name, "test-1");
    assert_eq!(snapshot.content, content);
    assert_eq!(snapshot.metadata.size, content.len());

    // Read back
    let read_snapshot = store.read("test-1").unwrap();
    assert_eq!(read_snapshot.metadata.name, "test-1");
    assert_eq!(read_snapshot.content, content);
}

#[test]
fn test_delete_snapshot() {
    let mut store = Shelf::new();
    let config = SnapshotConfig::default();

    store.create("test-delete", b"content", &config).unwrap();
    assert!(store.is_there("test-delete").unwrap());

    store.delete("test-delete").unwrap();
    assert!(!store.is_there("test-delete").unwrap());
    assert!(matches!(store.delete("test-delete"), Err(SnapshotError::NotFound(_))));
}

#[test]
fn test_list_snapshots() {
    let mut store = Shelf::new();
    let config = SnapshotConfig::default();

    store.create("snap-c", b"c", &config).unwrap();
    store.create("snap-a", b"a", &config).unwrap();
    store.create("snap-b", b"b", &config).unwrap();
    // Files that are no snapshots are passed over.
    store.files.push(StoredFile { name: "notes.txt".to_string(), content: b"x".to_vec() });
    store.files.push(StoredFile { name: "broken.snap".to_string(), content: b"no separator".to_vec() });
    store.files.push(StoredFile { name: ".snap".to_string(), content: b"---\n".to_vec() });

    let list = store.list().unwrap();
    assert_eq!(list.len(), 3);
    assert_eq!(list[0].name, "snap-a");
    assert_eq!(list[1].name, "snap-b");
    assert_eq!(list[2].name, "snap-c");
}

#[test]
fn test_clean_snapshots() {
    let mut store = Shelf::new();
    let config = SnapshotConfig::default();

    store.create("keep-1", b"keep", &config).unwrap();
    store.create("keep-2", b"keep", &config).unwrap();
    store.create("orphan-1", b"orphan", &config).unwrap();
    store.create("orphan-2", b"orphan", &config).unwrap();

    let planned = store.clean(&["keep-1", "keep-2"], true).unwrap();
    assert_eq!(planned, vec!["orphan-1".to_string(), "orphan-2".to_string()]);
    assert_eq!(store.list().unwrap().len(), 4);

    let deleted = store.clean(&["keep-1", "keep-2"], false).unwrap();
    assert_eq!(deleted.len(), 2);
    assert!(deleted.contains(&"orphan-1".to_string()));
    assert!(deleted.contains(&"orphan-2".to_string()));

    let remaining = store.list().unwrap();
    assert_eq!(remaining.len(), 2);
}

#[test]
fn clean_stops_at_a_name_it_cannot_delete() {
    let mut store = Shelf::new();
    let config = SnapshotConfig::default();
    store.create("a", b"1", &config).unwrap();
    // A file whose header names a snapshot that has no file of its own.
    let stray = Snapshot {
        metadata: SnapshotMetadata {
            name: "ghost".to_string(),
            created_at: 1,
            updated_at: 1,
            content_hash: SnapshotStore::compute_hash(b"2"),
            size: 1,
            file_type: FileType::Text,
        },
        content: b"2".to_vec(),
    };
    store.files.push(StoredFile { name: "b.snap".to_string(), content: SnapshotStore::write_snapshot(&stray) });

    assert_eq!(store.clean(&[], true).unwrap(), vec!["a".to_string(), "ghost".to_string()]);
    match store.clean(&[], false) {
        Err(SnapshotError::NotFound(name)) => assert_eq!(name, "ghost"),
        other => panic!("Expected NotFound, got {:?}", other),
    }
}

#[test]
fn test_path_traversal_prevention() {
    let mut store = Shelf::new();
    let config = SnapshotConfig::default();

    // These should all fail
    assert!(store.create("../evil", b"hack", &config).is_err());
    assert!(store.create("foo/../bar", b"hack", &config).is_err());
    assert!(store.create("foo/bar", b"hack", &config).is_err());
    assert!(store.create("foo\\bar", b"hack", &config).is_err());
    assert!(store.create("foo\0bar", b"hack", &config).is_err());
    assert!(store.files.is_empty());
}

#[test]
fn test_empty_name_rejected() {
    let mut store = Shelf::new();
    let config = SnapshotConfig::default();

    assert!(store.create("", b"content", &config).is_err());
}

#[test]
fn test_snapshot_not_found() {
    let store = Shelf::new();

    let result = store.read("nonexistent");
    assert!(matches!(result, Err(SnapshotError::NotFound(_))));
}

#[test]
fn name_validation_rules() {
    for bad in ["../x", "a/b", "a\0b", "", "a\\b", "a..b", "caf\u{e9}", "a b", "\u{430}bc"] {
        assert!(
            matches!(SnapshotStore::validate_name(bad), Err(SnapshotError::InvalidName(_))),
            "{:?} should be refused",
            bad
        );
    }
    for good in ["a-b_c.d", "A", "0", ".", "a.b.c", "x-1_Y.z"] {
        assert!(SnapshotStore::validate_name(good).is_ok(), "{:?} should be accepted", good);
    }
    match SnapshotStore::validate_name("") {
        Err(SnapshotError::InvalidName(m)) => assert_eq!(m, "Snapshot name cannot be empty"),
        other => panic!("unexpected {:?}", other),
    }
    match SnapshotStore::validate_name("a/b") {
        Err(SnapshotError::InvalidName(m)) => {
            assert_eq!(m, "Snapshot name contains invalid characters: a/b")
        }
        other => panic!("unexpected {:?}", other),
    }
    match SnapshotStore::validate_name("a\0b") {
        Err(SnapshotError::InvalidName(m)) => assert_eq!(m, "Snapshot name contains null bytes"),
        other => panic!("unexpected {:?}", other),
    }
    match SnapshotStore::validate_name("a b") {
        Err(SnapshotError::InvalidName(m)) => assert_eq!(
            m,
            "Snapshot name contains invalid characters: a b. Use alphanumeric, -, _, or ."
        ),
        other => panic!("unexpected {:?}", other),
    }
    let store = SnapshotStore::new("dir".to_string());
    assert_eq!(store.base_dir(), "dir");
    assert_eq!(store.snapshot_path("t").unwrap(), "t.snap");
    assert!(store.snapshot_path("../t").is_err());
}

#[test]
fn hash_is_fnv1a_in_sixteen_digits() {
    assert_eq!(SnapshotStore::compute_hash(b""), "cbf29ce484222325");
    assert_eq!(SnapshotStore::compute_hash(b"a"), "af63dc4c8601ec8c");
    assert_eq!(SnapshotStore::compute_hash(b"foobar"), "85944171f73967e8");
    // One changed byte changes the digest.
    let base = b"the quick brown fox".to_vec();
    for k in 0..base.len() {
        let mut other = base.clone();
        other[k] ^= 1;
        assert_ne!(SnapshotStore::compute_hash(&base), SnapshotStore::compute_hash(&other));
    }
}

#[test]
fn envelope_is_exact_to_the_byte() {
    let store = SnapshotStore::new("d".to_string());
    let config = SnapshotConfig::default();
    let snapshot = store.create("t", b"line1\nline2", &config, 1234).unwrap();
    let bytes = SnapshotStore::write_snapshot(&snapshot);
    let expected = format!(
        "# Snapshot: t\n# Created: 1234\n# Updated: 1234\n# Hash: {}\n# Size: 11\n# Type: text\n---\nline1\nline2",
        SnapshotStore::compute_hash(b"line1\nline2")
    );
    assert_eq!(bytes, expected.as_bytes());
}

#[test]
fn round_trip_of_written_snapshots() {
    let store = SnapshotStore::new("d".to_string());
    let contents: Vec<Vec<u8>> = vec![
        b"".to_vec(),
        b"plain".to_vec(),
        b"---\n# Size: 3\n".to_vec(),
        vec![0, 159, 146, 150, 10, 13, 255],
        "caf\u{e9} \u{65e5}\u{672c}".as_bytes().to_vec(),
    ];
    for (i, content) in contents.iter().enumerate() {
        for forced in [None, Some(FileType::Text), Some(FileType::Json), Some(FileType::Binary)] {
            let config = SnapshotConfig { file_type: forced, ..Default::default() };
            let name = format!("snap-{}.v_{}", i, i);
            let written = store.create(&name, content, &config, u64::MAX - i as u64).unwrap();
            let bytes = SnapshotStore::write_snapshot(&written);
            let read = store.read("other", Some(&bytes)).unwrap();
            assert_eq!(read.metadata, written.metadata);
            assert_eq!(read.content, written.content);
        }
    }
}

#[test]
fn scenario_create_then_check() {
    let mut store = Shelf::new();
    let config = SnapshotConfig::default();
    store.create("t", b"line1\nline2", &config).unwrap();

    assert!(matches!(store.check("t", b"line1\nline2", &config).unwrap(), CompareResult::Match));

    match store.check("t", b"line1\nLINE2", &config).unwrap() {
        CompareResult::Mismatch { snapshot, actual, diff: DiffOutput::Text(diff) } => {
            assert_eq!(snapshot.content, b"line1\nline2");
            assert_eq!(actual, b"line1\nLINE2");
            assert_eq!(
                diff.changes,
                vec![
                    LineChange::Unchanged { line: "line1".to_string(), old_line_num: 1, new_line_num: 1 },
                    LineChange::Removed { line: "line2".to_string(), old_line_num: 2 },
                    LineChange::Added { line: "LINE2".to_string(), new_line_num: 2 },
                ]
            );
            assert_eq!(diff.additions(), 1);
            assert_eq!(diff.deletions(), 1);
        }
        other => panic!("Expected a text mismatch, got {:?}", other),
    }
}

#[test]
fn scenario_too_many_header_lines() {
    let store = SnapshotStore::new("d".to_string());
    let mut file = String::new();
    for i in 0..150 {
        file.push_str(&format!("# Extra{}: {}\n", i, i));
    }
    file.push_str("---\ncontent");
    match store.read("t", Some(file.as_bytes())) {
        Err(SnapshotError::CorruptedSnapshot(m)) => {
            assert_eq!(m, "Too many header lines: 101 (max: 100)")
        }
        other => panic!("Expected CorruptedSnapshot, got {:?}", other),
    }
}

#[test]
fn a_hundred_header_lines_are_within_the_limit() {
    let store = SnapshotStore::new("d".to_string());
    let mut file = String::new();
    for i in 0..100 {
        file.push_str(&format!("# Field{}: value\n", i));
    }
    let mut longer = file.clone();
    file.push_str("---\ncontent");
    let read = store.read("h", Some(file.as_bytes())).unwrap();
    assert_eq!(read.content, b"content");
    assert_eq!(read.metadata.name, "h");
    assert_eq!(read.metadata.size, 7);
    assert_eq!(read.metadata.content_hash, SnapshotStore::compute_hash(b"content"));

    // One line more is one too many; the separator does not count.
    longer.push_str("# Field100: value\n---\ncontent");
    match store.read("h", Some(longer.as_bytes())) {
        Err(SnapshotError::CorruptedSnapshot(m)) => {
            assert_eq!(m, "Too many header lines: 101 (max: 100)")
        }
        other => panic!("Expected CorruptedSnapshot, got {:?}", other),
    }
}

#[test]
fn reader_limits_and_fallbacks() {
    let store = SnapshotStore::new("d".to_string());

    match store.read("t", Some(b"# Snapshot: t\ncontent without separator")) {
        Err(SnapshotError::CorruptedSnapshot(m)) => {
            assert_eq!(m, "Missing --- separator in snapshot file")
        }
        other => panic!("unexpected {:?}", other),
    }
    match store.read("t", Some(b"")) {
        Err(SnapshotError::CorruptedSnapshot(m)) => {
            assert_eq!(m, "Missing --- separator in snapshot file")
        }
        other => panic!("unexpected {:?}", other),
    }

    let mut long = "# Key: ".to_string();
    long.push_str(&"x".repeat(1017));
    long.push_str("\n---\n");
    assert_eq!(long.find('\n').unwrap() + 1, 1025);
    match store.read("t", Some(long.as_bytes())) {
        Err(SnapshotError::CorruptedSnapshot(m)) => {
            assert_eq!(m, "Header line too long: 1025 bytes (max: 1024)")
        }
        other => panic!("unexpected {:?}", other),
    }
    let mut fits = "# Key: ".to_string();
    fits.push_str(&"x".repeat(1016));
    fits.push_str("\n---\n");
    assert!(store.read("t", Some(fits.as_bytes())).is_ok());

    let mut big = b"---\n".to_vec();
    big.resize(4 + 100 * 1024 * 1024 + 1, b'a');
    match store.read("t", Some(&big)) {
        Err(SnapshotError::CorruptedSnapshot(m)) => {
            assert_eq!(m, "Content too large: 104857601 bytes (max: 104857600)")
        }
        other => panic!("unexpected {:?}", other),
    }

    match store.read("t", Some(b"# Snapshot: \xff\n---\n")) {
        Err(SnapshotError::IoError(m)) => assert_eq!(m, "stream did not contain valid UTF-8"),
        other => panic!("unexpected {:?}", other),
    }

    // Missing or unreadable fields fall back; unknown lines are passed over.
    let read = store
        .read("lookup", Some(b"comment\n# Created: soon\n# Size: -1\n# Future: 1\n  ---  \nabc"))
        .unwrap();
    assert_eq!(read.metadata.name, "lookup");
    assert_eq!(read.metadata.created_at, 0);
    assert_eq!(read.metadata.updated_at, 0);
    assert_eq!(read.metadata.content_hash, SnapshotStore::compute_hash(b"abc"));
    assert_eq!(read.metadata.size, 3);
    assert_eq!(read.metadata.file_type, FileType::Text);
    assert_eq!(read.content, b"abc");

    // The last line of a key counts; a type that is no known word and a
    // hash that is no digest are made up from the content.
    let read = store
        .read("x", Some(b"# Snapshot: one\n# Snapshot: two\n# Type: yaml\n# Created: +7\n# Hash: h\n---\n\x00\x01"))
        .unwrap();
    assert_eq!(read.metadata.name, "two");
    assert_eq!(read.metadata.file_type, FileType::Binary);
    assert_eq!(read.metadata.created_at, 7);
    assert_eq!(read.metadata.content_hash, SnapshotStore::compute_hash(b"\x00\x01"));
    let read = store.read("x", Some(b"# Type: yaml\n---\nplain words")).unwrap();
    assert_eq!(read.metadata.file_type, FileType::Text);
    let read = store.read("x", Some(b"# Type: text\n---\n\x00\x01")).unwrap();
    assert_eq!(read.metadata.file_type, FileType::Text);
    let read = store.read("x", Some(b"# Type: binary\n---\nplain words")).unwrap();
    assert_eq!(read.metadata.file_type, FileType::Binary);
    let read = store.read("x", Some(b"# Type: json\n---\nplain words")).unwrap();
    assert_eq!(read.metadata.file_type, FileType::Json);
    let read = store.read("x", Some(b"---\n\x00\x01")).unwrap();
    assert_eq!(read.metadata.file_type, FileType::Binary);

    assert!(matches!(store.read("../x", Some(b"---\n")), Err(SnapshotError::InvalidName(_))));
    assert!(matches!(store.read("x", None), Err(SnapshotError::NotFound(_))));
}

#[test]
fn update_keeps_the_time_of_creation() {
    let mut store = Shelf::new();
    let config = SnapshotConfig::default();
    let first = store.create("u", b"one", &config).unwrap();
    let second = store.update("u", b"two", &config).unwrap();
    assert_eq!(second.metadata.created_at, first.metadata.created_at);
    assert!(second.metadata.updated_at > first.metadata.updated_at);
    assert_eq!(second.metadata.content_hash, SnapshotStore::compute_hash(b"two"));
    assert_eq!(second.metadata.size, 3);

    // Without a readable file the time of creation is the time of the update.
    let fresh = store.store.update("v", b"x", &config, None, 77).unwrap();
    assert_eq!((fresh.metadata.created_at, fresh.metadata.updated_at), (77, 77));
    let fresh = store.store.update("v", b"x", &config, Some(b"damaged"), 78).unwrap();
    assert_eq!((fresh.metadata.created_at, fresh.metadata.updated_at), (78, 78));
    assert!(matches!(
        store.store.update("a/b", b"x", &config, None, 1),
        Err(SnapshotError::InvalidName(_))
    ));
}

#[test]
fn check_picks_the_diff_by_type() {
    let mut store = Shelf::new();
    let text = SnapshotConfig::default();
    let json = SnapshotConfig { file_type: Some(FileType::Json), ..Default::default() };
    let binary = SnapshotConfig { file_type: Some(FileType::Binary), ..Default::default() };

    store.create("j", br#"{"a": 1}"#, &json).unwrap();
    match store.check("j", br#"{"a": 2}"#, &text).unwrap() {
        CompareResult::Mismatch { diff: DiffOutput::Json(d), .. } => assert_eq!(d.modifications(), 1),
        other => panic!("unexpected {:?}", other),
    }
    // JSON that does not parse is compared as text.
    match store.check("j", b"{broken", &text).unwrap() {
        CompareResult::Mismatch { diff: DiffOutput::Text(d), .. } => assert!(d.has_changes()),
        other => panic!("unexpected {:?}", other),
    }
    // A forced type wins over the stored one.
    match store.check("j", br#"{"a": 2}"#, &binary).unwrap() {
        CompareResult::Mismatch { diff: DiffOutput::Binary(d), .. } => {
            assert_eq!(d.differences.len(), 1)
        }
        other => panic!("unexpected {:?}", other),
    }
    // Text needs UTF-8 on both sides.
    store.create("t", b"text", &text).unwrap();
    assert!(matches!(store.check("t", b"\xff\xfe", &text), Err(SnapshotError::InvalidUtf8(_))));
    store.create("b", b"\xff\xfe", &binary).unwrap();
    let forced_text = SnapshotConfig { file_type: Some(FileType::Text), ..Default::default() };
    assert!(matches!(store.check("b", b"text", &forced_text), Err(SnapshotError::InvalidUtf8(_))));
    // In update mode no diff is made: content that no diff could take
    // replaces the snapshot all the same.
    let update = SnapshotConfig { update_mode: true, ..Default::default() };
    match store.check("t", b"\xff\xfe", &update).unwrap() {
        CompareResult::Updated { old_snapshot, new_content } => {
            assert_eq!(old_snapshot.content, b"text");
            assert_eq!(new_content, b"\xff\xfe");
        }
        other => panic!("unexpected {:?}", other),
    }
    assert_eq!(store.read("t").unwrap().content, b"\xff\xfe");
    assert!(matches!(store.check("t", b"\xff\xfe", &update), Ok(CompareResult::Match)));
}

#[test]
fn an_unknown_type_word_leaves_the_type_to_the_content() {
    let store = SnapshotStore::new("d".to_string());
    let read = store.read("lookup", Some(b"# Type: bogus\n---\n\x00\x01\x02")).unwrap();
    assert_eq!(read.content, vec![0u8, 1, 2]);
    assert_eq!(read.metadata.name, "lookup");
    assert_eq!(read.metadata.size, 3);
    assert_eq!(read.metadata.file_type, FileType::Binary);
    assert_eq!(read.metadata.content_hash, SnapshotStore::compute_hash(&[0, 1, 2]));
    assert_eq!(read.metadata.created_at, 0);
    assert_eq!(read.metadata.updated_at, 0);
}

#[test]
fn a_hash_field_counts_only_as_a_digest() {
    let store = SnapshotStore::new("d".to_string());
    let computed = SnapshotStore::compute_hash(b"abc");

    // Sixteen hexadecimal digits are taken as they stand.
    let read = store.read("x", Some(b"# Hash: 0123456789abcdef\n---\nabc")).unwrap();
    assert_eq!(read.metadata.content_hash, "0123456789abcdef");

    // Anything else gives way to the digest of the content.
    for field in [
        "h",
        "0123456789abcde",
        "0123456789abcdef0",
        "0123456789ABCDEF",
        "0123456789abcdeg",
        "0x23456789abcdef",
        "0123 456789abcdef",
    ] {
        let file = format!("# Hash: {}\n---\nabc", field);
        let read = store.read("x", Some(file.as_bytes())).unwrap();
        assert_eq!(read.metadata.content_hash, computed, "field {:?}", field);
    }

    // A check compares against the digest that the reader settled on.
    let config = SnapshotConfig::default();
    assert!(matches!(
        store.check("x", Some(b"# Hash: none\n---\nabc"), b"abc", &config),
        Ok(CompareResult::Match)
    ));
}

#[test]
fn snapshot_error_texts() {
    assert_eq!(SnapshotError::NotFound("n".to_string()).to_string(), "Snapshot not found: n");
    assert_eq!(SnapshotError::IoError("e".to_string()).to_string(), "IO error: e");
    assert_eq!(SnapshotError::InvalidName("x".to_string()).to_string(), "Invalid snapshot name: x");
    assert_eq!(
        SnapshotError::CorruptedSnapshot("c".to_string()).to_string(),
        "Corrupted snapshot: c"
    );
    assert_eq!(SnapshotError::InvalidUtf8("u".to_string()).to_string(), "Invalid UTF-8: u");
}

// ---------------------------------------------------------------------------
// More of the store, case by case
// ---------------------------------------------------------------------------

#[test]
fn test_check_matching_snapshot() {
    let mut store = Shelf::new();
    let config = SnapshotConfig::default();

    let content = b"hello world";
    store.create("test-match", content, &config).unwrap();

    let result = store.check("test-match", content, &config).unwrap();
    assert!(result.matches());
}

#[test]
fn test_check_mismatching_snapshot() {
    let mut store = Shelf::new();
    let config = SnapshotConfig::default();

    store.create("test-mismatch", b"expected", &config).unwrap();

    let result = store.check("test-mismatch", b"actual", &config).unwrap();
    assert!(!result.matches());
    assert!(result.diff().is_some());
}

#[test]
fn test_update_snapshot() {
    let mut store = Shelf::new();
    let config = SnapshotConfig::default();

    store
        .create("test-update", b"old content", &config)
        .unwrap();
    let updated = store
        .update("test-update", b"new content", &config)
        .unwrap();

    assert_eq!(updated.content, b"new content");

    let read = store.read("test-update").unwrap();
    assert_eq!(read.content, b"new content");
}

#[test]
fn lib_test_delete_snapshot() {
    let mut store = Shelf::new();
    let config = SnapshotConfig::default();

    store.create("test-delete", b"content", &config).unwrap();
    assert!(store.is_there("test-delete").unwrap());

    store.delete("test-delete").unwrap();
    assert!(!store.is_there("test-delete").unwrap());
}

#[test]
fn lib_test_list_snapshots() {
    let mut store = Shelf::new();
    let config = SnapshotConfig::default();

    store.create("snap-a", b"a", &config).unwrap();
    store.create("snap-b", b"b", &config).unwrap();
    store.create("snap-c", b"c", &config).unwrap();

    let list = store.list().unwrap();
    assert_eq!(list.len(), 3);
    assert_eq!(list[0].name, "snap-a");
    assert_eq!(list[1].name, "snap-b");
    assert_eq!(list[2].name, "snap-c");
}

#[test]
fn lib_test_update_mode() {
    let mut store = Shelf::new();

    let config = SnapshotConfig::default();
    store.create("test-update-mode", b"old", &config).unwrap();

    let update_config = SnapshotConfig {
        update_mode: true,
        ..Default::default()
    };

    let result = store
        .check("test-update-mode", b"new", &update_config)
        .unwrap();
    assert!(result.was_updated());

    // Verify update was applied
    let read = store.read("test-update-mode").unwrap();
    assert_eq!(read.content, b"new");
}

#[test]
fn lib_test_json_snapshot() {
    let mut store = Shelf::new();
    let config = SnapshotConfig {
        file_type: Some(FileType::Json),
        ..Default::default()
    };

    let old_json = br#"{"name": "Alice", "age": 30}"#;
    let new_json = br#"{"name": "Bob", "age": 30}"#;

    store.create("test-json", old_json, &config).unwrap();

    let result = store.check("test-json", new_json, &config).unwrap();
    assert!(!result.matches());

    if let Some(diff) = result.diff() {
        let formatted = diff.format("test-json", false);
        assert!(
            formatted.contains("name")
                || formatted.contains("Alice")
                || formatted.contains("Bob")
        );
    }
}

#[test]
fn lib_test_binary_snapshot() {
    let mut store = Shelf::new();
    let config = SnapshotConfig {
        file_type: Some(FileType::Binary),
        ..Default::default()
    };

    let old_binary = &[0x00, 0x01, 0x02, 0x03];
    let new_binary = &[0x00, 0xFF, 0x02, 0x03];

    store.create("test-binary", old_binary, &config).unwrap();

    let result = store.check("test-binary", new_binary, &config).unwrap();
    assert!(!result.matches());

    if let Some(DiffOutput::Binary(binary_diff)) = result.diff() {
        assert!(!binary_diff.is_identical());
        assert_eq!(binary_diff.differences.len(), 1);
    } else {
        panic!("Expected binary diff");
    }
}

#[test]
fn test_diff_output_format() {
    let mut store = Shelf::new();
    let config = SnapshotConfig::default();

    store
        .create("test-format", b"line 1\nline 2\nline 3", &config)
        .unwrap();

    let result = store
        .check("test-format", b"line 1\nmodified\nline 3", &config)
        .unwrap();

    if let Some(diff) = result.diff() {
        let formatted = diff.format("test-format", false);
        assert!(formatted.contains("line 2") || formatted.contains("modified"));
    }
}

#[test]
fn test_empty_content() {
    let mut store = Shelf::new();
    let config = SnapshotConfig::default();

    store.create("empty", b"", &config).unwrap();
    let snapshot = store.read("empty").unwrap();
    assert!(snapshot.content.is_empty());
    assert_eq!(snapshot.metadata.size, 0);
}

#[test]
fn lib_test_large_content() {
    let mut store = Shelf::new();
    let config = SnapshotConfig::default();

    let large_content: Vec<u8> = (0..10000).map(|i| (i % 256) as u8).collect();
    store.create("large", &large_content, &config).unwrap();
    let snapshot = store.read("large").unwrap();
    assert_eq!(snapshot.content, large_content);
}

#[test]
fn lib_test_unicode_content() {
    let mut store = Shelf::new();
    let config = SnapshotConfig::default();

    let unicode_content = "Hello 世界 🌍 café résumé".as_bytes();
    store.create("unicode", unicode_content, &config).unwrap();
    let snapshot = store.read("unicode").unwrap();
    assert_eq!(snapshot.content, unicode_content);
}

#[test]
fn lib_test_clean_dry_run() {
    let mut store = Shelf::new();
    let config = SnapshotConfig::default();

    store.create("keep", b"keep", &config).unwrap();
    store.create("orphan", b"orphan", &config).unwrap();

    let deleted = store.clean(&["keep"], true).unwrap();
    assert_eq!(deleted.len(), 1);
    assert!(deleted.contains(&"orphan".to_string()));

    // Verify nothing was actually deleted
    let remaining = store.list().unwrap();
    assert_eq!(remaining.len(), 2);
}

#[test]
fn test_special_characters_in_name() {
    let mut store = Shelf::new();
    let config = SnapshotConfig::default();

    // These should work
    store.create("test-name", b"content", &config).unwrap();
    store.create("test_name", b"content", &config).unwrap();
    store.create("test.name", b"content", &config).unwrap();
    store.create("Test123", b"content", &config).unwrap();

    // These should fail
    assert!(store.create("test name", b"content", &config).is_err());
    assert!(store.create("test@name", b"content", &config).is_err());
    assert!(store.create("test#name", b"content", &config).is_err());
}

#[test]
fn test_security_path_traversal_variants() {
    let mut store = Shelf::new();
    let config = SnapshotConfig::default();

    // Various path traversal attempts
    let attacks = [
        "../etc/passwd",
        "..\\windows\\system32",
        "foo/../bar",
        "foo/bar",
        "foo\\bar",
        "..",
        "...",
        "....//",
        "%2e%2e/",
        "..%2f",
        "..%5c",
    ];

    for attack in &attacks {
        let result = store.create(attack, b"malicious", &config);
        assert!(
            result.is_err(),
            "Path traversal should be blocked: {}",
            attack
        );
    }
}

#[test]
fn test_security_null_byte_injection() {
    let mut store = Shelf::new();
    let config = SnapshotConfig::default();

    // Null byte injection attempts
    let attacks = [
        "test\0.txt",
        "\0hidden",
        "visible\0hidden",
        "test\x00suffix",
    ];

    for attack in &attacks {
        let result = store.create(attack, b"content", &config);
        assert!(
            result.is_err(),
            "Null byte injection should be blocked: {:?}",
            attack
        );
    }
}

#[test]
fn test_security_malformed_snapshot_missing_separator() {
    let mut store = Shelf::new();

    // Create a malformed snapshot file without separator
    store.write_file("malformed.snap", "# Snapshot: malformed\n# Created: 0\nno separator here");

    let result = store.read("malformed");
    assert!(result.is_err());
    if let Err(SnapshotError::CorruptedSnapshot(msg)) = result {
        assert!(msg.contains("separator"), "Error should mention missing separator");
    }
}

#[test]
fn test_security_header_line_too_long() {
    let mut store = Shelf::new();

    // Create a snapshot with extremely long header line
    let long_value = "x".repeat(2000); // Exceeds MAX_HEADER_LINE_LENGTH (1024)
    let content = format!("# Snapshot: test\n# LongField: {}\n---\ncontent", long_value);
    store.write_file("longheader.snap", content);

    let result = store.read("longheader");
    assert!(result.is_err());
    if let Err(SnapshotError::CorruptedSnapshot(msg)) = result {
        assert!(msg.contains("too long"), "Error should mention line too long");
    }
}

#[test]
fn test_security_too_many_header_lines() {
    let mut store = Shelf::new();

    // Create a snapshot with too many header lines
    let mut content = String::new();
    for i in 0..150 {
        // Exceeds MAX_HEADER_LINES (100)
        content.push_str(&format!("# Field{}: value\n", i));
    }
    content.push_str("---\ncontent");

    store.write_file("manyheaders.snap", content);

    let result = store.read("manyheaders");
    assert!(result.is_err());
    if let Err(SnapshotError::CorruptedSnapshot(msg)) = result {
        assert!(
            msg.contains("Too many header lines"),
            "Error should mention too many headers"
        );
    }
}

#[test]
fn test_security_empty_snapshot_name() {
    let mut store = Shelf::new();
    let config = SnapshotConfig::default();

    assert!(store.create("", b"content", &config).is_err());
    assert!(store.read("").is_err());
    assert!(store.delete("").is_err());
}

#[test]
fn test_security_whitespace_only_name() {
    let mut store = Shelf::new();
    let config = SnapshotConfig::default();

    let whitespace_names = ["   ", "\t", "\n", " \t\n ", "\r\n"];

    for name in &whitespace_names {
        let result = store.create(name, b"content", &config);
        assert!(
            result.is_err(),
            "Whitespace-only name should be rejected: {:?}",
            name
        );
    }
}

#[test]
fn test_security_binary_content_preserved() {
    let mut store = Shelf::new();
    let config = SnapshotConfig::default();

    // Binary content with null bytes, control chars, etc.
    let binary_content: Vec<u8> = (0..=255).collect();
    store.create("binary", &binary_content, &config).unwrap();

    let snapshot = store.read("binary").unwrap();
    assert_eq!(snapshot.content, binary_content);
}

#[test]
fn test_security_unicode_name_validation() {
    let mut store = Shelf::new();
    let config = SnapshotConfig::default();

    // Unicode that looks like ASCII but isn't
    let tricky_names = [
        "test\u{200B}name", // Zero-width space
        "test\u{00AD}name", // Soft hyphen
        "test\u{FEFF}name", // BOM
        "tеst",             // Cyrillic 'е' instead of Latin 'e'
    ];

    for name in &tricky_names {
        let result = store.create(name, b"content", &config);
        assert!(
            result.is_err(),
            "Tricky unicode should be rejected: {:?}",
            name
        );
    }
}

#[test]
fn test_security_very_long_name() {
    let mut store = Shelf::new();
    let config = SnapshotConfig::default();

    // Very long but valid name (only alphanumeric)
    let long_name = "a".repeat(1000);
    let result = store.create(&long_name, b"content", &config);
    // Should either work or fail gracefully (filesystem limits)
    // The important thing is it doesn't crash or cause security issues
    if result.is_ok() {
        let _ = store.delete(&long_name);
    }
}

#[test]
fn test_security_hash_consistency() {
    let mut store = Shelf::new();
    let config = SnapshotConfig::default();

    let content = b"deterministic content for hash test";

    // Create and read multiple times
    store.create("hash-test", content, &config).unwrap();
    let snap1 = store.read("hash-test").unwrap();

    store.update("hash-test", content, &config).unwrap();
    let snap2 = store.read("hash-test").unwrap();

    // Hashes should be identical for same content
    assert_eq!(
        snap1.metadata.content_hash, snap2.metadata.content_hash,
        "Hash should be deterministic"
    );
}

#[test]
fn test_security_error_messages_no_sensitive_info() {
    let mut store = Shelf::new();

    // Try to read non-existent snapshot
    let result = store.read("does-not-exist");
    assert!(result.is_err());

    // Error message should not leak internal paths
    let err_msg = result.unwrap_err().to_string();
    assert!(
        !err_msg.contains(store.store.base_dir()),
        "Error should not contain internal path"
    );
}

#[test]
fn integration_test_list_snapshots() {
    let mut store = Shelf::new();
    let config = SnapshotConfig::default();

    // Create multiple snapshots
    store.create("alpha", b"a", &config).unwrap();
    store.create("beta", b"b", &config).unwrap();
    store.create("gamma", b"c", &config).unwrap();

    let list = store.list().unwrap();

    assert_eq!(list.len(), 3);

    let names: Vec<_> = list.iter().map(|s| s.name.as_str()).collect();
    assert!(names.contains(&"alpha"));
    assert!(names.contains(&"beta"));
    assert!(names.contains(&"gamma"));
}

#[test]
fn test_clean_orphaned_snapshots() {
    let mut store = Shelf::new();
    let config = SnapshotConfig::default();

    store.create("keep-this", b"k1", &config).unwrap();
    store.create("also-keep", b"k2", &config).unwrap();
    store.create("orphan-1", b"o1", &config).unwrap();
    store.create("orphan-2", b"o2", &config).unwrap();

    // Clean, keeping only specified ones
    let deleted = store.clean(&["keep-this", "also-keep"], false).unwrap();

    assert_eq!(deleted.len(), 2);
    assert!(deleted.contains(&"orphan-1".to_string()));
    assert!(deleted.contains(&"orphan-2".to_string()));

    // Verify remaining
    let remaining = store.list().unwrap();
    assert_eq!(remaining.len(), 2);
}

#[test]
fn integration_test_clean_dry_run() {
    let mut store = Shelf::new();
    let config = SnapshotConfig::default();

    store.create("keep", b"k", &config).unwrap();
    store.create("delete", b"d", &config).unwrap();

    // Dry run - should return what would be deleted but not delete
    let would_delete = store.clean(&["keep"], true).unwrap();

    assert_eq!(would_delete.len(), 1);
    assert!(would_delete.contains(&"delete".to_string()));

    // Verify nothing was actually deleted
    let all = store.list().unwrap();
    assert_eq!(all.len(), 2);
}

#[test]
fn test_invalid_name_error() {
    let mut store = Shelf::new();
    let config = SnapshotConfig::default();

    // Names with path separators should be rejected
    let invalid_names = vec![
        "path/traversal",
        "back\\slash",
        "../escape",
        "..\\escape",
        "sub/dir/file",
    ];

    for name in invalid_names {
        let result = store.create(name, b"content", &config);
        match result {
            Err(SnapshotError::InvalidName(_)) => {}
            _ => panic!("Expected InvalidName error for: {}", name),
        }
    }
}

#[test]
fn test_delete_nonexistent() {
    let mut store = Shelf::new();

    let result = store.delete("nonexistent");

    match result {
        Err(SnapshotError::NotFound(_)) => {}
        _ => panic!("Expected NotFound error"),
    }
}

#[test]
fn test_snapshot_metadata() {
    let mut store = Shelf::new();
    let config = SnapshotConfig::default();

    store.create("meta-test", b"test content", &config).unwrap();

    let list = store.list().unwrap();
    let meta = list.iter().find(|m| m.name == "meta-test").unwrap();

    assert_eq!(meta.name, "meta-test");
    assert_eq!(meta.size, 12);
    assert!(!meta.content_hash.is_empty()); // Hash should be computed
    assert!(meta.created_at > 0); // Timestamp should be set
}

#[test]
fn test_exists_for_existing_snapshot() {
    let mut store = Shelf::new();
    let config = SnapshotConfig::default();

    store.create("test", b"content", &config).unwrap();
    assert!(store.is_there("test").unwrap());
}

#[test]
fn test_exists_for_nonexistent_snapshot() {
    let mut store = Shelf::new();

    assert!(!store.is_there("nonexistent").unwrap());
}

#[test]
fn test_exists_after_delete() {
    let mut store = Shelf::new();
    let config = SnapshotConfig::default();

    store.create("test", b"content", &config).unwrap();
    assert!(store.is_there("test").unwrap());

    store.delete("test").unwrap();
    assert!(!store.is_there("test").unwrap());
}

#[test]
fn test_exists_with_invalid_name() {
    let mut store = Shelf::new();

    // Invalid names should return error, not false
    let result = store.is_there("../escape");
    assert!(result.is_err());
}

#[test]
fn test_config_with_file_type() {
    let mut store = Shelf::new();
    let config = SnapshotConfig {
        file_type: Some(FileType::Binary),
        ..Default::default()
    };

    // Even text content should be stored as binary
    let snapshot = store
        .create("force-binary", b"text content", &config)
        .unwrap();
    assert_eq!(snapshot.metadata.file_type, FileType::Binary);
}

#[test]
fn test_auto_detect_text_for_json_content() {
    // odiff detects JSON by extension, not content - so this becomes Text
    let mut store = Shelf::new();
    let config = SnapshotConfig::default();

    let json = b"[1, 2, 3]";
    let snapshot = store.create("json-array", json, &config).unwrap();
    // Without extension hint, valid UTF-8 content is detected as Text
    assert_eq!(snapshot.metadata.file_type, FileType::Text);
}

#[test]
fn test_explicit_json_type() {
    // To get JSON handling, use explicit file_type in config
    let mut store = Shelf::new();
    let config = SnapshotConfig {
        file_type: Some(FileType::Json),
        ..Default::default()
    };

    let json = br#"{"key": "value"}"#;
    let snapshot = store.create("json-object", json, &config).unwrap();
    assert_eq!(snapshot.metadata.file_type, FileType::Json);
}

#[test]
fn test_explicit_binary_type() {
    // Explicit binary type even for valid UTF-8
    let mut store = Shelf::new();
    let config = SnapshotConfig {
        file_type: Some(FileType::Binary),
        ..Default::default()
    };

    let text = b"Hello, World!";
    let snapshot = store.create("forced-binary", text, &config).unwrap();
    assert_eq!(snapshot.metadata.file_type, FileType::Binary);
}

#[test]
fn test_auto_detect_binary_with_null() {
    let mut store = Shelf::new();
    let config = SnapshotConfig::default();

    let binary = b"text\x00with null";
    let snapshot = store.create("binary-null", binary, &config).unwrap();
    assert_eq!(snapshot.metadata.file_type, FileType::Binary);
}

#[test]
fn test_auto_detect_text() {
    let mut store = Shelf::new();
    let config = SnapshotConfig::default();

    let text = b"plain text content\nwith newlines";
    let snapshot = store.create("plain-text", text, &config).unwrap();
    assert_eq!(snapshot.metadata.file_type, FileType::Text);
}

#[test]
fn test_overwrite_existing_snapshot() {
    let mut store = Shelf::new();
    let config = SnapshotConfig::default();

    store.create("overwrite", b"first", &config).unwrap();
    let second = store.create("overwrite", b"second", &config).unwrap();

    assert_eq!(second.content, b"second");
}

#[test]
fn test_update_nonexistent_creates() {
    let mut store = Shelf::new();
    let config = SnapshotConfig::default();

    // Update on non-existent should create
    let snapshot = store.update("new-snap", b"content", &config).unwrap();
    assert_eq!(snapshot.metadata.name, "new-snap");
}

#[test]
fn test_timestamps_are_reasonable() {
    let mut store = Shelf::new();
    let config = SnapshotConfig::default();

    let before = store.clock;

    let snapshot = store.create("timestamp-test", b"content", &config).unwrap();

    let after = store.clock;

    assert!(snapshot.metadata.created_at >= before);
    assert!(snapshot.metadata.created_at <= after);
    assert!(snapshot.metadata.updated_at >= before);
    assert!(snapshot.metadata.updated_at <= after);
}

#[test]
fn test_update_preserves_created_at() {
    let mut store = Shelf::new();
    let config = SnapshotConfig::default();

    let original = store.create("preserve-time", b"v1", &config).unwrap();
    let created = original.metadata.created_at;

    let updated = store.update("preserve-time", b"v2", &config).unwrap();

    assert_eq!(updated.metadata.created_at, created);
    assert!(updated.metadata.updated_at >= created);
}

#[test]
fn test_list_sorted_by_name() {
    let mut store = Shelf::new();
    let config = SnapshotConfig::default();

    store.create("zebra", b"z", &config).unwrap();
    store.create("alpha", b"a", &config).unwrap();
    store.create("middle", b"m", &config).unwrap();

    let list = store.list().unwrap();
    let names: Vec<_> = list.iter().map(|m| m.name.as_str()).collect();

    assert_eq!(names, vec!["alpha", "middle", "zebra"]);
}

#[test]
fn test_clean_with_empty_keep_list() {
    let mut store = Shelf::new();
    let config = SnapshotConfig::default();

    store.create("snap1", b"1", &config).unwrap();
    store.create("snap2", b"2", &config).unwrap();

    // Empty keep list should delete all
    let deleted = store.clean(&[], false).unwrap();
    assert_eq!(deleted.len(), 2);

    let remaining = store.list().unwrap();
    assert!(remaining.is_empty());
}

#[test]
fn test_clean_on_empty_store() {
    let mut store = Shelf::new();

    // Should not error on empty store
    let deleted = store.clean(&["anything"], false).unwrap();
    assert!(deleted.is_empty());
}

#[test]
fn test_list_on_empty_store() {
    let mut store = Shelf::new();

    let list = store.list().unwrap();
    assert!(list.is_empty());
}

#[test]
fn test_special_bytes_in_content() {
    let mut store = Shelf::new();
    let config = SnapshotConfig::default();

    // Test various special bytes
    let special: Vec<u8> = vec![
        0x00, 0x01, 0x02, 0x03, // Control chars
        0x7F, 0x80, 0x81, // DEL and high bytes
        0xFE, 0xFF, // Near max bytes
    ];

    store.create("special-bytes", &special, &config).unwrap();

    let snapshot = store.read("special-bytes").unwrap();
    assert_eq!(snapshot.content, special);
}

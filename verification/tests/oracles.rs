use snapshot_comparison::{
    compute_lcs, detect_file_type, diff_text, DiffConfig, FileType, LineChange, Snapshot,
    SnapshotError, SnapshotMetadata, SnapshotStore,
};
use std::collections::HashMap;
use std::io::{BufRead, BufReader, Cursor, Read};

/// A small generator of numbers that gives the same run every time.
struct Dice(u64);

impl Dice {
    fn roll(&mut self, sides: usize) -> usize {
        self.0 ^= self.0 << 13;
        self.0 ^= self.0 >> 7;
        self.0 ^= self.0 << 17;
        (self.0 % sides as u64) as usize
    }

    fn pick<'a>(&mut self, from: &[&'a str]) -> &'a str {
        from[self.roll(from.len())]
    }
}

/// The length of a longest common subsequence, by trying every choice.
fn longest(a: &[&str], b: &[&str], memo: &mut HashMap<(usize, usize), usize>) -> usize {
    if a.is_empty() || b.is_empty() {
        return 0;
    }
    if let Some(&known) = memo.get(&(a.len(), b.len())) {
        return known;
    }
    let skip_a = longest(&a[1..], b, memo);
    let skip_b = longest(a, &b[1..], memo);
    let mut best = skip_a.max(skip_b);
    if a[0] == b[0] {
        best = best.max(1 + longest(&a[1..], &b[1..], memo));
    }
    memo.insert((a.len(), b.len()), best);
    best
}

#[test]
fn common_subsequences_are_longest_ones() {
    let mut dice = Dice(0x9e3779b97f4a7c15);
    let words = ["a", "b", "c", "a", ""];
    for _ in 0..300 {
        let a: Vec<&str> = (0..dice.roll(9)).map(|_| dice.pick(&words)).collect();
        let b: Vec<&str> = (0..dice.roll(9)).map(|_| dice.pick(&words)).collect();
        let picked = compute_lcs(&a, &b);
        assert_eq!(picked.len(), longest(&a, &b, &mut HashMap::new()), "{:?} {:?}", a, b);
        assert!(picked.windows(2).all(|w| w[0] < w[1]));
        // The picked lines occur in `a` in this order.
        let mut from = 0;
        for &j in &picked {
            let at = a[from..].iter().position(|line| *line == b[j]);
            assert!(at.is_some(), "{:?} {:?} {:?}", a, b, picked);
            from += at.unwrap() + 1;
        }
    }
}

#[test]
fn context_keeps_what_lies_near_a_change() {
    let mut dice = Dice(0x2545f4914f6cdd1d);
    let words = ["a", "b", "c", "d"];
    for _ in 0..200 {
        let old: Vec<&str> = (0..dice.roll(12)).map(|_| dice.pick(&words)).collect();
        let new: Vec<&str> = (0..dice.roll(12)).map(|_| dice.pick(&words)).collect();
        let (old, new) = (old.join("\n"), new.join("\n"));
        let all = diff_text(&old, &new, &DiffConfig::default()).changes;
        let changed: Vec<usize> = all
            .iter()
            .enumerate()
            .filter(|(_, c)| !matches!(c, LineChange::Unchanged { .. }))
            .map(|(i, _)| i)
            .collect();
        for context in [0usize, 1, 2, 5, usize::MAX - 1] {
            let config = DiffConfig { context_lines: context, ..DiffConfig::default() };
            let kept = diff_text(&old, &new, &config).changes;
            let expected: Vec<LineChange> = all
                .iter()
                .enumerate()
                .filter(|(i, _)| changed.iter().any(|c| c.abs_diff(*i) <= context))
                .map(|(_, c)| c.clone())
                .collect();
            assert_eq!(kept, expected, "{:?} -> {:?} with {}", old, new, context);
        }
    }
}

/// Reads a snapshot file the way a buffered reader of lines does.
fn read_by_lines(name: &str, bytes: &[u8]) -> Result<Snapshot, SnapshotError> {
    let mut reader = BufReader::new(Cursor::new(bytes));
    let mut header: HashMap<String, String> = HashMap::new();
    let mut content = Vec::new();
    let mut lines = 0;
    let mut separated = false;
    loop {
        let mut line = String::new();
        let read = reader.read_line(&mut line).map_err(|e| SnapshotError::IoError(e.to_string()))?;
        if read == 0 {
            break;
        }
        if line.len() > 1024 {
            return Err(SnapshotError::CorruptedSnapshot(format!(
                "Header line too long: {} bytes (max: {})",
                line.len(),
                1024
            )));
        }
        if line.trim() == "---" {
            separated = true;
            reader.read_to_end(&mut content).map_err(|e| SnapshotError::IoError(e.to_string()))?;
            break;
        }
        lines += 1;
        if lines > 100 {
            return Err(SnapshotError::CorruptedSnapshot(format!(
                "Too many header lines: {} (max: {})",
                lines, 100
            )));
        }
        if let Some(rest) = line.strip_prefix("# ") {
            if let Some((key, value)) = rest.trim().split_once(": ") {
                header.insert(key.to_string(), value.to_string());
            }
        }
    }
    if !separated {
        return Err(SnapshotError::CorruptedSnapshot(
            "Missing --- separator in snapshot file".to_string(),
        ));
    }
    let metadata = SnapshotMetadata {
        name: header.get("Snapshot").cloned().unwrap_or_else(|| name.to_string()),
        created_at: header.get("Created").and_then(|s| s.parse().ok()).unwrap_or(0),
        updated_at: header.get("Updated").and_then(|s| s.parse().ok()).unwrap_or(0),
        content_hash: header
            .get("Hash")
            .filter(|s| s.len() == 16 && s.bytes().all(|b| b"0123456789abcdef".contains(&b)))
            .cloned()
            .unwrap_or_else(|| SnapshotStore::compute_hash(&content)),
        size: header.get("Size").and_then(|s| s.parse().ok()).unwrap_or(content.len()),
        file_type: header
            .get("Type")
            .and_then(|s| match s.as_str() {
                "text" => Some(FileType::Text),
                "json" => Some(FileType::Json),
                "binary" => Some(FileType::Binary),
                _ => None,
            })
            .unwrap_or_else(|| detect_file_type(&content, None)),
    };
    Ok(Snapshot { metadata, content })
}

#[test]
fn files_read_as_a_reader_of_lines_reads_them() {
    let mut dice = Dice(0xd1342543de82ef95);
    let pieces = [
        "# Snapshot: n\n",
        "# Snapshot: other name \n",
        "# Created: 12\n",
        "# Created: twelve\n",
        "# Updated: +5\n",
        "# Hash: 00ff\n",
        "# Hash: 00ff00ff00ff00ff\n",
        "# Hash: 00FF00FF00FF00FF\n",
        "# Hash: 00ff00ff00ff00ff0\n",
        "# Hash:\n",
        "# Size: 4\n",
        "# Size: -4\n",
        "# Type: json\n",
        "# Type: binary\n",
        "# Type: text\n",
        "# Type: what\n",
        "# Key: a: b\n",
        "#no space\n",
        "# no colon\n",
        " # Size: 9\n",
        "#  Size: 9\n",
        "# Size : 9\n",
        "\n",
        "\r\n",
        "---\n",
        "--- \r\n",
        "  ---\n",
        "----\n",
        "---",
        "# Created: 7",
        "content\n",
        "\u{e9}\u{2028}\n",
        "\u{0}\u{1}\n",
    ];
    let store = SnapshotStore::new("d".to_string());
    for round in 0..2000 {
        let mut file: Vec<u8> = Vec::new();
        for _ in 0..dice.roll(8) {
            file.extend_from_slice(dice.pick(&pieces).as_bytes());
        }
        if round % 7 == 0 {
            file.push(0xff);
            file.extend_from_slice(dice.pick(&pieces).as_bytes());
        }
        if round % 11 == 0 {
            file.extend_from_slice(&vec![b'x'; 1020 + dice.roll(8)]);
            file.extend_from_slice(b"\n---\nrest");
        }
        let ours = store.read("lookup", Some(&file));
        let theirs = read_by_lines("lookup", &file);
        match (ours, theirs) {
            (Ok(a), Ok(b)) => {
                assert_eq!(a.metadata, b.metadata, "{:?}", String::from_utf8_lossy(&file));
                assert_eq!(a.content, b.content);
            }
            (Err(a), Err(b)) => assert_eq!(a, b, "{:?}", String::from_utf8_lossy(&file)),
            (a, b) => panic!("{:?} against {:?} for {:?}", a, b, String::from_utf8_lossy(&file)),
        }
    }
    // Files with many lines.
    for lines in [98usize, 99, 100, 101, 150] {
        let mut file = "# Extra: 1\n".repeat(lines).into_bytes();
        file.extend_from_slice(b"---\ncontent");
        let ours = store.read("lookup", Some(&file));
        let theirs = read_by_lines("lookup", &file);
        assert_eq!(ours.is_ok(), lines <= 100);
        assert_eq!(ours.is_ok(), theirs.is_ok());
        assert_eq!(ours.err(), theirs.err());
    }
}

#[test]
fn scripts_rebuild_both_texts() {
    let mut dice = Dice(0x853c49e6748fea9b);
    let words = ["a", "b", "c", "a", "b", "dd"];
    for _ in 0..400 {
        let old: Vec<&str> = (0..dice.roll(10)).map(|_| dice.pick(&words)).collect();
        let new: Vec<&str> = (0..dice.roll(10)).map(|_| dice.pick(&words)).collect();
        let result = diff_text(&old.join("\n"), &new.join("\n"), &DiffConfig::default());
        let mut old_side: Vec<(usize, String)> = Vec::new();
        let mut new_side: Vec<(usize, String)> = Vec::new();
        for change in &result.changes {
            match change {
                LineChange::Unchanged { line, old_line_num, new_line_num } => {
                    old_side.push((*old_line_num, line.clone()));
                    new_side.push((*new_line_num, line.clone()));
                }
                LineChange::Removed { line, old_line_num } => {
                    old_side.push((*old_line_num, line.clone()))
                }
                LineChange::Added { line, new_line_num } => {
                    new_side.push((*new_line_num, line.clone()))
                }
            }
        }
        let numbered = |lines: &[&str]| -> Vec<(usize, String)> {
            lines.iter().enumerate().map(|(i, l)| (i + 1, l.to_string())).collect()
        };
        assert_eq!(old_side, numbered(&old), "{:?} -> {:?}", old, new);
        assert_eq!(new_side, numbered(&new), "{:?} -> {:?}", old, new);
        let common = longest(&old, &new, &mut HashMap::new());
        assert_eq!(result.deletions(), old.len() - common);
        assert_eq!(result.additions(), new.len() - common);
    }
}

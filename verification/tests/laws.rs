use snapshot_comparison::{
    build_changes_from_lcs, compare_json_values, compute_lcs, detect_content_type,
    detect_file_type, detect_with_hint, diff_binary, diff_json, diff_text, pair_file_types,
    parse_json, ByteDifference, DiffConfig, FileType, JsonChange, JsonValue, LineChange,
    OutputFormat,
};

fn context(n: usize) -> DiffConfig {
    DiffConfig { context_lines: n, ..DiffConfig::default() }
}

const TEXTS: [&str; 9] = [
    "",
    "a",
    "a\n",
    "a\nb\nc",
    "a\nb\na\nb\n",
    "x\ny\nz\nx\ny\nz",
    "one\r\ntwo\r\n",
    "same\nsame\nsame",
    "caf\u{e9}\n\u{65e5}\u{672c}\n",
];

#[test]
fn diff_of_a_text_with_itself_has_no_change() {
    for text in TEXTS {
        for ctx in [0, 1, 3, usize::MAX] {
            let result = diff_text(text, text, &context(ctx));
            assert!(!result.has_changes());
            assert_eq!(result.additions(), 0);
            assert_eq!(result.deletions(), 0);
            assert!(result.changes.iter().all(|c| matches!(c, LineChange::Unchanged { .. })));
            assert_eq!(result.old_line_count, text.lines().count());
            assert_eq!(result.new_line_count, text.lines().count());
            if ctx == usize::MAX {
                assert_eq!(result.changes.len(), text.lines().count());
            } else {
                assert!(result.changes.is_empty());
            }
        }
    }
}

#[test]
fn diff_forth_and_back_mirror_their_counts() {
    for a in TEXTS {
        for b in TEXTS {
            for (forth, back) in [(usize::MAX, usize::MAX), (0, 2), (3, usize::MAX)] {
                let ab = diff_text(a, b, &context(forth));
                let ba = diff_text(b, a, &context(back));
                assert_eq!(ab.additions(), ba.deletions(), "{:?} -> {:?}", a, b);
                assert_eq!(ab.deletions(), ba.additions(), "{:?} -> {:?}", a, b);
            }
        }
    }
}

#[test]
fn script_numbers_every_line_once_and_in_order() {
    for a in TEXTS {
        for b in TEXTS {
            let result = diff_text(a, b, &DiffConfig::default());
            let mut old_numbers = Vec::new();
            let mut new_numbers = Vec::new();
            for change in &result.changes {
                match change {
                    LineChange::Unchanged { old_line_num, new_line_num, .. } => {
                        old_numbers.push(*old_line_num);
                        new_numbers.push(*new_line_num);
                    }
                    LineChange::Removed { old_line_num, .. } => old_numbers.push(*old_line_num),
                    LineChange::Added { new_line_num, .. } => new_numbers.push(*new_line_num),
                }
            }
            assert_eq!(old_numbers, (1..=result.old_line_count).collect::<Vec<_>>());
            assert_eq!(new_numbers, (1..=result.new_line_count).collect::<Vec<_>>());
            let lcs = compute_lcs(&a.lines().collect::<Vec<_>>(), &b.lines().collect::<Vec<_>>());
            let unchanged = result.changes.len() - result.additions() - result.deletions();
            assert_eq!(unchanged, lcs.len());
        }
    }
}

#[test]
fn lines_end_at_line_feeds() {
    let cfg = DiffConfig::default();
    assert_eq!(diff_text("", "", &cfg).old_line_count, 0);
    assert_eq!(diff_text("\n", "", &cfg).old_line_count, 1);
    assert_eq!(diff_text("a\n\nb", "", &cfg).old_line_count, 3);
    assert_eq!(diff_text("a\r\nb\r\n", "", &cfg).old_line_count, 2);
    // The carriage return before a line feed goes with it; one at the very
    // end stays.
    assert!(!diff_text("a\r\nb", "a\nb", &cfg).has_changes());
    let result = diff_text("a\r", "a", &cfg);
    assert_eq!(
        result.changes,
        vec![
            LineChange::Removed { line: "a\r".to_string(), old_line_num: 1 },
            LineChange::Added { line: "a".to_string(), new_line_num: 1 },
        ]
    );
}

#[test]
fn edit_script_is_exact() {
    let result = diff_text("a\nb\nc\nd", "a\nx\nc\ne\nd", &DiffConfig::default());
    assert_eq!(
        result.changes,
        vec![
            LineChange::Unchanged { line: "a".to_string(), old_line_num: 1, new_line_num: 1 },
            LineChange::Removed { line: "b".to_string(), old_line_num: 2 },
            LineChange::Added { line: "x".to_string(), new_line_num: 2 },
            LineChange::Unchanged { line: "c".to_string(), old_line_num: 3, new_line_num: 3 },
            LineChange::Added { line: "e".to_string(), new_line_num: 4 },
            LineChange::Unchanged { line: "d".to_string(), old_line_num: 4, new_line_num: 5 },
        ]
    );
    assert_eq!((result.old_line_count, result.new_line_count), (4, 5));
}

#[test]
fn ties_step_back_on_the_new_side() {
    // Both "a" and "b" are longest common subsequences; the walk back moves
    // along the new lines on a tie and so finds "b".
    assert_eq!(compute_lcs(&["a", "b"], &["b", "a"]), vec![0]);
    assert_eq!(compute_lcs(&["b", "a"], &["a", "b"]), vec![0]);
    assert_eq!(compute_lcs(&["a", "b", "a"], &["b", "a", "b"]), vec![0, 1]);
    assert_eq!(compute_lcs(&["x", "a", "y", "b"], &["a", "b", "x"]), vec![0, 1]);
}

#[test]
fn context_keeps_the_neighbours_of_changes() {
    let old = "1\n2\n3\n4\n5\n6\n7\n8\n9";
    let new = "1\n2\n3\n4\nFIVE\n6\n7\n8\n9";
    let kept = |ctx: usize| -> Vec<String> {
        diff_text(old, new, &context(ctx))
            .changes
            .iter()
            .map(|c| match c {
                LineChange::Unchanged { line, .. } => format!(" {}", line),
                LineChange::Added { line, .. } => format!("+{}", line),
                LineChange::Removed { line, .. } => format!("-{}", line),
            })
            .collect()
    };
    assert_eq!(kept(0), vec!["-5", "+FIVE"]);
    assert_eq!(kept(1), vec![" 4", "-5", "+FIVE", " 6"]);
    assert_eq!(kept(2), vec![" 3", " 4", "-5", "+FIVE", " 6", " 7"]);
    assert_eq!(kept(usize::MAX - 1).len(), 10);
    assert_eq!(kept(usize::MAX).len(), 10);

    // Two changes whose windows meet keep what lies between them.
    let new = "ONE\n2\n3\n4\nFIVE\n6\n7\n8\n9";
    assert_eq!(kept_of(old, new, 1), vec!["-1", "+ONE", " 2", " 4", "-5", "+FIVE", " 6"]);
    assert_eq!(
        kept_of(old, new, 2),
        vec!["-1", "+ONE", " 2", " 3", " 4", "-5", "+FIVE", " 6", " 7"]
    );
}

fn kept_of(old: &str, new: &str, ctx: usize) -> Vec<String> {
    diff_text(old, new, &context(ctx))
        .changes
        .iter()
        .map(|c| match c {
            LineChange::Unchanged { line, .. } => format!(" {}", line),
            LineChange::Added { line, .. } => format!("+{}", line),
            LineChange::Removed { line, .. } => format!("-{}", line),
        })
        .collect()
}

#[test]
fn a_common_line_keeps_both_its_numbers() {
    let result = diff_text("a\nb", "b", &context(usize::MAX));
    assert_eq!(
        result.changes,
        vec![
            LineChange::Removed { line: "a".to_string(), old_line_num: 1 },
            LineChange::Unchanged { line: "b".to_string(), old_line_num: 2, new_line_num: 1 },
        ]
    );
    assert_eq!(result.old_line_count, 2);
    assert_eq!(result.new_line_count, 1);
    assert_eq!(result.additions(), 0);
    assert_eq!(result.deletions(), 1);

    let result = diff_text("b", "a\nb", &context(usize::MAX));
    assert_eq!(
        result.changes,
        vec![
            LineChange::Added { line: "a".to_string(), new_line_num: 1 },
            LineChange::Unchanged { line: "b".to_string(), old_line_num: 1, new_line_num: 2 },
        ]
    );
}

#[test]
fn every_entry_names_its_line() {
    let cases = [
        ("a\nb", "b"),
        ("a\nb\nc\nd", "d\nc\nb\na"),
        ("x\ny\nx\ny", "y\nx\ny\nx\nz"),
        ("one\ntwo\nthree", "zero\none\nthree\nfour"),
        ("a\na\na", "a"),
        ("", "a\nb"),
    ];
    for (old, new) in cases {
        let old_lines: Vec<&str> = old.lines().collect();
        let new_lines: Vec<&str> = new.lines().collect();
        for ctx in [0, 1, usize::MAX] {
            let result = diff_text(old, new, &context(ctx));
            for change in &result.changes {
                match change {
                    LineChange::Unchanged { line, old_line_num, new_line_num } => {
                        assert_eq!(old_lines[old_line_num - 1], line);
                        assert_eq!(new_lines[new_line_num - 1], line);
                    }
                    LineChange::Removed { line, old_line_num } => {
                        assert_eq!(old_lines[old_line_num - 1], line)
                    }
                    LineChange::Added { line, new_line_num } => {
                        assert_eq!(new_lines[new_line_num - 1], line)
                    }
                }
            }
        }
    }
}

#[test]
fn changes_from_a_given_subsequence() {
    let changes = build_changes_from_lcs(&["a", "b"], &["c", "b"], &[1], usize::MAX);
    assert_eq!(
        changes,
        vec![
            LineChange::Removed { line: "a".to_string(), old_line_num: 1 },
            LineChange::Added { line: "c".to_string(), new_line_num: 1 },
            LineChange::Unchanged { line: "b".to_string(), old_line_num: 2, new_line_num: 2 },
        ]
    );
    // A common line is paired with the old line that equals it; the old
    // lines before that one are removed.
    let changes = build_changes_from_lcs(&["a", "b"], &["b", "c"], &[0], usize::MAX);
    assert_eq!(
        changes,
        vec![
            LineChange::Removed { line: "a".to_string(), old_line_num: 1 },
            LineChange::Unchanged { line: "b".to_string(), old_line_num: 2, new_line_num: 1 },
            LineChange::Added { line: "c".to_string(), new_line_num: 2 },
        ]
    );
    // Of two equal old lines the first is the partner.
    let changes = build_changes_from_lcs(&["a", "a"], &["x", "a"], &[1], usize::MAX);
    assert_eq!(
        changes,
        vec![
            LineChange::Added { line: "x".to_string(), new_line_num: 1 },
            LineChange::Unchanged { line: "a".to_string(), old_line_num: 1, new_line_num: 2 },
            LineChange::Removed { line: "a".to_string(), old_line_num: 2 },
        ]
    );
    assert_eq!(build_changes_from_lcs(&["a"], &["a"], &[0], 0), vec![]);
    assert_eq!(build_changes_from_lcs(&[], &[], &[], 3), vec![]);
}

#[test]
fn default_diff_config() {
    let cfg = DiffConfig::default();
    assert_eq!(cfg.context_lines, usize::MAX);
    assert_eq!(cfg.format, OutputFormat::Unified);
    assert!(!cfg.color);
    assert!(!cfg.verbose);
}

#[test]
fn binary_diff_lists_every_disagreement() {
    let cfg = DiffConfig::default();
    let result = diff_binary(b"abcd", b"aXcdef", &cfg);
    assert_eq!(
        result.differences,
        vec![
            ByteDifference { offset: 1, old_byte: Some(b'b'), new_byte: Some(b'X') },
            ByteDifference { offset: 4, old_byte: None, new_byte: Some(b'e') },
            ByteDifference { offset: 5, old_byte: None, new_byte: Some(b'f') },
        ]
    );
    assert_eq!((result.old_size, result.new_size), (4, 6));

    let samples: [&[u8]; 6] = [b"", b"a", b"ab", b"ba", b"abc\x00", b"\xff\xfe\xfd"];
    for old in samples {
        for new in samples {
            let r = diff_binary(old, new, &cfg);
            assert_eq!(r.additions() + r.deletions() + r.modifications(), r.differences.len());
            assert_eq!(r.old_size, old.len());
            assert_eq!(r.new_size, new.len());
            assert_eq!(r.is_identical(), old == new);
            assert_eq!(r.additions(), new.len().saturating_sub(old.len()));
            assert_eq!(r.deletions(), old.len().saturating_sub(new.len()));
            assert!(r.differences.windows(2).all(|w| w[0].offset < w[1].offset));
            for d in &r.differences {
                assert_eq!(d.old_byte, old.get(d.offset).copied());
                assert_eq!(d.new_byte, new.get(d.offset).copied());
                assert_ne!(d.old_byte, d.new_byte);
            }
            // A single inserted byte shifts what follows: no resynchronisation.
        }
    }
    assert_eq!(diff_binary(b"abc", b"xabc", &cfg).differences.len(), 4);
}

#[test]
fn structural_diff_addresses_by_path() {
    let cfg = DiffConfig::default();
    let result = diff_json(r#"{"user":{"name":"Alice"}}"#, r#"{"user":{"name":"Bob"}}"#, &cfg).unwrap();
    assert_eq!(
        result.changes,
        vec![JsonChange::Modified {
            path: "user.name".to_string(),
            old_value: JsonValue::String("Alice".to_string()),
            new_value: JsonValue::String("Bob".to_string()),
        }]
    );

    let result = diff_json(
        r#"{"items":[1,{"a":true},3],"gone":null}"#,
        r#"{"items":[1,{"a":false},3,4],"new":[]}"#,
        &cfg,
    )
    .unwrap();
    assert_eq!(
        result.changes,
        vec![
            JsonChange::Modified {
                path: "items[1].a".to_string(),
                old_value: JsonValue::Bool(true),
                new_value: JsonValue::Bool(false),
            },
            JsonChange::Added { path: "items[3]".to_string(), value: JsonValue::Number("4".to_string()) },
            JsonChange::Removed { path: "gone".to_string(), value: JsonValue::Null },
            JsonChange::Added { path: "new".to_string(), value: JsonValue::Array(vec![]) },
        ]
    );
    assert_eq!((result.additions(), result.deletions(), result.modifications()), (2, 1, 1));

    let result = diff_json("[[1],[2]]", "[[1],{}]", &cfg).unwrap();
    assert_eq!(
        result.changes,
        vec![JsonChange::TypeChanged {
            path: "[1]".to_string(),
            old_value: JsonValue::Array(vec![JsonValue::Number("2".to_string())]),
            new_value: JsonValue::Object(vec![]),
        }]
    );
    assert_eq!(result.modifications(), 1);
}

#[test]
fn duplicate_keys_resolve_to_their_first_entry() {
    let cfg = DiffConfig::default();
    assert!(!diff_json(r#"{"a":1,"a":2}"#, r#"{"a":1,"a":3}"#, &cfg).unwrap().has_changes());
    let result = diff_json(r#"{"a":1,"a":2}"#, r#"{"a":2,"a":1}"#, &cfg).unwrap();
    assert_eq!(result.changes.len(), 1);
    let result = diff_json(r#"{"b":1}"#, r#"{"a":0,"a":1}"#, &cfg).unwrap();
    assert_eq!(
        result.changes,
        vec![
            JsonChange::Removed { path: "b".to_string(), value: JsonValue::Number("1".to_string()) },
            JsonChange::Added { path: "a".to_string(), value: JsonValue::Number("0".to_string()) },
        ]
    );
}

#[test]
fn comparison_appends_to_what_is_there() {
    let mut changes = vec![JsonChange::Added { path: "kept".to_string(), value: JsonValue::Null }];
    compare_json_values("root", &JsonValue::Bool(true), &JsonValue::Bool(false), &mut changes);
    compare_json_values(
        "root",
        &JsonValue::Array(vec![JsonValue::Null]),
        &JsonValue::Array(vec![]),
        &mut changes,
    );
    compare_json_values(
        "",
        &JsonValue::Object(vec![("k".to_string(), JsonValue::Null)]),
        &JsonValue::Object(vec![("k".to_string(), JsonValue::Bool(true))]),
        &mut changes,
    );
    let paths: Vec<String> = changes
        .iter()
        .map(|c| match c {
            JsonChange::Added { path, .. } => format!("+{}", path),
            JsonChange::Removed { path, .. } => format!("-{}", path),
            JsonChange::Modified { path, .. } => format!("~{}", path),
            JsonChange::TypeChanged { path, .. } => format!("!{}", path),
        })
        .collect();
    assert_eq!(paths, vec!["+kept", "~root", "-root[0]", "!k"]);
}

#[test]
fn numbers_are_kept_as_written() {
    for text in ["0", "-0", "42", "-2.5", "1.", ".5e3", "1e5", "1E+5", "12.5e-3", "-1e0"] {
        // A number that starts with a dot is no value start; the others are.
        if text.starts_with('.') {
            assert!(parse_json(text).is_err());
        } else {
            assert_eq!(parse_json(text).unwrap(), JsonValue::Number(text.to_string()));
        }
    }
    for text in ["-", "--1", "1e", "1e+", "1.2.3", "1-2", "+1", "1e5e5", "-.", "1ee"] {
        let err = parse_json(text);
        if text.starts_with('+') {
            assert_eq!(err.unwrap_err().message, "Unexpected character");
        } else {
            assert_eq!(err.unwrap_err().message, format!("Invalid number: {}", text));
        }
    }
    // The run of number characters ends the number.
    assert_eq!(
        parse_json("[1,2]").unwrap(),
        JsonValue::Array(vec![JsonValue::Number("1".to_string()), JsonValue::Number("2".to_string())])
    );
}

#[test]
fn parse_errors_name_what_is_wrong() {
    let cases = [
        ("", "Unexpected character"),
        ("   ", "Unexpected character"),
        ("?", "Unexpected character"),
        ("\"abc", "Unterminated string"),
        ("\"a\\", "Invalid escape sequence"),
        ("\"a\\x\"", "Invalid escape sequence"),
        ("{\"a\" 1}", "Expected ':'"),
        ("{\"a\"", "Expected ':'"),
        ("{a:1}", "Expected '\"'"),
        ("{\"a\":1,}", "Expected '\"'"),
        ("{\"a\":1", "Expected ',' or '}'"),
        ("{\"a\":1 \"b\":2}", "Expected ',' or '}'"),
        ("[1", "Expected ',' or ']'"),
        ("[1 2]", "Expected ',' or ']'"),
        ("[1,]", "Unexpected character"),
        ("[", "Unexpected character"),
        ("tru", "Invalid boolean: tru"),
        ("truely", "Invalid boolean: truely"),
        ("falsE", "Invalid boolean: fals"),
        ("nul", "Invalid null: nul"),
        ("nil", "Invalid null: nil"),
    ];
    for (text, message) in cases {
        match parse_json(text) {
            Err(e) => assert_eq!(e.message, message, "for {:?}", text),
            Ok(v) => panic!("{:?} parsed as {:?}", text, v),
        }
    }
    let cfg = DiffConfig::default();
    assert_eq!(diff_json("[", "?", &cfg).unwrap_err().message, "Unexpected character");
    assert_eq!(diff_json("1", "nul", &cfg).unwrap_err().message, "Invalid null: nul");
}

#[test]
fn parser_accepts_the_grammar() {
    assert_eq!(
        parse_json(" \t\r\n{ \"a\" : [ true , false , null ] , \"b\\n\\t\\\\\\\"\" : \"\\r\" } trailing").unwrap(),
        JsonValue::Object(vec![
            (
                "a".to_string(),
                JsonValue::Array(vec![JsonValue::Bool(true), JsonValue::Bool(false), JsonValue::Null])
            ),
            ("b\n\t\\\"".to_string(), JsonValue::String("\r".to_string())),
        ])
    );
    assert_eq!(parse_json("\u{a0}null\u{2003}").unwrap(), JsonValue::Null);
    assert_eq!(parse_json("true false").unwrap(), JsonValue::Bool(true));
    let nested = parse_json("[[[[[[[[[[1]]]]]]]]]]").unwrap();
    assert_eq!(nested.clone(), nested);
}

#[test]
fn classifier_scenarios() {
    assert_eq!(detect_file_type(b"{}", Some("json")), FileType::Json);
    assert_eq!(detect_file_type(b"\x00\x01\x02", None), FileType::Binary);
    assert_eq!(detect_file_type(b"hello world", None), FileType::Text);
    // A recognised extension wins over the content, an unknown one does not.
    assert_eq!(detect_file_type(b"\x00\x01\x02", Some("TXT")), FileType::Text);
    assert_eq!(detect_file_type(b"\x00\x01\x02", Some("Json")), FileType::Json);
    assert_eq!(detect_file_type(b"\x00\x01\x02", Some("bin")), FileType::Binary);
    assert_eq!(detect_file_type(b"fn main() {}", Some("xyz")), FileType::Text);
    for ext in ["txt", "md", "log", "rs", "ts", "js", "py", "c", "h", "cpp", "hpp"] {
        assert_eq!(detect_file_type(b"", Some(ext)), FileType::Text);
        assert_eq!(detect_with_hint(b"", Some(ext)), FileType::Text);
    }
    // The hint is taken as it is: it is lower case already.
    assert_eq!(detect_with_hint(b"", Some("JSON")), FileType::Binary);
    assert_eq!(detect_with_hint(b"{}", Some("json")), FileType::Json);
    assert_eq!(detect_with_hint(b"text", None), FileType::Text);
    // Not UTF-8.
    assert_eq!(detect_content_type(b"abc\xff"), FileType::Binary);
    // Line feed, carriage return and tab count as printable.
    assert_eq!(detect_content_type(b"\n\r\t"), FileType::Text);
    // 19 of 20 are 95 of 100, 18 of 19 are fewer.
    let mut twenty = vec![b'a'; 19];
    twenty.push(1);
    assert_eq!(detect_content_type(&twenty), FileType::Text);
    let mut nineteen = vec![b'a'; 18];
    nineteen.push(1);
    assert_eq!(detect_content_type(&nineteen), FileType::Binary);
    // Characters count, not bytes; U+0085 is a control character.
    assert_eq!(detect_content_type("\u{e9}\u{e9}\u{e9}\u{85}".as_bytes()), FileType::Binary);
    assert_eq!(detect_content_type("\u{7f}".as_bytes()), FileType::Binary);
    assert_eq!(detect_content_type("\u{a0}".as_bytes()), FileType::Text);
}

#[test]
fn pairing_prefers_json_over_text_over_binary() {
    let (binary, json, text) = (FileType::Binary, FileType::Json, FileType::Text);
    for (a, b, expected) in [
        (json, json, json),
        (json, text, json),
        (text, json, json),
        (json, binary, json),
        (binary, json, json),
        (text, text, text),
        (text, binary, text),
        (binary, text, text),
        (binary, binary, binary),
    ] {
        assert_eq!(pair_file_types(a, b), expected);
    }
}

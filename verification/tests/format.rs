use snapshot_comparison::{
    format_result, OutputFormat, diff_binary, diff_json, diff_text, escape_json_string, format_as_json_report,
    format_binary_diff, format_binary_diff_with_color, format_compact, format_json_diff,
    format_json_diff_with_color, format_json_value, format_side_by_side, format_unified_diff,
    format_unified_diff_with_color, json_type_name, parse_json, truncate_to_width,
    BinaryDiffResult, ByteDifference, DiffConfig, DiffResult, FileType, JsonChange,
    JsonDiffResult, JsonValue,
};

fn sample_text() -> DiffResult {
    DiffResult::Text(diff_text("keep\nold", "keep\nnew", &DiffConfig::default()))
}

fn sample_binary() -> DiffResult {
    DiffResult::Binary(diff_binary(b"ab", b"aXc", &DiffConfig::default()))
}

fn sample_json() -> DiffResult {
    DiffResult::Json(
        diff_json(r#"{"a":1,"b":"x","c":[1],"d":null}"#, r#"{"a":2,"b":5,"c":[1,2]}"#, &DiffConfig::default())
            .unwrap(),
    )
}

#[test]
fn unified_listing_is_exact() {
    let result = diff_text("keep\nold", "keep\nnew", &DiffConfig::default());
    assert_eq!(
        format_unified_diff(&result, "a.txt", "b.txt"),
        "--- a.txt\n+++ b.txt\n  keep\n- old\n+ new\n"
    );
    assert_eq!(
        format_unified_diff_with_color(&result, "a.txt", "b.txt", true),
        "--- a.txt\n+++ b.txt\n  keep\n\x1b[31m- old\x1b[0m\n\x1b[32m+ new\x1b[0m\n"
    );
    let none = diff_text("", "", &DiffConfig::default());
    assert_eq!(format_unified_diff(&none, "", ""), "--- \n+++ \n");
}

#[test]
fn binary_table_is_exact() {
    let result = diff_binary(b"ab", b"aXc", &DiffConfig::default());
    assert_eq!(
        format_binary_diff(&result),
        "Binary files differ: 2 bytes old, 3 bytes new\n\n2 differences:\n\n\
         Offset     | Old  | New\n-----------|------|------\n\
         0x00000001 | 62   | 58\n0x00000002 | --     | 63\n"
    );
    assert_eq!(
        format_binary_diff_with_color(&result, true),
        "Binary files differ: 2 bytes old, 3 bytes new\n\n2 differences:\n\n\
         \x1b[36mOffset     | Old  | New\x1b[0m\n-----------|------|------\n\
         \x1b[36m0x00000001\x1b[0m | \x1b[31m62\x1b[0m   | \x1b[32m58  \x1b[0m\n\
         \x1b[36m0x00000002\x1b[0m | \x1b[31m--  \x1b[0m | \x1b[32m63  \x1b[0m\n"
    );
    let same = diff_binary(b"ab", b"ab", &DiffConfig::default());
    assert_eq!(
        format_binary_diff(&same),
        "Binary files differ: 2 bytes old, 2 bytes new\nFiles are identical\n"
    );
    let far = BinaryDiffResult {
        differences: vec![ByteDifference { offset: 0x1_2345_6789, old_byte: Some(0), new_byte: None }],
        old_size: 0,
        new_size: 0,
    };
    assert!(format_binary_diff(&far).ends_with("0x123456789 | 00   | --  \n"));
}

#[test]
fn values_in_short() {
    let short = |text: &str| format_json_value(&parse_json(text).unwrap());
    assert_eq!(short("null"), "null");
    assert_eq!(short("true"), "true");
    assert_eq!(short("false"), "false");
    assert_eq!(short("-12.50"), "-12.50");
    assert_eq!(short(r#""a\"b""#), "\"a\"b\"");
    assert_eq!(short("[]"), "[]");
    assert_eq!(short("[1]"), "[1]");
    assert_eq!(short("[1, [2, 3], \"x\"]"), "[1, [2, 3], \"x\"]");
    assert_eq!(short("[1,2,3,4]"), "[...4 items...]");
    assert_eq!(short("{}"), "{}");
    assert_eq!(short(r#"{"a":1,"b":{"c":[]}}"#), "{\"a\": 1, \"b\": {\"c\": []}}");
    assert_eq!(short(r#"{"a":1,"b":2,"c":3,"d":4}"#), "{...4 fields...}");
    for (text, name) in [
        ("null", "null"),
        ("true", "boolean"),
        ("1", "number"),
        ("\"s\"", "string"),
        ("[]", "array"),
        ("{}", "object"),
    ] {
        assert_eq!(json_type_name(&parse_json(text).unwrap()), name);
    }
}

#[test]
fn change_list_is_exact() {
    let DiffResult::Json(result) = sample_json() else { panic!() };
    assert_eq!(
        format_json_diff(&result),
        "JSON diff: 4 changes\n\n\
         ~ Modified at 'a':\n  Old: 1\n  New: 2\n\
         ! Type changed at 'b':\n  Old: \"x\" (string)\n  New: 5 (number)\n\
         + Added at 'c[1]': 2\n\
         - Removed at 'd': null\n"
    );
    assert_eq!(
        format_json_diff_with_color(&result, true),
        "JSON diff: 4 changes\n\n\
         \x1b[33m~ Modified at '\x1b[36ma\x1b[0m':\n  \x1b[31mOld: 1\x1b[0m\n  \x1b[32mNew: 2\x1b[0m\n\
         \x1b[33m! Type changed at '\x1b[36mb\x1b[0m':\n  \x1b[31mOld: \"x\" (string)\x1b[0m\n  \x1b[32mNew: 5 (number)\x1b[0m\n\
         \x1b[32m+ Added at '\x1b[36mc[1]\x1b[32m': 2\x1b[0m\n\
         \x1b[31m- Removed at '\x1b[36md\x1b[31m': null\x1b[0m\n"
    );
    let one = JsonDiffResult {
        changes: vec![JsonChange::Added { path: "".to_string(), value: JsonValue::Null }],
    };
    assert_eq!(format_json_diff(&one), "JSON diff: 1 change\n\n+ Added at '': null\n");
    assert_eq!(format_json_diff(&JsonDiffResult { changes: vec![] }), "No differences found\n");
}

#[test]
fn escaping_for_json_strings() {
    assert_eq!(escape_json_string("plain"), "plain");
    assert_eq!(escape_json_string("a\"b\\c\nd\re\tf"), "a\\\"b\\\\c\\nd\\re\\tf");
    assert_eq!(escape_json_string("\u{0}\u{1f}\u{7f}\u{9f}"), "\\u0000\\u001f\\u007f\\u009f");
    assert_eq!(escape_json_string("\u{a0}\u{e9}\u{1f389}"), "\u{a0}\u{e9}\u{1f389}");
    assert_eq!(escape_json_string(""), "");
}

#[test]
fn structured_report_is_exact() {
    assert_eq!(
        format_as_json_report(&sample_text(), "a\"1", "b", FileType::Text),
        "{\n  \"format\": \"json\",\n  \"file1\": \"a\\\"1\",\n  \"file2\": \"b\",\n  \
         \"identical\": false,\n  \"file_type\": \"text\",\n  \"differences\": [\n    \
         {\n      \"type\": \"removed\",\n      \"line\": 2,\n      \"content\": \"old\"\n    },\n    \
         {\n      \"type\": \"added\",\n      \"line\": 2,\n      \"content\": \"new\"\n    }\n  ],\n  \
         \"summary\": {\n    \"total_changes\": 2,\n    \"additions\": 1,\n    \"deletions\": 1,\n    \
         \"modifications\": 0\n  }\n}\n"
    );
    assert_eq!(
        format_as_json_report(&sample_binary(), "a", "b", FileType::Binary),
        "{\n  \"format\": \"json\",\n  \"file1\": \"a\",\n  \"file2\": \"b\",\n  \
         \"identical\": false,\n  \"file_type\": \"binary\",\n  \"differences\": [\n    \
         {\n      \"offset\": 1,\n      \"old_byte\": 98,\n      \"new_byte\": 88\n    },\n    \
         {\n      \"offset\": 2,\n      \"old_byte\": null,\n      \"new_byte\": 99\n    }\n  ],\n  \
         \"summary\": {\n    \"total_changes\": 2,\n    \"additions\": 1,\n    \"deletions\": 0,\n    \
         \"modifications\": 1\n  }\n}\n"
    );
    assert_eq!(
        format_as_json_report(&sample_json(), "a", "b", FileType::Json),
        "{\n  \"format\": \"json\",\n  \"file1\": \"a\",\n  \"file2\": \"b\",\n  \
         \"identical\": false,\n  \"file_type\": \"json\",\n  \"differences\": [\n    \
         {\n      \"type\": \"modified\",\n      \"path\": \"a\",\n      \"old_value\": \"1\",\n      \"new_value\": \"2\"\n    },\n    \
         {\n      \"type\": \"type_changed\",\n      \"path\": \"b\",\n      \"old_value\": \"\\\"x\\\"\",\n      \"old_type\": \"string\",\n      \"new_value\": \"5\",\n      \"new_type\": \"number\"\n    },\n    \
         {\n      \"type\": \"added\",\n      \"path\": \"c[1]\",\n      \"value\": \"2\"\n    },\n    \
         {\n      \"type\": \"removed\",\n      \"path\": \"d\",\n      \"value\": \"null\"\n    }\n  ],\n  \
         \"summary\": {\n    \"total_changes\": 4,\n    \"additions\": 1,\n    \"deletions\": 1,\n    \
         \"modifications\": 2\n  }\n}\n"
    );
    let same = DiffResult::Text(diff_text("x", "x", &DiffConfig::default()));
    assert_eq!(
        format_as_json_report(&same, "a", "b", FileType::Text),
        "{\n  \"format\": \"json\",\n  \"file1\": \"a\",\n  \"file2\": \"b\",\n  \
         \"identical\": true,\n  \"file_type\": \"text\",\n  \"differences\": [\n\n  ],\n  \
         \"summary\": {\n    \"total_changes\": 0,\n    \"additions\": 0,\n    \"deletions\": 0,\n    \
         \"modifications\": 0\n  }\n}\n"
    );
}

#[test]
fn compact_listing_is_exact() {
    assert_eq!(
        format_compact(&sample_text()),
        "- Line 2: old\n+ Line 2: new\n\n2 changes (1 addition, 1 deletion)\n"
    );
    assert_eq!(
        format_compact(&sample_binary()),
        "0x00000001: 62 \u{2192} 58\n0x00000002: -- \u{2192} 63\n\n2 bytes differ\n"
    );
    assert_eq!(
        format_compact(&sample_json()),
        "~ a: 1 \u{2192} 2\n! b: \"x\" (string) \u{2192} 5 (number)\n+ c[1]: 2\n- d: null\n\n\
         4 changes (1 addition, 1 deletion, 2 modifications)\n"
    );
    let one = DiffResult::Text(diff_text("a", "a\nb", &DiffConfig::default()));
    assert_eq!(format_compact(&one), "+ Line 2: b\n\n1 change (1 addition, 0 deletions)\n");
    let one = DiffResult::Binary(diff_binary(b"a", b"b", &DiffConfig::default()));
    assert_eq!(format_compact(&one), "0x00000000: 61 \u{2192} 62\n\n1 byte differ\n");
    for same in [
        DiffResult::Text(diff_text("a", "a", &DiffConfig::default())),
        DiffResult::Binary(diff_binary(b"a", b"a", &DiffConfig::default())),
        DiffResult::Json(diff_json("1", "1", &DiffConfig::default()).unwrap()),
    ] {
        assert_eq!(format_compact(&same), "No differences\n");
        assert!(same.is_identical());
        assert_eq!(same.total_changes(), 0);
    }
}

#[test]
fn two_columns_are_exact() {
    let result = DiffResult::Text(diff_text(
        "keep\nold line that is long\nx",
        "keep\nnew\nx",
        &DiffConfig::default(),
    ));
    // Width 23 leaves ten characters for each column.
    assert_eq!(
        format_side_by_side(&result, "a", "b", 23),
        "a          | b\n\
         -----------+-----------\n\
         keep       | keep\n\
         old lin... < \n\
         \x20          > new\n\
         x          | x\n"
    );
    assert_eq!(
        format_side_by_side(&sample_binary(), "old", "new", 9),
        "old | new\n----+----\nSide-by-side view not supported for binary files\n"
    );
    assert_eq!(
        format_side_by_side(&sample_json(), "old", "new", 3),
        "old | new\n-+-\nSide-by-side view not supported for JSON diffs\n\
         Use --format compact or --format json instead\n"
    );
    // A width below three leaves no room for the columns.
    assert_eq!(
        format_side_by_side(&sample_binary(), "o", "n", 0),
        "o | n\n-+-\nSide-by-side view not supported for binary files\n"
    );
}

#[test]
fn truncation_counts_bytes_and_cuts_at_characters() {
    assert_eq!(truncate_to_width("hello", 5), "hello");
    assert_eq!(truncate_to_width("hello!", 5), "he...");
    assert_eq!(truncate_to_width("hello", 2), "...");
    assert_eq!(truncate_to_width("", 0), "");
    assert_eq!(truncate_to_width("a", 0), "...");
    // Each of these letters takes two bytes.
    assert_eq!(truncate_to_width("\u{e9}\u{e9}\u{e9}", 6), "\u{e9}\u{e9}\u{e9}");
    assert_eq!(truncate_to_width("\u{e9}\u{e9}\u{e9}", 5), "\u{e9}...");
    assert_eq!(truncate_to_width("a\u{e9}\u{e9}\u{e9}", 6), "a\u{e9}...");
    assert_eq!(truncate_to_width("a\u{e9}\u{e9}\u{e9}", 5), "a...");
}

#[test]
fn counts_of_any_result() {
    let text = sample_text();
    assert_eq!((text.additions(), text.deletions(), text.modifications(), text.total_changes()), (1, 1, 0, 2));
    let binary = sample_binary();
    assert_eq!(
        (binary.additions(), binary.deletions(), binary.modifications(), binary.total_changes()),
        (1, 0, 1, 2)
    );
    let json = sample_json();
    assert_eq!((json.additions(), json.deletions(), json.modifications(), json.total_changes()), (1, 1, 2, 4));
    assert!(!text.is_identical() && !binary.is_identical() && !json.is_identical());
}

#[test]
fn rendering_by_configuration() {
    let names = ("a", "b");
    for result in [sample_text(), sample_binary(), sample_json()] {
        let with = |format: OutputFormat, color: bool| {
            let config = DiffConfig { format, color, ..DiffConfig::default() };
            format_result(&result, names.0, names.1, FileType::Text, &config)
        };
        assert_eq!(with(OutputFormat::Compact, true), format_compact(&result));
        assert_eq!(
            with(OutputFormat::Json, true),
            format_as_json_report(&result, "a", "b", FileType::Text)
        );
        assert_eq!(
            with(OutputFormat::SideBySide, false),
            format_side_by_side(&result, "a", "b", 120)
        );
        match &result {
            DiffResult::Text(r) => {
                assert_eq!(
                    with(OutputFormat::Unified, true),
                    format_unified_diff_with_color(r, "a", "b", true)
                );
                assert_eq!(with(OutputFormat::Unified, false), format_unified_diff(r, "a", "b"));
            }
            DiffResult::Binary(r) => {
                assert_eq!(with(OutputFormat::Unified, true), format_binary_diff(r))
            }
            DiffResult::Json(r) => assert_eq!(with(OutputFormat::Unified, true), format_json_diff(r)),
        }
    }
}

#[test]
fn two_columns_pad_as_format_pads() {
    let lines = ["", "a", "short", "exactly ten", "a line that is rather long for a column", "caf\u{e9}"];
    for width in [0usize, 3, 4, 9, 23, 40, 120] {
        let half = width.saturating_sub(3) / 2;
        for old_name in ["old.txt", "\u{e9}t\u{e9}", ""] {
            for line in lines {
                let cut = |s: &str| -> String {
                    if s.len() <= half {
                        s.to_string()
                    } else {
                        let mut end = half.saturating_sub(3);
                        while !s.is_char_boundary(end) {
                            end -= 1;
                        }
                        format!("{}...", &s[..end])
                    }
                };
                assert_eq!(truncate_to_width(line, half), cut(line));
                let old = format!("{}\nsame", line);
                let new = format!("same\n{}!", line);
                let result = DiffResult::Text(diff_text(&old, &new, &DiffConfig::default()));
                let mut expected = format!("{:<width$} | {}\n", old_name, "new", width = half);
                expected.push_str(&format!("{:-<width$}-+-{:-<width$}\n", "", "", width = half));
                let DiffResult::Text(script) = &result else { panic!() };
                for change in &script.changes {
                    match change {
                        snapshot_comparison::LineChange::Unchanged { line, .. } => expected
                            .push_str(&format!("{:<width$} | {}\n", cut(line), cut(line), width = half)),
                        snapshot_comparison::LineChange::Added { line, .. } => expected
                            .push_str(&format!("{:<width$} > {}\n", "", cut(line), width = half)),
                        snapshot_comparison::LineChange::Removed { line, .. } => expected
                            .push_str(&format!("{:<width$} < {}\n", cut(line), "", width = half)),
                    }
                }
                assert_eq!(format_side_by_side(&result, old_name, "new", width), expected);
            }
        }
    }
}

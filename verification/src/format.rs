//! Renderings of diff results: unified listings, hex tables, change lists,
//! structured reports, compact summaries and two-column views.
//!
//! Each rendering is stated as the text it is, character for character. The
//! short ones are stated as such; for the long ones a spec function takes the
//! text so far as its first argument `out` and gives `out` with the piece
//! appended, which is how the exec code builds them.

use vstd::prelude::*;
use crate::binary_diff::{
    count_additions, count_deletions, count_modifications, BinaryDiffResult, ByteDifference,
};
use crate::filetype::{is_control_code, FileType};
use crate::json::{
    entry_models, lemma_view_of_containers, models, EntryModel, JsonModel, JsonValue,
};
use crate::json_diff::{
    change_models, count_added as count_added_values, count_modified,
    count_removed as count_removed_values, ChangeModel, JsonChange, JsonDiffResult,
};
use crate::text::{
    decimal, from_chars, hex, push_all, push_decimal, push_hex, push_str, to_chars,
};
use crate::text_diff::{
    any_change, count_added, count_removed, edits, DiffConfig, LineChange, LineEdit,
    OutputFormat, TextDiffResult,
};

verus! {

/// Escape sequence that switches to red.
pub const RED: &'static str = "\x1b[31m";

/// Escape sequence that switches to green.
pub const GREEN: &'static str = "\x1b[32m";

/// Escape sequence that switches to yellow.
pub const YELLOW: &'static str = "\x1b[33m";

/// Escape sequence that switches to cyan.
pub const CYAN: &'static str = "\x1b[36m";

/// Escape sequence that ends a colour.
pub const RESET: &'static str = "\x1b[0m";

// ---------------------------------------------------------------------------
// Unified text diff
// ---------------------------------------------------------------------------

/// One line of a unified listing: two spaces before an unchanged line, `+ `
/// before an added and `- ` before a removed one, in green and red when
/// coloured.
pub open spec fn unified_line(e: LineEdit, color: bool) -> Seq<char> {
    match e {
        LineEdit::Unchanged { line, .. } => "  "@ + line + "\n"@,
        LineEdit::Added { line, .. } => if color {
            GREEN@ + "+ "@ + line + RESET@ + "\n"@
        } else {
            "+ "@ + line + "\n"@
        },
        LineEdit::Removed { line, .. } => if color {
            RED@ + "- "@ + line + RESET@ + "\n"@
        } else {
            "- "@ + line + "\n"@
        },
    }
}

/// The lines of a unified listing, one for each entry.
pub open spec fn unified_lines(s: Seq<LineEdit>, color: bool) -> Seq<char>
    decreases s.len(),
{
    if s.len() == 0 {
        Seq::empty()
    } else {
        unified_lines(s.drop_last(), color) + unified_line(s.last(), color)
    }
}

/// A unified listing: the two names after `--- ` and `+++ `, then the lines.
pub open spec fn unified_text(
    s: Seq<LineEdit>,
    old_name: Seq<char>,
    new_name: Seq<char>,
    color: bool,
) -> Seq<char> {
    "--- "@ + old_name + "\n"@ + "+++ "@ + new_name + "\n"@ + unified_lines(s, color)
}

fn push_unified_line(out: &mut Vec<char>, c: &LineChange, color: bool)
    ensures
        final(out)@ == old(out)@ + unified_line(c@, color),
{
    let ghost before = out@;
    match c {
        LineChange::Unchanged { line, .. } => {
            push_str(out, "  ");
            push_str(out, line.as_str());
            push_str(out, "\n");
            assert(out@ == before + ("  "@ + line@ + "\n"@));
        },
        LineChange::Added { line, .. } => {
            if color {
                push_str(out, GREEN);
                push_str(out, "+ ");
                push_str(out, line.as_str());
                push_str(out, RESET);
                push_str(out, "\n");
                assert(out@ == before + (GREEN@ + "+ "@ + line@ + RESET@ + "\n"@));
            } else {
                push_str(out, "+ ");
                push_str(out, line.as_str());
                push_str(out, "\n");
                assert(out@ == before + ("+ "@ + line@ + "\n"@));
            }
        },
        LineChange::Removed { line, .. } => {
            if color {
                push_str(out, RED);
                push_str(out, "- ");
                push_str(out, line.as_str());
                push_str(out, RESET);
                push_str(out, "\n");
                assert(out@ == before + (RED@ + "- "@ + line@ + RESET@ + "\n"@));
            } else {
                push_str(out, "- ");
                push_str(out, line.as_str());
                push_str(out, "\n");
                assert(out@ == before + ("- "@ + line@ + "\n"@));
            }
        },
    }
}

/// Renders a text diff as a unified listing, coloured on request.
pub fn format_unified_diff_with_color(
    result: &TextDiffResult,
    file1_name: &str,
    file2_name: &str,
    color: bool,
) -> (r: String)
    ensures
        r@ == unified_text(result.script(), file1_name@, file2_name@, color),
{
    let mut out: Vec<char> = Vec::new();
    push_str(&mut out, "--- ");
    push_str(&mut out, file1_name);
    push_str(&mut out, "\n");
    push_str(&mut out, "+++ ");
    push_str(&mut out, file2_name);
    push_str(&mut out, "\n");
    let ghost head = out@;
    assert(head == "--- "@ + file1_name@ + "\n"@ + "+++ "@ + file2_name@ + "\n"@);
    let ghost script = result.script();
    let mut i: usize = 0;
    assert(script.take(0) == Seq::<LineEdit>::empty());
    assert(head + unified_lines(script.take(0), color) == head);
    while i < result.changes.len()
        invariant
            i <= result.changes.len(),
            script == result.script(),
            out@ == head + unified_lines(script.take(i as int), color),
        decreases result.changes.len() - i,
    {
        assert(script.take(i + 1).drop_last() == script.take(i as int));
        assert(script.take(i + 1).last() == result.changes@[i as int]@);
        let ghost so_far = unified_lines(script.take(i as int), color);
        push_unified_line(&mut out, &result.changes[i], color);
        assert(head + so_far + unified_line(script[i as int], color) == head + (so_far
            + unified_line(script[i as int], color)));
        i += 1;
    }
    assert(script.take(i as int) == script);
    from_chars(&out)
}

/// Renders a text diff as a unified listing without colour.
pub fn format_unified_diff(result: &TextDiffResult, file1_name: &str, file2_name: &str) -> (r:
    String)
    ensures
        r@ == unified_text(result.script(), file1_name@, file2_name@, false),
{
    format_unified_diff_with_color(result, file1_name, file2_name, false)
}

// ---------------------------------------------------------------------------
// Binary diff
// ---------------------------------------------------------------------------

/// A byte as two hexadecimal digits, an absent byte as two dashes and two
/// spaces.
pub open spec fn byte_hex(b: Option<u8>) -> Seq<char> {
    match b {
        Some(v) => hex(v as nat, 2),
        None => "--  "@,
    }
}

/// The cell of the old byte in a coloured row.
pub open spec fn old_cell(b: Option<u8>) -> Seq<char> {
    match b {
        Some(v) => RED@ + hex(v as nat, 2) + RESET@ + "  "@,
        None => RED@ + "--  "@ + RESET@,
    }
}

/// The cell of the new byte in a coloured row.
pub open spec fn new_cell(b: Option<u8>) -> Seq<char> {
    match b {
        Some(v) => GREEN@ + hex(v as nat, 2) + "  "@ + RESET@,
        None => GREEN@ + "--  "@ + RESET@,
    }
}

/// One row of the table of differences: the offset in at least eight
/// hexadecimal digits, the old byte and the new byte.
pub open spec fn binary_row(d: ByteDifference, color: bool) -> Seq<char> {
    if color {
        CYAN@ + "0x"@ + hex(d.offset as nat, 8) + RESET@ + " | "@ + old_cell(d.old_byte) + " | "@
            + new_cell(d.new_byte) + "\n"@
    } else {
        "0x"@ + hex(d.offset as nat, 8) + " | "@ + byte_hex(d.old_byte) + "   | "@ + byte_hex(
            d.new_byte,
        ) + "\n"@
    }
}

/// The rows of the table, one for each difference.
pub open spec fn binary_rows(s: Seq<ByteDifference>, color: bool) -> Seq<char>
    decreases s.len(),
{
    if s.len() == 0 {
        Seq::empty()
    } else {
        binary_rows(s.drop_last(), color) + binary_row(s.last(), color)
    }
}

/// The heading of the table.
pub open spec fn binary_heading(color: bool) -> Seq<char> {
    (if color {
        CYAN@ + "Offset     | Old  | New"@ + RESET@ + "\n"@
    } else {
        "Offset     | Old  | New\n"@
    }) + "-----------|------|------\n"@
}

/// The rendering of a binary diff: the two sizes, then either the remark that
/// the inputs are identical or the number of differences and their table.
pub open spec fn binary_text(
    s: Seq<ByteDifference>,
    old_size: nat,
    new_size: nat,
    color: bool,
) -> Seq<char> {
    "Binary files differ: "@ + decimal(old_size) + " bytes old, "@ + decimal(new_size)
        + " bytes new\n"@ + if s.len() == 0 {
        "Files are identical\n"@
    } else {
        "\n"@ + decimal(s.len()) + " differences:\n\n"@ + binary_heading(color) + binary_rows(
            s,
            color,
        )
    }
}

fn push_byte_hex(out: &mut Vec<char>, b: Option<u8>)
    ensures
        final(out)@ == old(out)@ + byte_hex(b),
{
    match b {
        Some(v) => {
            push_hex(out, v as u64, 2);
        },
        None => {
            push_str(out, "--  ");
        },
    }
}

fn push_old_cell(out: &mut Vec<char>, b: Option<u8>)
    ensures
        final(out)@ == old(out)@ + old_cell(b),
{
    let ghost before = out@;
    match b {
        Some(v) => {
            push_str(out, RED);
            push_hex(out, v as u64, 2);
            push_str(out, RESET);
            push_str(out, "  ");
            assert(out@ == before + (RED@ + hex(v as nat, 2) + RESET@ + "  "@));
        },
        None => {
            push_str(out, RED);
            push_str(out, "--  ");
            push_str(out, RESET);
            assert(out@ == before + (RED@ + "--  "@ + RESET@));
        },
    }
}

fn push_new_cell(out: &mut Vec<char>, b: Option<u8>)
    ensures
        final(out)@ == old(out)@ + new_cell(b),
{
    let ghost before = out@;
    match b {
        Some(v) => {
            push_str(out, GREEN);
            push_hex(out, v as u64, 2);
            push_str(out, "  ");
            push_str(out, RESET);
            assert(out@ == before + (GREEN@ + hex(v as nat, 2) + "  "@ + RESET@));
        },
        None => {
            push_str(out, GREEN);
            push_str(out, "--  ");
            push_str(out, RESET);
            assert(out@ == before + (GREEN@ + "--  "@ + RESET@));
        },
    }
}

fn push_binary_row(out: &mut Vec<char>, d: &ByteDifference, color: bool)
    ensures
        final(out)@ == old(out)@ + binary_row(*d, color),
{
    let ghost before = out@;
    if color {
        push_str(out, CYAN);
        push_str(out, "0x");
        push_hex(out, d.offset as u64, 8);
        push_str(out, RESET);
        push_str(out, " | ");
        push_old_cell(out, d.old_byte);
        push_str(out, " | ");
        push_new_cell(out, d.new_byte);
        push_str(out, "\n");
        assert(out@ == before + (CYAN@ + "0x"@ + hex(d.offset as nat, 8) + RESET@ + " | "@
            + old_cell(d.old_byte) + " | "@ + new_cell(d.new_byte) + "\n"@));
    } else {
        push_str(out, "0x");
        push_hex(out, d.offset as u64, 8);
        push_str(out, " | ");
        push_byte_hex(out, d.old_byte);
        push_str(out, "   | ");
        push_byte_hex(out, d.new_byte);
        push_str(out, "\n");
        assert(out@ == before + ("0x"@ + hex(d.offset as nat, 8) + " | "@ + byte_hex(d.old_byte)
            + "   | "@ + byte_hex(d.new_byte) + "\n"@));
    }
}

fn push_binary_rows(out: &mut Vec<char>, differences: &Vec<ByteDifference>, color: bool)
    ensures
        final(out)@ == old(out)@ + binary_rows(differences@, color),
{
    let ghost head = out@;
    let ghost s = differences@;
    let mut i: usize = 0;
    assert(s.take(0) == Seq::<ByteDifference>::empty());
    assert(head + binary_rows(s.take(0), color) == head);
    while i < differences.len()
        invariant
            i <= differences.len(),
            s == differences@,
            out@ == head + binary_rows(s.take(i as int), color),
        decreases differences.len() - i,
    {
        assert(s.take(i + 1).drop_last() == s.take(i as int));
        let ghost so_far = binary_rows(s.take(i as int), color);
        push_binary_row(out, &differences[i], color);
        assert(head + so_far + binary_row(s[i as int], color) == head + (so_far + binary_row(
            s[i as int],
            color,
        )));
        i += 1;
    }
    assert(s.take(i as int) == s);
}

/// Renders a binary diff as a table of offsets and bytes, coloured on
/// request.
pub fn format_binary_diff_with_color(result: &BinaryDiffResult, color: bool) -> (r: String)
    ensures
        r@ == binary_text(
            result.differences@,
            result.old_size as nat,
            result.new_size as nat,
            color,
        ),
{
    let mut out: Vec<char> = Vec::new();
    push_str(&mut out, "Binary files differ: ");
    push_decimal(&mut out, result.old_size as u128);
    push_str(&mut out, " bytes old, ");
    push_decimal(&mut out, result.new_size as u128);
    push_str(&mut out, " bytes new\n");
    let ghost head = out@;
    assert(head == "Binary files differ: "@ + decimal(result.old_size as nat) + " bytes old, "@
        + decimal(result.new_size as nat) + " bytes new\n"@);
    if result.differences.len() == 0 {
        push_str(&mut out, "Files are identical\n");
        return from_chars(&out);
    }
    push_str(&mut out, "\n");
    push_decimal(&mut out, result.differences.len() as u128);
    push_str(&mut out, " differences:\n\n");
    if color {
        push_str(&mut out, CYAN);
        push_str(&mut out, "Offset     | Old  | New");
        push_str(&mut out, RESET);
        push_str(&mut out, "\n");
    } else {
        push_str(&mut out, "Offset     | Old  | New\n");
    }
    push_str(&mut out, "-----------|------|------\n");
    assert(out@ == head + ("\n"@ + decimal(result.differences@.len()) + " differences:\n\n"@
        + binary_heading(color)));
    push_binary_rows(&mut out, &result.differences, color);
    assert(out@ == head + ("\n"@ + decimal(result.differences@.len()) + " differences:\n\n"@
        + binary_heading(color) + binary_rows(result.differences@, color)));
    from_chars(&out)
}

/// Renders a binary diff as a table of offsets and bytes.
pub fn format_binary_diff(result: &BinaryDiffResult) -> (r: String)
    ensures
        r@ == binary_text(
            result.differences@,
            result.old_size as nat,
            result.new_size as nat,
            false,
        ),
{
    format_binary_diff_with_color(result, false)
}

// ---------------------------------------------------------------------------
// Values in short
// ---------------------------------------------------------------------------

/// A value in short: scalars as written, strings in quotes, containers of up
/// to three members in full and larger ones as a count.
pub open spec fn value_text(v: JsonModel) -> Seq<char>
    decreases v, 0nat,
{
    match v {
        JsonModel::Null => "null"@,
        JsonModel::Bool(b) => if b {
            "true"@
        } else {
            "false"@
        },
        JsonModel::Number(n) => n,
        JsonModel::String(s) => "\""@ + s + "\""@,
        JsonModel::Array(items) => if items.len() == 0 {
            "[]"@
        } else if items.len() <= 3 {
            "["@ + items_text(items, items.len()) + "]"@
        } else {
            "[..."@ + decimal(items.len()) + " items...]"@
        },
        JsonModel::Object(entries) => if entries.len() == 0 {
            "{}"@
        } else if entries.len() <= 3 {
            "{"@ + entries_text(entries, entries.len()) + "}"@
        } else {
            "{..."@ + decimal(entries.len()) + " fields...}"@
        },
    }
}

/// The first `n` elements in short, separated by a comma and a space.
pub open spec fn items_text(items: Seq<JsonModel>, n: nat) -> Seq<char>
    decreases items, n,
{
    if n == 0 || n > items.len() {
        Seq::empty()
    } else {
        items_text(items, (n - 1) as nat) + (if n > 1 {
            ", "@
        } else {
            Seq::empty()
        }) + value_text(items[n - 1])
    }
}

/// The first `n` entries in short, each as its quoted key, a colon and its
/// value, separated by a comma and a space.
pub open spec fn entries_text(entries: Seq<EntryModel>, n: nat) -> Seq<char>
    decreases entries, n,
{
    if n == 0 || n > entries.len() {
        Seq::empty()
    } else {
        entries_text(entries, (n - 1) as nat) + (if n > 1 {
            ", "@
        } else {
            Seq::empty()
        }) + "\""@ + entries[n - 1].key + "\": "@ + value_text(entries[n - 1].value)
    }
}

/// The name of the kind of a value.
pub open spec fn kind_name(v: JsonModel) -> Seq<char> {
    match v {
        JsonModel::Null => "null"@,
        JsonModel::Bool(_) => "boolean"@,
        JsonModel::Number(_) => "number"@,
        JsonModel::String(_) => "string"@,
        JsonModel::Array(_) => "array"@,
        JsonModel::Object(_) => "object"@,
    }
}

fn push_value_text(out: &mut Vec<char>, v: &JsonValue)
    ensures
        final(out)@ == old(out)@ + value_text(v@),
    decreases v,
{
    let ghost before = out@;
    match v {
        JsonValue::Null => {
            push_str(out, "null");
        },
        JsonValue::Bool(b) => {
            if *b {
                push_str(out, "true");
            } else {
                push_str(out, "false");
            }
        },
        JsonValue::Number(n) => {
            push_str(out, n.as_str());
        },
        JsonValue::String(s) => {
            push_str(out, "\"");
            push_str(out, s.as_str());
            push_str(out, "\"");
            assert(out@ == before + ("\""@ + s@ + "\""@));
        },
        JsonValue::Array(items) => {
            proof {
                lemma_view_of_containers(*v);
            }
            let ghost ms = models(items@);
            if items.len() == 0 {
                push_str(out, "[]");
            } else if items.len() <= 3 {
                push_str(out, "[");
                let ghost head = out@;
                let mut i: usize = 0;
                assert(head + items_text(ms, 0) == head);
                while i < items.len()
                    invariant
                        i <= items.len(),
                        *v == JsonValue::Array(*items),
                        ms == models(items@),
                        out@ == head + items_text(ms, i as nat),
                    decreases items.len() - i,
                {
                    let ghost so_far = items_text(ms, i as nat);
                    if i > 0 {
                        push_str(out, ", ");
                    }
                    assert(decreases_to!(*v => v->Array_0));
                    assert(decreases_to!(items => items[i as int]));
                    push_value_text(out, &items[i]);
                    assert(out@ == head + (so_far + (if i + 1 > 1 {
                        ", "@
                    } else {
                        Seq::empty()
                    }) + value_text(ms[i as int])));
                    i += 1;
                }
                push_str(out, "]");
                assert(out@ == before + ("["@ + items_text(ms, ms.len()) + "]"@));
            } else {
                push_str(out, "[...");
                push_decimal(out, items.len() as u128);
                push_str(out, " items...]");
                assert(out@ == before + ("[..."@ + decimal(ms.len()) + " items...]"@));
            }
        },
        JsonValue::Object(entries) => {
            proof {
                lemma_view_of_containers(*v);
            }
            let ghost ms = entry_models(entries@);
            if entries.len() == 0 {
                push_str(out, "{}");
            } else if entries.len() <= 3 {
                push_str(out, "{");
                let ghost head = out@;
                let mut i: usize = 0;
                assert(head + entries_text(ms, 0) == head);
                while i < entries.len()
                    invariant
                        i <= entries.len(),
                        *v == JsonValue::Object(*entries),
                        ms == entry_models(entries@),
                        out@ == head + entries_text(ms, i as nat),
                    decreases entries.len() - i,
                {
                    let ghost so_far = entries_text(ms, i as nat);
                    if i > 0 {
                        push_str(out, ", ");
                    }
                    push_str(out, "\"");
                    push_str(out, entries[i].0.as_str());
                    push_str(out, "\": ");
                    assert(decreases_to!(*v => v->Object_0));
                    assert(decreases_to!(entries => entries[i as int]));
                    assert(decreases_to!(entries[i as int] => entries[i as int].1));
                    push_value_text(out, &entries[i].1);
                    assert(out@ == head + (so_far + (if i + 1 > 1 {
                        ", "@
                    } else {
                        Seq::empty()
                    }) + "\""@ + ms[i as int].key + "\": "@ + value_text(ms[i as int].value)));
                    i += 1;
                }
                push_str(out, "}");
                assert(out@ == before + ("{"@ + entries_text(ms, ms.len()) + "}"@));
            } else {
                push_str(out, "{...");
                push_decimal(out, entries.len() as u128);
                push_str(out, " fields...}");
                assert(out@ == before + ("{..."@ + decimal(ms.len()) + " fields...}"@));
            }
        },
    }
}

/// Renders a value in short.
pub fn format_json_value(value: &JsonValue) -> (r: String)
    ensures
        r@ == value_text(value@),
{
    let mut out: Vec<char> = Vec::new();
    push_value_text(&mut out, value);
    assert(out@ == value_text(value@));
    from_chars(&out)
}

/// The name of the kind of a value.
pub fn json_type_name(value: &JsonValue) -> (r: &'static str)
    ensures
        r@ == kind_name(value@),
{
    match value {
        JsonValue::Null => "null",
        JsonValue::Bool(_) => "boolean",
        JsonValue::Number(_) => "number",
        JsonValue::String(_) => "string",
        JsonValue::Array(_) => "array",
        JsonValue::Object(_) => "object",
    }
}

// ---------------------------------------------------------------------------
// Structural diff
// ---------------------------------------------------------------------------

/// `out` followed by the entry of an addition.
pub open spec fn added_line(out: Seq<char>, path: Seq<char>, value: JsonModel, color: bool) -> Seq<
    char,
> {
    if color {
        out + GREEN@ + "+ Added at '"@ + CYAN@ + path + GREEN@ + "': "@ + value_text(value)
            + RESET@ + "\n"@
    } else {
        out + "+ Added at '"@ + path + "': "@ + value_text(value) + "\n"@
    }
}

/// `out` followed by the entry of a removal.
pub open spec fn removed_line(
    out: Seq<char>,
    path: Seq<char>,
    value: JsonModel,
    color: bool,
) -> Seq<char> {
    if color {
        out + RED@ + "- Removed at '"@ + CYAN@ + path + RED@ + "': "@ + value_text(value) + RESET@
            + "\n"@
    } else {
        out + "- Removed at '"@ + path + "': "@ + value_text(value) + "\n"@
    }
}

/// `out` followed by the entry of a modification.
pub open spec fn modified_line(
    out: Seq<char>,
    path: Seq<char>,
    old_value: JsonModel,
    new_value: JsonModel,
    color: bool,
) -> Seq<char> {
    if color {
        out + YELLOW@ + "~ Modified at '"@ + CYAN@ + path + RESET@ + "':\n  "@ + RED@ + "Old: "@
            + value_text(old_value) + RESET@ + "\n  "@ + GREEN@ + "New: "@ + value_text(new_value)
            + RESET@ + "\n"@
    } else {
        out + "~ Modified at '"@ + path + "':\n  Old: "@ + value_text(old_value) + "\n  New: "@
            + value_text(new_value) + "\n"@
    }
}

/// `out` followed by the entry of a change of type.
pub open spec fn type_changed_line(
    out: Seq<char>,
    path: Seq<char>,
    old_value: JsonModel,
    new_value: JsonModel,
    color: bool,
) -> Seq<char> {
    if color {
        out + YELLOW@ + "! Type changed at '"@ + CYAN@ + path + RESET@ + "':\n  "@ + RED@
            + "Old: "@ + value_text(old_value) + " ("@ + kind_name(old_value) + ")"@ + RESET@
            + "\n  "@ + GREEN@ + "New: "@ + value_text(new_value) + " ("@ + kind_name(new_value)
            + ")"@ + RESET@ + "\n"@
    } else {
        out + "! Type changed at '"@ + path + "':\n  Old: "@ + value_text(old_value) + " ("@
            + kind_name(old_value) + ")\n  New: "@ + value_text(new_value) + " ("@ + kind_name(
            new_value,
        ) + ")\n"@
    }
}

/// `out` followed by the entry of one change in the listing of a structural
/// diff.
pub open spec fn change_line(out: Seq<char>, c: ChangeModel, color: bool) -> Seq<char> {
    match c {
        ChangeModel::Added { path, value } => added_line(out, path, value, color),
        ChangeModel::Removed { path, value } => removed_line(out, path, value, color),
        ChangeModel::Modified { path, old_value, new_value } => modified_line(
            out,
            path,
            old_value,
            new_value,
            color,
        ),
        ChangeModel::TypeChanged { path, old_value, new_value } => type_changed_line(
            out,
            path,
            old_value,
            new_value,
            color,
        ),
    }
}

/// `out` followed by the entries of the listing, one for each change.
pub open spec fn change_lines(out: Seq<char>, s: Seq<ChangeModel>, color: bool) -> Seq<char>
    decreases s.len(),
{
    if s.len() == 0 {
        out
    } else {
        change_line(change_lines(out, s.drop_last(), color), s.last(), color)
    }
}

/// `s` for every count but one.
pub open spec fn plural(n: nat) -> Seq<char> {
    if n == 1 {
        Seq::empty()
    } else {
        "s"@
    }
}

/// The listing of a structural diff: a remark when there is no difference,
/// else the number of changes and one entry for each.
pub open spec fn json_diff_text(s: Seq<ChangeModel>, color: bool) -> Seq<char> {
    if s.len() == 0 {
        "No differences found\n"@
    } else {
        change_lines(
            "JSON diff: "@ + decimal(s.len()) + " change"@ + plural(s.len()) + "\n\n"@,
            s,
            color,
        )
    }
}

fn push_plural(out: &mut Vec<char>, n: u128)
    ensures
        final(out)@ == old(out)@ + plural(n as nat),
{
    if n != 1 {
        push_str(out, "s");
    } else {
        assert(out@ + Seq::<char>::empty() == out@);
    }
}

fn push_added_line(out: &mut Vec<char>, path: &String, value: &JsonValue, color: bool)
    ensures
        final(out)@ == added_line(old(out)@, path@, value@, color),
{
    if color {
        push_str(out, GREEN);
        push_str(out, "+ Added at '");
        push_str(out, CYAN);
        push_str(out, path.as_str());
        push_str(out, GREEN);
        push_str(out, "': ");
        push_value_text(out, value);
        push_str(out, RESET);
        push_str(out, "\n");
    } else {
        push_str(out, "+ Added at '");
        push_str(out, path.as_str());
        push_str(out, "': ");
        push_value_text(out, value);
        push_str(out, "\n");
    }
}

fn push_removed_line(out: &mut Vec<char>, path: &String, value: &JsonValue, color: bool)
    ensures
        final(out)@ == removed_line(old(out)@, path@, value@, color),
{
    if color {
        push_str(out, RED);
        push_str(out, "- Removed at '");
        push_str(out, CYAN);
        push_str(out, path.as_str());
        push_str(out, RED);
        push_str(out, "': ");
        push_value_text(out, value);
        push_str(out, RESET);
        push_str(out, "\n");
    } else {
        push_str(out, "- Removed at '");
        push_str(out, path.as_str());
        push_str(out, "': ");
        push_value_text(out, value);
        push_str(out, "\n");
    }
}

fn push_modified_line(
    out: &mut Vec<char>,
    path: &String,
    old_value: &JsonValue,
    new_value: &JsonValue,
    color: bool,
)
    ensures
        final(out)@ == modified_line(old(out)@, path@, old_value@, new_value@, color),
{
    if color {
        push_str(out, YELLOW);
        push_str(out, "~ Modified at '");
        push_str(out, CYAN);
        push_str(out, path.as_str());
        push_str(out, RESET);
        push_str(out, "':\n  ");
        push_str(out, RED);
        push_str(out, "Old: ");
        push_value_text(out, old_value);
        push_str(out, RESET);
        push_str(out, "\n  ");
        push_str(out, GREEN);
        push_str(out, "New: ");
        push_value_text(out, new_value);
        push_str(out, RESET);
        push_str(out, "\n");
    } else {
        push_str(out, "~ Modified at '");
        push_str(out, path.as_str());
        push_str(out, "':\n  Old: ");
        push_value_text(out, old_value);
        push_str(out, "\n  New: ");
        push_value_text(out, new_value);
        push_str(out, "\n");
    }
}

fn push_type_changed_line(
    out: &mut Vec<char>,
    path: &String,
    old_value: &JsonValue,
    new_value: &JsonValue,
    color: bool,
)
    ensures
        final(out)@ == type_changed_line(old(out)@, path@, old_value@, new_value@, color),
{
    if color {
        push_str(out, YELLOW);
        push_str(out, "! Type changed at '");
        push_str(out, CYAN);
        push_str(out, path.as_str());
        push_str(out, RESET);
        push_str(out, "':\n  ");
        push_str(out, RED);
        push_str(out, "Old: ");
        push_value_text(out, old_value);
        push_str(out, " (");
        push_str(out, json_type_name(old_value));
        push_str(out, ")");
        push_str(out, RESET);
        push_str(out, "\n  ");
        push_str(out, GREEN);
        push_str(out, "New: ");
        push_value_text(out, new_value);
        push_str(out, " (");
        push_str(out, json_type_name(new_value));
        push_str(out, ")");
        push_str(out, RESET);
        push_str(out, "\n");
    } else {
        push_str(out, "! Type changed at '");
        push_str(out, path.as_str());
        push_str(out, "':\n  Old: ");
        push_value_text(out, old_value);
        push_str(out, " (");
        push_str(out, json_type_name(old_value));
        push_str(out, ")\n  New: ");
        push_value_text(out, new_value);
        push_str(out, " (");
        push_str(out, json_type_name(new_value));
        push_str(out, ")\n");
    }
}

fn push_change_line(out: &mut Vec<char>, c: &JsonChange, color: bool)
    ensures
        final(out)@ == change_line(old(out)@, c@, color),
{
    match c {
        JsonChange::Added { path, value } => push_added_line(out, path, value, color),
        JsonChange::Removed { path, value } => push_removed_line(out, path, value, color),
        JsonChange::Modified { path, old_value, new_value } => push_modified_line(
            out,
            path,
            old_value,
            new_value,
            color,
        ),
        JsonChange::TypeChanged { path, old_value, new_value } => push_type_changed_line(
            out,
            path,
            old_value,
            new_value,
            color,
        ),
    }
}

/// Renders a structural diff as a list of changes, coloured on request.
pub fn format_json_diff_with_color(result: &JsonDiffResult, color: bool) -> (r: String)
    ensures
        r@ == json_diff_text(result.report(), color),
{
    let mut out: Vec<char> = Vec::new();
    let ghost s = result.report();
    if result.changes.len() == 0 {
        push_str(&mut out, "No differences found\n");
        assert(out@ == "No differences found\n"@);
        return from_chars(&out);
    }
    push_str(&mut out, "JSON diff: ");
    assert(out@ == "JSON diff: "@);
    push_decimal(&mut out, result.changes.len() as u128);
    push_str(&mut out, " change");
    push_plural(&mut out, result.changes.len() as u128);
    push_str(&mut out, "\n\n");
    let ghost head = out@;
    let mut i: usize = 0;
    assert(s.take(0) == Seq::<ChangeModel>::empty());
    while i < result.changes.len()
        invariant
            i <= result.changes.len(),
            s == result.report(),
            out@ == change_lines(head, s.take(i as int), color),
        decreases result.changes.len() - i,
    {
        assert(s.take(i + 1).drop_last() == s.take(i as int));
        push_change_line(&mut out, &result.changes[i], color);
        i += 1;
    }
    assert(s.take(i as int) == s);
    from_chars(&out)
}

/// Renders a structural diff as a list of changes.
pub fn format_json_diff(result: &JsonDiffResult) -> (r: String)
    ensures
        r@ == json_diff_text(result.report(), false),
{
    format_json_diff_with_color(result, false)
}

// ---------------------------------------------------------------------------
// Escaping
// ---------------------------------------------------------------------------

/// How one character is written inside a JSON string: the quote, the
/// backslash, the line feed, the carriage return and the tab with a
/// backslash, any other control character as `\u` and four hexadecimal
/// digits, everything else as it is.
pub open spec fn escaped_char(c: char) -> Seq<char> {
    if c == '"' {
        "\\\""@
    } else if c == '\\' {
        "\\\\"@
    } else if c == '\n' {
        "\\n"@
    } else if c == '\r' {
        "\\r"@
    } else if c == '\t' {
        "\\t"@
    } else if is_control_code(c) {
        "\\u"@ + hex((c as u32) as nat, 4)
    } else {
        seq![c]
    }
}

/// A text as it is written inside a JSON string.
pub open spec fn json_escaped(s: Seq<char>) -> Seq<char>
    decreases s.len(),
{
    if s.len() == 0 {
        Seq::empty()
    } else {
        json_escaped(s.drop_last()) + escaped_char(s.last())
    }
}

fn push_escaped(out: &mut Vec<char>, text: &Vec<char>)
    ensures
        final(out)@ == old(out)@ + json_escaped(text@),
{
    let ghost head = out@;
    let mut i: usize = 0;
    assert(text@.take(0) == Seq::<char>::empty());
    assert(head + json_escaped(text@.take(0)) == head);
    while i < text.len()
        invariant
            i <= text.len(),
            out@ == head + json_escaped(text@.take(i as int)),
        decreases text.len() - i,
    {
        assert(text@.take(i + 1).drop_last() == text@.take(i as int));
        let ghost so_far = json_escaped(text@.take(i as int));
        let ghost mid = out@;
        let c = text[i];
        if c == '"' {
            push_str(out, "\\\"");
        } else if c == '\\' {
            push_str(out, "\\\\");
        } else if c == '\n' {
            push_str(out, "\\n");
        } else if c == '\r' {
            push_str(out, "\\r");
        } else if c == '\t' {
            push_str(out, "\\t");
        } else if c.is_control() {
            push_str(out, "\\u");
            push_hex(out, (c as u32) as u64, 4);
            assert(out@ == mid + ("\\u"@ + hex((c as u32) as nat, 4)));
        } else {
            out.push(c);
            assert(out@ == mid + seq![c]);
        }
        assert(out@ == mid + escaped_char(c));
        assert(head + so_far + escaped_char(c) == head + (so_far + escaped_char(c)));
        i += 1;
    }
    assert(text@.take(i as int) == text@);
}

/// Escapes a text for use inside a JSON string.
pub fn escape_json_string(s: &str) -> (r: String)
    ensures
        r@ == json_escaped(s@),
{
    let mut out: Vec<char> = Vec::new();
    push_escaped(&mut out, &to_chars(s));
    assert(out@ == json_escaped(s@));
    from_chars(&out)
}

// ---------------------------------------------------------------------------
// Any diff result
// ---------------------------------------------------------------------------

/// A diff result of any of the three kinds.
#[derive(Debug)]
pub enum DiffResult {
    /// Lines.
    Text(TextDiffResult),
    /// Bytes.
    Binary(BinaryDiffResult),
    /// Values.
    Json(JsonDiffResult),
}

impl DiffResult {
    /// Whether the result records no difference.
    pub open spec fn identical(&self) -> bool {
        match self {
            DiffResult::Text(r) => !any_change(r.script()),
            DiffResult::Binary(r) => r.differences@.len() == 0,
            DiffResult::Json(r) => r.report().len() == 0,
        }
    }

    /// The number of additions recorded.
    pub open spec fn added(&self) -> nat {
        match self {
            DiffResult::Text(r) => count_added(r.script()),
            DiffResult::Binary(r) => count_additions(r.differences@),
            DiffResult::Json(r) => count_added_values(r.report()),
        }
    }

    /// The number of removals recorded.
    pub open spec fn removed(&self) -> nat {
        match self {
            DiffResult::Text(r) => count_removed(r.script()),
            DiffResult::Binary(r) => count_deletions(r.differences@),
            DiffResult::Json(r) => count_removed_values(r.report()),
        }
    }

    /// The number of modifications recorded; a text diff records none.
    pub open spec fn modified(&self) -> nat {
        match self {
            DiffResult::Text(_) => 0,
            DiffResult::Binary(r) => count_modifications(r.differences@),
            DiffResult::Json(r) => count_modified(r.report()),
        }
    }

    /// Additions, removals and modifications together.
    pub open spec fn total(&self) -> nat {
        self.added() + self.removed() + self.modified()
    }

    /// Whether the result records no difference.
    pub fn is_identical(&self) -> (r: bool)
        ensures
            r == self.identical(),
    {
        match self {
            DiffResult::Text(r) => !r.has_changes(),
            DiffResult::Binary(r) => r.is_identical(),
            DiffResult::Json(r) => !r.has_changes(),
        }
    }

    /// The number of additions.
    pub fn additions(&self) -> (r: usize)
        ensures
            r == self.added(),
    {
        match self {
            DiffResult::Text(r) => r.additions(),
            DiffResult::Binary(r) => r.additions(),
            DiffResult::Json(r) => r.additions(),
        }
    }

    /// The number of removals.
    pub fn deletions(&self) -> (r: usize)
        ensures
            r == self.removed(),
    {
        match self {
            DiffResult::Text(r) => r.deletions(),
            DiffResult::Binary(r) => r.deletions(),
            DiffResult::Json(r) => r.deletions(),
        }
    }

    /// The number of modifications.
    pub fn modifications(&self) -> (r: usize)
        ensures
            r == self.modified(),
    {
        match self {
            DiffResult::Text(_) => 0,
            DiffResult::Binary(r) => r.modifications(),
            DiffResult::Json(r) => r.modifications(),
        }
    }

    /// Additions, removals and modifications together.
    pub fn total_changes(&self) -> (r: usize)
        requires
            self.total() <= usize::MAX,
        ensures
            r == self.total(),
    {
        self.additions() + self.deletions() + self.modifications()
    }
}

// ---------------------------------------------------------------------------
// Structured report
// ---------------------------------------------------------------------------

/// Whether `s` holds an addition or a removal.
pub open spec fn has_edit(s: Seq<LineEdit>) -> bool
    decreases s.len(),
{
    s.len() > 0 && (has_edit(s.drop_last()) || !(s.last() is Unchanged))
}

/// `out` followed by `,` and a line break unless this is the first entry.
pub open spec fn separated(out: Seq<char>, first: bool) -> Seq<char> {
    if first {
        out
    } else {
        out + ",\n"@
    }
}

/// `out` followed by the entries of the added and removed lines, separated by
/// commas.
pub open spec fn report_lines(out: Seq<char>, s: Seq<LineEdit>) -> Seq<char>
    decreases s.len(),
{
    if s.len() == 0 {
        out
    } else {
        let rest = report_lines(out, s.drop_last());
        let first = !has_edit(s.drop_last());
        match s.last() {
            LineEdit::Unchanged { .. } => rest,
            LineEdit::Added { line, new_line_num } => separated(rest, first)
                + "    {\n      \"type\": \"added\",\n      \"line\": "@ + decimal(
                new_line_num as nat,
            ) + ",\n      \"content\": \""@ + json_escaped(line) + "\"\n    }"@,
            LineEdit::Removed { line, old_line_num } => separated(rest, first)
                + "    {\n      \"type\": \"removed\",\n      \"line\": "@ + decimal(
                old_line_num as nat,
            ) + ",\n      \"content\": \""@ + json_escaped(line) + "\"\n    }"@,
        }
    }
}

/// A byte as a number, an absent byte as `null`.
pub open spec fn byte_json(b: Option<u8>) -> Seq<char> {
    match b {
        Some(v) => decimal(v as nat),
        None => "null"@,
    }
}

/// `out` followed by the entries of the byte differences, separated by
/// commas.
pub open spec fn report_bytes(out: Seq<char>, s: Seq<ByteDifference>) -> Seq<char>
    decreases s.len(),
{
    if s.len() == 0 {
        out
    } else {
        separated(report_bytes(out, s.drop_last()), s.len() == 1) + "    {\n      \"offset\": "@
            + decimal(s.last().offset as nat) + ",\n      \"old_byte\": "@ + byte_json(
            s.last().old_byte,
        ) + ",\n      \"new_byte\": "@ + byte_json(s.last().new_byte) + "\n    }"@
    }
}

/// `out` followed by the entry of one change of a structural diff.
pub open spec fn report_change(out: Seq<char>, c: ChangeModel) -> Seq<char> {
    match c {
        ChangeModel::Added { path, value } => out
            + "    {\n      \"type\": \"added\",\n      \"path\": \""@ + json_escaped(path)
            + "\",\n      \"value\": \""@ + json_escaped(value_text(value)) + "\"\n    }"@,
        ChangeModel::Removed { path, value } => out
            + "    {\n      \"type\": \"removed\",\n      \"path\": \""@ + json_escaped(path)
            + "\",\n      \"value\": \""@ + json_escaped(value_text(value)) + "\"\n    }"@,
        ChangeModel::Modified { path, old_value, new_value } => out
            + "    {\n      \"type\": \"modified\",\n      \"path\": \""@ + json_escaped(path)
            + "\",\n      \"old_value\": \""@ + json_escaped(value_text(old_value))
            + "\",\n      \"new_value\": \""@ + json_escaped(value_text(new_value))
            + "\"\n    }"@,
        ChangeModel::TypeChanged { path, old_value, new_value } => out
            + "    {\n      \"type\": \"type_changed\",\n      \"path\": \""@ + json_escaped(path)
            + "\",\n      \"old_value\": \""@ + json_escaped(value_text(old_value))
            + "\",\n      \"old_type\": \""@ + kind_name(old_value)
            + "\",\n      \"new_value\": \""@ + json_escaped(value_text(new_value))
            + "\",\n      \"new_type\": \""@ + kind_name(new_value) + "\"\n    }"@,
    }
}

/// `out` followed by the entries of the changes, separated by commas.
pub open spec fn report_changes(out: Seq<char>, s: Seq<ChangeModel>) -> Seq<char>
    decreases s.len(),
{
    if s.len() == 0 {
        out
    } else {
        report_change(separated(report_changes(out, s.drop_last()), s.len() == 1), s.last())
    }
}

/// The name of a file type in a report.
pub open spec fn file_type_name(t: FileType) -> Seq<char> {
    match t {
        FileType::Text => "text"@,
        FileType::Json => "json"@,
        FileType::Binary => "binary"@,
    }
}

/// `true` or `false`.
pub open spec fn bool_text(b: bool) -> Seq<char> {
    if b {
        "true"@
    } else {
        "false"@
    }
}

/// The opening of a report, up to the list of differences.
pub open spec fn report_head(
    result: DiffResult,
    old_name: Seq<char>,
    new_name: Seq<char>,
    file_type: FileType,
) -> Seq<char> {
    "{\n"@ + "  \"format\": \"json\",\n"@ + "  \"file1\": \""@ + json_escaped(old_name) + "\",\n"@
        + "  \"file2\": \""@ + json_escaped(new_name) + "\",\n"@ + "  \"identical\": "@
        + bool_text(result.identical()) + ",\n"@ + "  \"file_type\": \""@ + file_type_name(
        file_type,
    ) + "\",\n"@ + "  \"differences\": [\n"@
}

/// `out` followed by the entries of the differences of a result.
pub open spec fn report_entries(out: Seq<char>, result: DiffResult) -> Seq<char> {
    match result {
        DiffResult::Text(r) => report_lines(out, r.script()),
        DiffResult::Binary(r) => report_bytes(out, r.differences@),
        DiffResult::Json(r) => report_changes(out, r.report()),
    }
}

/// `out` followed by the end of the list and the summary of the counts.
pub open spec fn report_tail(out: Seq<char>, result: DiffResult) -> Seq<char> {
    out + "\n  ],\n"@ + "  \"summary\": {\n"@ + "    \"total_changes\": "@ + decimal(
        result.total(),
    ) + ",\n"@ + "    \"additions\": "@ + decimal(result.added()) + ",\n"@
        + "    \"deletions\": "@ + decimal(result.removed()) + ",\n"@ + "    \"modifications\": "@
        + decimal(result.modified()) + "\n"@ + "  }\n"@ + "}\n"@
}

/// The structured report of a result: the two names, whether the inputs are
/// identical, the file type, one entry for each difference and the counts.
pub open spec fn report_text(
    result: DiffResult,
    old_name: Seq<char>,
    new_name: Seq<char>,
    file_type: FileType,
) -> Seq<char> {
    report_tail(
        report_entries(report_head(result, old_name, new_name, file_type), result),
        result,
    )
}

fn push_separator(out: &mut Vec<char>, first: bool)
    ensures
        final(out)@ == separated(old(out)@, first),
{
    if !first {
        push_str(out, ",\n");
    }
}

fn push_report_lines(out: &mut Vec<char>, changes: &Vec<LineChange>)
    ensures
        final(out)@ == report_lines(old(out)@, edits(changes@)),
{
    let ghost head = out@;
    let ghost s = edits(changes@);
    let mut first = true;
    let mut i: usize = 0;
    assert(s.take(0) == Seq::<LineEdit>::empty());
    while i < changes.len()
        invariant
            i <= changes.len(),
            s == edits(changes@),
            first == !has_edit(s.take(i as int)),
            out@ == report_lines(head, s.take(i as int)),
        decreases changes.len() - i,
    {
        assert(s.take(i + 1).drop_last() == s.take(i as int));
        assert(s.take(i + 1).last() == changes@[i as int]@);
        match &changes[i] {
            LineChange::Added { new_line_num, line } => {
                push_separator(out, first);
                push_str(out, "    {\n      \"type\": \"added\",\n      \"line\": ");
                push_decimal(out, *new_line_num as u128);
                push_str(out, ",\n      \"content\": \"");
                push_escaped(out, &to_chars(line.as_str()));
                push_str(out, "\"\n    }");
                first = false;
            },
            LineChange::Removed { old_line_num, line } => {
                push_separator(out, first);
                push_str(out, "    {\n      \"type\": \"removed\",\n      \"line\": ");
                push_decimal(out, *old_line_num as u128);
                push_str(out, ",\n      \"content\": \"");
                push_escaped(out, &to_chars(line.as_str()));
                push_str(out, "\"\n    }");
                first = false;
            },
            LineChange::Unchanged { .. } => {},
        }
        i += 1;
    }
    assert(s.take(i as int) == s);
}

fn push_byte_json(out: &mut Vec<char>, b: Option<u8>)
    ensures
        final(out)@ == old(out)@ + byte_json(b),
{
    match b {
        Some(v) => {
            push_decimal(out, v as u128);
        },
        None => {
            push_str(out, "null");
        },
    }
}

fn push_report_bytes(out: &mut Vec<char>, differences: &Vec<ByteDifference>)
    ensures
        final(out)@ == report_bytes(old(out)@, differences@),
{
    let ghost head = out@;
    let ghost s = differences@;
    let mut i: usize = 0;
    assert(s.take(0) == Seq::<ByteDifference>::empty());
    while i < differences.len()
        invariant
            i <= differences.len(),
            s == differences@,
            out@ == report_bytes(head, s.take(i as int)),
        decreases differences.len() - i,
    {
        assert(s.take(i + 1).drop_last() == s.take(i as int));
        let d = &differences[i];
        push_separator(out, i == 0);
        push_str(out, "    {\n      \"offset\": ");
        push_decimal(out, d.offset as u128);
        push_str(out, ",\n      \"old_byte\": ");
        push_byte_json(out, d.old_byte);
        push_str(out, ",\n      \"new_byte\": ");
        push_byte_json(out, d.new_byte);
        push_str(out, "\n    }");
        i += 1;
    }
    assert(s.take(i as int) == s);
}

fn push_escaped_value(out: &mut Vec<char>, value: &JsonValue)
    ensures
        final(out)@ == old(out)@ + json_escaped(value_text(value@)),
{
    let mut text: Vec<char> = Vec::new();
    push_value_text(&mut text, value);
    assert(text@ == value_text(value@));
    push_escaped(out, &text);
}

fn push_report_change(out: &mut Vec<char>, c: &JsonChange)
    ensures
        final(out)@ == report_change(old(out)@, c@),
{
    match c {
        JsonChange::Added { path, value } => {
            push_str(out, "    {\n      \"type\": \"added\",\n      \"path\": \"");
            push_escaped(out, &to_chars(path.as_str()));
            push_str(out, "\",\n      \"value\": \"");
            push_escaped_value(out, value);
            push_str(out, "\"\n    }");
        },
        JsonChange::Removed { path, value } => {
            push_str(out, "    {\n      \"type\": \"removed\",\n      \"path\": \"");
            push_escaped(out, &to_chars(path.as_str()));
            push_str(out, "\",\n      \"value\": \"");
            push_escaped_value(out, value);
            push_str(out, "\"\n    }");
        },
        JsonChange::Modified { path, old_value, new_value } => {
            push_str(out, "    {\n      \"type\": \"modified\",\n      \"path\": \"");
            push_escaped(out, &to_chars(path.as_str()));
            push_str(out, "\",\n      \"old_value\": \"");
            push_escaped_value(out, old_value);
            push_str(out, "\",\n      \"new_value\": \"");
            push_escaped_value(out, new_value);
            push_str(out, "\"\n    }");
        },
        JsonChange::TypeChanged { path, old_value, new_value } => {
            push_str(out, "    {\n      \"type\": \"type_changed\",\n      \"path\": \"");
            push_escaped(out, &to_chars(path.as_str()));
            push_str(out, "\",\n      \"old_value\": \"");
            push_escaped_value(out, old_value);
            push_str(out, "\",\n      \"old_type\": \"");
            push_str(out, json_type_name(old_value));
            push_str(out, "\",\n      \"new_value\": \"");
            push_escaped_value(out, new_value);
            push_str(out, "\",\n      \"new_type\": \"");
            push_str(out, json_type_name(new_value));
            push_str(out, "\"\n    }");
        },
    }
}

fn push_report_changes(out: &mut Vec<char>, changes: &Vec<JsonChange>)
    ensures
        final(out)@ == report_changes(old(out)@, change_models(changes@)),
{
    let ghost head = out@;
    let ghost s = change_models(changes@);
    let mut i: usize = 0;
    assert(s.take(0) == Seq::<ChangeModel>::empty());
    while i < changes.len()
        invariant
            i <= changes.len(),
            s == change_models(changes@),
            out@ == report_changes(head, s.take(i as int)),
        decreases changes.len() - i,
    {
        assert(s.take(i + 1).drop_last() == s.take(i as int));
        push_separator(out, i == 0);
        push_report_change(out, &changes[i]);
        i += 1;
    }
    assert(s.take(i as int) == s);
}

fn push_bool(out: &mut Vec<char>, b: bool)
    ensures
        final(out)@ == old(out)@ + bool_text(b),
{
    if b {
        push_str(out, "true");
    } else {
        push_str(out, "false");
    }
}

fn push_file_type(out: &mut Vec<char>, t: FileType)
    ensures
        final(out)@ == old(out)@ + file_type_name(t),
{
    match t {
        FileType::Text => push_str(out, "text"),
        FileType::Json => push_str(out, "json"),
        FileType::Binary => push_str(out, "binary"),
    }
}

/// Renders a result as a structured report.
pub fn format_as_json_report(
    result: &DiffResult,
    file1_name: &str,
    file2_name: &str,
    file_type: FileType,
) -> (r: String)
    ensures
        r@ == report_text(*result, file1_name@, file2_name@, file_type),
{
    let mut out: Vec<char> = Vec::new();
    push_str(&mut out, "{\n");
    assert(out@ == "{\n"@);
    push_str(&mut out, "  \"format\": \"json\",\n");
    push_str(&mut out, "  \"file1\": \"");
    push_escaped(&mut out, &to_chars(file1_name));
    push_str(&mut out, "\",\n");
    push_str(&mut out, "  \"file2\": \"");
    push_escaped(&mut out, &to_chars(file2_name));
    push_str(&mut out, "\",\n");
    push_str(&mut out, "  \"identical\": ");
    push_bool(&mut out, result.is_identical());
    push_str(&mut out, ",\n");
    push_str(&mut out, "  \"file_type\": \"");
    push_file_type(&mut out, file_type);
    push_str(&mut out, "\",\n");
    push_str(&mut out, "  \"differences\": [\n");
    assert(out@ == report_head(*result, file1_name@, file2_name@, file_type));
    match result {
        DiffResult::Text(r) => push_report_lines(&mut out, &r.changes),
        DiffResult::Binary(r) => push_report_bytes(&mut out, &r.differences),
        DiffResult::Json(r) => push_report_changes(&mut out, &r.changes),
    }
    let additions = result.additions() as u128;
    let deletions = result.deletions() as u128;
    let modifications = result.modifications() as u128;
    push_str(&mut out, "\n  ],\n");
    push_str(&mut out, "  \"summary\": {\n");
    push_str(&mut out, "    \"total_changes\": ");
    push_decimal(&mut out, additions + deletions + modifications);
    push_str(&mut out, ",\n");
    push_str(&mut out, "    \"additions\": ");
    push_decimal(&mut out, additions);
    push_str(&mut out, ",\n");
    push_str(&mut out, "    \"deletions\": ");
    push_decimal(&mut out, deletions);
    push_str(&mut out, ",\n");
    push_str(&mut out, "    \"modifications\": ");
    push_decimal(&mut out, modifications);
    push_str(&mut out, "\n");
    push_str(&mut out, "  }\n");
    push_str(&mut out, "}\n");
    from_chars(&out)
}

// ---------------------------------------------------------------------------
// Compact listing
// ---------------------------------------------------------------------------

/// `out` followed by one line for each added and each removed line.
pub open spec fn compact_lines(out: Seq<char>, s: Seq<LineEdit>) -> Seq<char>
    decreases s.len(),
{
    if s.len() == 0 {
        out
    } else {
        let rest = compact_lines(out, s.drop_last());
        match s.last() {
            LineEdit::Unchanged { .. } => rest,
            LineEdit::Added { line, new_line_num } => rest + "+ Line "@ + decimal(
                new_line_num as nat,
            ) + ": "@ + line + "\n"@,
            LineEdit::Removed { line, old_line_num } => rest + "- Line "@ + decimal(
                old_line_num as nat,
            ) + ": "@ + line + "\n"@,
        }
    }
}

/// A byte as two hexadecimal digits, an absent byte as two dashes.
pub open spec fn short_hex(b: Option<u8>) -> Seq<char> {
    match b {
        Some(v) => hex(v as nat, 2),
        None => "--"@,
    }
}

/// `out` followed by one line for each byte difference.
pub open spec fn compact_bytes(out: Seq<char>, s: Seq<ByteDifference>) -> Seq<char>
    decreases s.len(),
{
    if s.len() == 0 {
        out
    } else {
        compact_bytes(out, s.drop_last()) + "0x"@ + hex(s.last().offset as nat, 8) + ": "@
            + short_hex(s.last().old_byte) + " → "@ + short_hex(s.last().new_byte) + "\n"@
    }
}

/// `out` followed by the line of one change of a structural diff.
pub open spec fn compact_change(out: Seq<char>, c: ChangeModel) -> Seq<char> {
    match c {
        ChangeModel::Added { path, value } => out + "+ "@ + path + ": "@ + value_text(value)
            + "\n"@,
        ChangeModel::Removed { path, value } => out + "- "@ + path + ": "@ + value_text(value)
            + "\n"@,
        ChangeModel::Modified { path, old_value, new_value } => out + "~ "@ + path + ": "@
            + value_text(old_value) + " → "@ + value_text(new_value) + "\n"@,
        ChangeModel::TypeChanged { path, old_value, new_value } => out + "! "@ + path + ": "@
            + value_text(old_value) + " ("@ + kind_name(old_value) + ") → "@ + value_text(
            new_value,
        ) + " ("@ + kind_name(new_value) + ")\n"@,
    }
}

/// `out` followed by one line for each change.
pub open spec fn compact_changes(out: Seq<char>, s: Seq<ChangeModel>) -> Seq<char>
    decreases s.len(),
{
    if s.len() == 0 {
        out
    } else {
        compact_change(compact_changes(out, s.drop_last()), s.last())
    }
}

/// The compact listing of a result: a remark when there is no difference,
/// else one line for each difference and a line of counts.
pub open spec fn compact_text(result: DiffResult) -> Seq<char> {
    if result.identical() {
        "No differences\n"@
    } else {
        match result {
            DiffResult::Text(r) => compact_lines(Seq::empty(), r.script()) + "\n"@ + decimal(
                result.added() + result.removed(),
            ) + " change"@ + plural(result.added() + result.removed()) + " ("@ + decimal(
                result.added(),
            ) + " addition"@ + plural(result.added()) + ", "@ + decimal(result.removed())
                + " deletion"@ + plural(result.removed()) + ")\n"@,
            DiffResult::Binary(r) => compact_bytes(Seq::empty(), r.differences@) + "\n"@
                + decimal(r.differences@.len()) + " byte"@ + plural(r.differences@.len())
                + " differ\n"@,
            DiffResult::Json(r) => compact_changes(Seq::empty(), r.report()) + "\n"@ + decimal(
                r.report().len(),
            ) + " change"@ + plural(r.report().len()) + " ("@ + decimal(result.added())
                + " addition"@ + plural(result.added()) + ", "@ + decimal(result.removed())
                + " deletion"@ + plural(result.removed()) + ", "@ + decimal(result.modified())
                + " modification"@ + plural(result.modified()) + ")\n"@,
        }
    }
}

fn push_short_hex(out: &mut Vec<char>, b: Option<u8>)
    ensures
        final(out)@ == old(out)@ + short_hex(b),
{
    match b {
        Some(v) => {
            push_hex(out, v as u64, 2);
        },
        None => {
            push_str(out, "--");
        },
    }
}

fn push_compact_lines(out: &mut Vec<char>, changes: &Vec<LineChange>)
    ensures
        final(out)@ == compact_lines(old(out)@, edits(changes@)),
{
    let ghost head = out@;
    let ghost s = edits(changes@);
    let mut i: usize = 0;
    assert(s.take(0) == Seq::<LineEdit>::empty());
    while i < changes.len()
        invariant
            i <= changes.len(),
            s == edits(changes@),
            out@ == compact_lines(head, s.take(i as int)),
        decreases changes.len() - i,
    {
        assert(s.take(i + 1).drop_last() == s.take(i as int));
        assert(s.take(i + 1).last() == changes@[i as int]@);
        match &changes[i] {
            LineChange::Added { new_line_num, line } => {
                push_str(out, "+ Line ");
                push_decimal(out, *new_line_num as u128);
                push_str(out, ": ");
                push_str(out, line.as_str());
                push_str(out, "\n");
            },
            LineChange::Removed { old_line_num, line } => {
                push_str(out, "- Line ");
                push_decimal(out, *old_line_num as u128);
                push_str(out, ": ");
                push_str(out, line.as_str());
                push_str(out, "\n");
            },
            LineChange::Unchanged { .. } => {},
        }
        i += 1;
    }
    assert(s.take(i as int) == s);
}

fn push_compact_bytes(out: &mut Vec<char>, differences: &Vec<ByteDifference>)
    ensures
        final(out)@ == compact_bytes(old(out)@, differences@),
{
    let ghost head = out@;
    let ghost s = differences@;
    let mut i: usize = 0;
    assert(s.take(0) == Seq::<ByteDifference>::empty());
    while i < differences.len()
        invariant
            i <= differences.len(),
            s == differences@,
            out@ == compact_bytes(head, s.take(i as int)),
        decreases differences.len() - i,
    {
        assert(s.take(i + 1).drop_last() == s.take(i as int));
        let d = &differences[i];
        push_str(out, "0x");
        push_hex(out, d.offset as u64, 8);
        push_str(out, ": ");
        push_short_hex(out, d.old_byte);
        push_str(out, " → ");
        push_short_hex(out, d.new_byte);
        push_str(out, "\n");
        i += 1;
    }
    assert(s.take(i as int) == s);
}

fn push_compact_change(out: &mut Vec<char>, c: &JsonChange)
    ensures
        final(out)@ == compact_change(old(out)@, c@),
{
    match c {
        JsonChange::Added { path, value } => {
            push_str(out, "+ ");
            push_str(out, path.as_str());
            push_str(out, ": ");
            push_value_text(out, value);
            push_str(out, "\n");
        },
        JsonChange::Removed { path, value } => {
            push_str(out, "- ");
            push_str(out, path.as_str());
            push_str(out, ": ");
            push_value_text(out, value);
            push_str(out, "\n");
        },
        JsonChange::Modified { path, old_value, new_value } => {
            push_str(out, "~ ");
            push_str(out, path.as_str());
            push_str(out, ": ");
            push_value_text(out, old_value);
            push_str(out, " → ");
            push_value_text(out, new_value);
            push_str(out, "\n");
        },
        JsonChange::TypeChanged { path, old_value, new_value } => {
            push_str(out, "! ");
            push_str(out, path.as_str());
            push_str(out, ": ");
            push_value_text(out, old_value);
            push_str(out, " (");
            push_str(out, json_type_name(old_value));
            push_str(out, ") → ");
            push_value_text(out, new_value);
            push_str(out, " (");
            push_str(out, json_type_name(new_value));
            push_str(out, ")\n");
        },
    }
}

fn push_compact_changes(out: &mut Vec<char>, changes: &Vec<JsonChange>)
    ensures
        final(out)@ == compact_changes(old(out)@, change_models(changes@)),
{
    let ghost head = out@;
    let ghost s = change_models(changes@);
    let mut i: usize = 0;
    assert(s.take(0) == Seq::<ChangeModel>::empty());
    while i < changes.len()
        invariant
            i <= changes.len(),
            s == change_models(changes@),
            out@ == compact_changes(head, s.take(i as int)),
        decreases changes.len() - i,
    {
        assert(s.take(i + 1).drop_last() == s.take(i as int));
        push_compact_change(out, &changes[i]);
        i += 1;
    }
    assert(s.take(i as int) == s);
}

/// Renders a result as its changes only, with a line of counts.
pub fn format_compact(result: &DiffResult) -> (r: String)
    ensures
        r@ == compact_text(*result),
{
    let mut out: Vec<char> = Vec::new();
    if result.is_identical() {
        push_str(&mut out, "No differences\n");
        assert(out@ == "No differences\n"@);
        return from_chars(&out);
    }
    let additions = result.additions() as u128;
    let deletions = result.deletions() as u128;
    let modifications = result.modifications() as u128;
    match result {
        DiffResult::Text(r) => {
            push_compact_lines(&mut out, &r.changes);
            push_str(&mut out, "\n");
            push_decimal(&mut out, additions + deletions);
            push_str(&mut out, " change");
            push_plural(&mut out, additions + deletions);
            push_str(&mut out, " (");
            push_decimal(&mut out, additions);
            push_str(&mut out, " addition");
            push_plural(&mut out, additions);
            push_str(&mut out, ", ");
            push_decimal(&mut out, deletions);
            push_str(&mut out, " deletion");
            push_plural(&mut out, deletions);
            push_str(&mut out, ")\n");
        },
        DiffResult::Binary(r) => {
            push_compact_bytes(&mut out, &r.differences);
            push_str(&mut out, "\n");
            push_decimal(&mut out, r.differences.len() as u128);
            push_str(&mut out, " byte");
            push_plural(&mut out, r.differences.len() as u128);
            push_str(&mut out, " differ\n");
        },
        DiffResult::Json(r) => {
            push_compact_changes(&mut out, &r.changes);
            push_str(&mut out, "\n");
            push_decimal(&mut out, r.changes.len() as u128);
            push_str(&mut out, " change");
            push_plural(&mut out, r.changes.len() as u128);
            push_str(&mut out, " (");
            push_decimal(&mut out, additions);
            push_str(&mut out, " addition");
            push_plural(&mut out, additions);
            push_str(&mut out, ", ");
            push_decimal(&mut out, deletions);
            push_str(&mut out, " deletion");
            push_plural(&mut out, deletions);
            push_str(&mut out, ", ");
            push_decimal(&mut out, modifications);
            push_str(&mut out, " modification");
            push_plural(&mut out, modifications);
            push_str(&mut out, ")\n");
        },
    }
    from_chars(&out)
}

// ---------------------------------------------------------------------------
// Two columns
// ---------------------------------------------------------------------------

/// The number of bytes that a character takes in UTF-8.
pub open spec fn utf8_len(c: char) -> nat {
    if (c as u32) < 0x80 {
        1
    } else if (c as u32) < 0x800 {
        2
    } else if (c as u32) < 0x10000 {
        3
    } else {
        4
    }
}

/// The number of bytes that a text takes in UTF-8.
pub open spec fn byte_len(s: Seq<char>) -> nat
    decreases s.len(),
{
    if s.len() == 0 {
        0
    } else {
        byte_len(s.drop_last()) + utf8_len(s.last())
    }
}

/// How many leading characters of `s` fit into `limit` bytes.
pub open spec fn fitting(s: Seq<char>, limit: nat) -> nat
    decreases s.len(),
{
    if s.len() == 0 || utf8_len(s[0]) > limit {
        0
    } else {
        1 + fitting(s.skip(1), (limit - utf8_len(s[0])) as nat)
    }
}

/// `s` if it takes at most `width` bytes; otherwise as many of its leading
/// characters as fit into `width - 3` bytes, followed by three dots.
pub open spec fn truncated(s: Seq<char>, width: nat) -> Seq<char> {
    if byte_len(s) <= width {
        s
    } else {
        s.take(
            fitting(
                s,
                if width >= 3 {
                    (width - 3) as nat
                } else {
                    0
                },
            ) as int,
        ) + "..."@
    }
}

/// `out` followed by `n` times the character `c`.
pub open spec fn repeated(out: Seq<char>, c: char, n: nat) -> Seq<char>
    decreases n,
{
    if n == 0 {
        out
    } else {
        repeated(out, c, (n - 1) as nat).push(c)
    }
}

/// `out` followed by `s` and by as many spaces as `s` has characters fewer
/// than `width`.
pub open spec fn padded(out: Seq<char>, s: Seq<char>, width: nat) -> Seq<char> {
    repeated(
        out + s,
        ' ',
        if s.len() < width {
            (width - s.len()) as nat
        } else {
            0
        },
    )
}

/// `out` followed by the row of one entry: an unchanged line in both
/// columns, an added line in the right one after `>`, a removed line in the
/// left one before `<`.
pub open spec fn side_row(out: Seq<char>, e: LineEdit, half: nat) -> Seq<char> {
    match e {
        LineEdit::Unchanged { line, .. } => padded(out, truncated(line, half), half) + " | "@
            + truncated(line, half) + "\n"@,
        LineEdit::Added { line, .. } => padded(out, Seq::empty(), half) + " > "@ + truncated(
            line,
            half,
        ) + "\n"@,
        LineEdit::Removed { line, .. } => padded(out, truncated(line, half), half) + " < "@
            + "\n"@,
    }
}

/// `out` followed by the rows of a script.
pub open spec fn side_rows(out: Seq<char>, s: Seq<LineEdit>, half: nat) -> Seq<char>
    decreases s.len(),
{
    if s.len() == 0 {
        out
    } else {
        side_row(side_rows(out, s.drop_last(), half), s.last(), half)
    }
}

/// The width of one column of a view that is `width` characters wide.
pub open spec fn column_width(width: nat) -> nat {
    if width >= 3 {
        ((width - 3) / 2) as nat
    } else {
        0
    }
}

/// The two header lines of a view: the names, and a rule.
pub open spec fn side_head(old_name: Seq<char>, new_name: Seq<char>, half: nat) -> Seq<char> {
    repeated(
        repeated(padded(Seq::empty(), old_name, half) + " | "@ + new_name + "\n"@, '-', half)
            + "-+-"@,
        '-',
        half,
    ) + "\n"@
}

/// The two-column view of a result. Only a text diff has one; for the other
/// kinds the view says so.
pub open spec fn side_text(
    result: DiffResult,
    old_name: Seq<char>,
    new_name: Seq<char>,
    width: nat,
) -> Seq<char> {
    let half = column_width(width);
    let head = side_head(old_name, new_name, half);
    match result {
        DiffResult::Text(r) => side_rows(head, r.script(), half),
        DiffResult::Binary(_) => head + "Side-by-side view not supported for binary files\n"@,
        DiffResult::Json(_) => head + "Side-by-side view not supported for JSON diffs\n"@
            + "Use --format compact or --format json instead\n"@,
    }
}

/// The number of bytes that `c` takes in UTF-8.
fn char_bytes(c: char) -> (n: usize)
    ensures
        n == utf8_len(c),
{
    let u: u32 = c as u32;
    if u < 0x80 {
        1
    } else if u < 0x800 {
        2
    } else if u < 0x10000 {
        3
    } else {
        4
    }
}

/// Whether `s` takes at most `width` bytes in UTF-8.
fn fits(s: &Vec<char>, width: usize) -> (r: bool)
    ensures
        r == (byte_len(s@) <= width),
{
    let mut used: usize = 0;
    let mut i: usize = 0;
    assert(s@.take(0) == Seq::<char>::empty());
    while i < s.len()
        invariant
            i <= s.len(),
            used == byte_len(s@.take(i as int)),
            used <= width,
        decreases s.len() - i,
    {
        assert(s@.take(i + 1).drop_last() == s@.take(i as int));
        let n = char_bytes(s[i]);
        if n > width - used {
            proof {
                lemma_byte_len_grows(s@, i + 1);
            }
            return false;
        }
        used += n;
        i += 1;
    }
    assert(s@.take(i as int) == s@);
    true
}

proof fn lemma_byte_len_grows(s: Seq<char>, k: int)
    requires
        0 <= k <= s.len(),
    ensures
        byte_len(s.take(k)) <= byte_len(s),
    decreases s.len() - k,
{
    if k < s.len() {
        lemma_byte_len_grows(s, k + 1);
        assert(s.take(k + 1).drop_last() == s.take(k));
    } else {
        assert(s.take(k) == s);
    }
}

/// Truncates a text to a width given in bytes.
fn truncate_chars(s: &Vec<char>, width: usize) -> (r: Vec<char>)
    ensures
        r@ == truncated(s@, width as nat),
{
    let mut r: Vec<char> = Vec::new();
    if fits(s, width) {
        push_all(&mut r, s);
        assert(r@ == s@);
        return r;
    }
    let limit: usize = if width >= 3 {
        width - 3
    } else {
        0
    };
    let mut left: usize = limit;
    let mut i: usize = 0;
    assert(s@.skip(0) == s@);
    assert(s@.take(0) == r@);
    while i < s.len() && char_bytes(s[i]) <= left
        invariant
            i <= s.len(),
            r@ == s@.take(i as int),
            fitting(s@, limit as nat) == i + fitting(s@.skip(i as int), left as nat),
        decreases s.len() - i,
    {
        assert(s@.skip(i as int)[0] == s@[i as int]);
        assert(s@.skip(i as int).skip(1) == s@.skip(i + 1));
        assert(s@.take(i + 1) == s@.take(i as int).push(s@[i as int]));
        left -= char_bytes(s[i]);
        r.push(s[i]);
        i += 1;
    }
    proof {
        if i < s.len() {
            assert(s@.skip(i as int)[0] == s@[i as int]);
        }
        assert(fitting(s@.skip(i as int), left as nat) == 0);
    }
    push_str(&mut r, "...");
    r
}

/// Truncates `s` to `width` bytes: a longer text is cut, at a character
/// boundary, to `width - 3` bytes or fewer and gets three dots.
pub fn truncate_to_width(s: &str, width: usize) -> (r: String)
    ensures
        r@ == truncated(s@, width as nat),
{
    from_chars(&truncate_chars(&to_chars(s), width))
}

fn push_repeated(out: &mut Vec<char>, c: char, n: usize)
    ensures
        final(out)@ == repeated(old(out)@, c, n as nat),
{
    let ghost head = out@;
    let mut i: usize = 0;
    while i < n
        invariant
            i <= n,
            out@ == repeated(head, c, i as nat),
        decreases n - i,
    {
        out.push(c);
        i += 1;
    }
}

fn push_padded(out: &mut Vec<char>, s: &Vec<char>, width: usize)
    ensures
        final(out)@ == padded(old(out)@, s@, width as nat),
{
    push_all(out, s);
    let fill: usize = if s.len() < width {
        width - s.len()
    } else {
        0
    };
    push_repeated(out, ' ', fill);
}

fn push_side_row(out: &mut Vec<char>, c: &LineChange, half: usize)
    ensures
        final(out)@ == side_row(old(out)@, c@, half as nat),
{
    match c {
        LineChange::Unchanged { line, .. } => {
            let t = truncate_chars(&to_chars(line.as_str()), half);
            push_padded(out, &t, half);
            push_str(out, " | ");
            push_all(out, &t);
            push_str(out, "\n");
        },
        LineChange::Added { line, .. } => {
            let t = truncate_chars(&to_chars(line.as_str()), half);
            let nothing: Vec<char> = Vec::new();
            push_padded(out, &nothing, half);
            push_str(out, " > ");
            push_all(out, &t);
            push_str(out, "\n");
        },
        LineChange::Removed { line, .. } => {
            let t = truncate_chars(&to_chars(line.as_str()), half);
            push_padded(out, &t, half);
            push_str(out, " < ");
            push_str(out, "\n");
        },
    }
}

/// Renders a result in two columns, `width` characters wide in all.
pub fn format_side_by_side(
    result: &DiffResult,
    file1_name: &str,
    file2_name: &str,
    width: usize,
) -> (r: String)
    ensures
        r@ == side_text(*result, file1_name@, file2_name@, width as nat),
{
    let half: usize = if width >= 3 {
        (width - 3) / 2
    } else {
        0
    };
    let mut out: Vec<char> = Vec::new();
    push_padded(&mut out, &to_chars(file1_name), half);
    push_str(&mut out, " | ");
    push_str(&mut out, file2_name);
    push_str(&mut out, "\n");
    push_repeated(&mut out, '-', half);
    push_str(&mut out, "-+-");
    push_repeated(&mut out, '-', half);
    push_str(&mut out, "\n");
    let ghost head = out@;
    assert(head == side_head(file1_name@, file2_name@, half as nat));
    match result {
        DiffResult::Text(r) => {
            let ghost s = r.script();
            let mut i: usize = 0;
            assert(s.take(0) == Seq::<LineEdit>::empty());
            while i < r.changes.len()
                invariant
                    i <= r.changes.len(),
                    s == r.script(),
                    out@ == side_rows(head, s.take(i as int), half as nat),
                decreases r.changes.len() - i,
            {
                assert(s.take(i + 1).drop_last() == s.take(i as int));
                assert(s.take(i + 1).last() == r.changes@[i as int]@);
                push_side_row(&mut out, &r.changes[i], half);
                i += 1;
            }
            assert(s.take(i as int) == s);
        },
        DiffResult::Binary(_) => {
            push_str(&mut out, "Side-by-side view not supported for binary files\n");
        },
        DiffResult::Json(_) => {
            push_str(&mut out, "Side-by-side view not supported for JSON diffs\n");
            push_str(&mut out, "Use --format compact or --format json instead\n");
        },
    }
    from_chars(&out)
}

// ---------------------------------------------------------------------------
// By configuration
// ---------------------------------------------------------------------------

/// The width of the two-column view when the configuration picks it.
pub const SIDE_BY_SIDE_WIDTH: usize = 120;

/// The rendering of a result in the presentation that a configuration asks
/// for. The unified presentation is the listing of the result's own kind,
/// of which only the text listing is coloured.
pub open spec fn rendered(
    result: DiffResult,
    old_name: Seq<char>,
    new_name: Seq<char>,
    file_type: FileType,
    format: OutputFormat,
    color: bool,
) -> Seq<char> {
    match format {
        OutputFormat::Unified => match result {
            DiffResult::Text(r) => unified_text(r.script(), old_name, new_name, color),
            DiffResult::Binary(r) => binary_text(
                r.differences@,
                r.old_size as nat,
                r.new_size as nat,
                false,
            ),
            DiffResult::Json(r) => json_diff_text(r.report(), false),
        },
        OutputFormat::Json => report_text(result, old_name, new_name, file_type),
        OutputFormat::SideBySide => side_text(
            result,
            old_name,
            new_name,
            SIDE_BY_SIDE_WIDTH as nat,
        ),
        OutputFormat::Compact => compact_text(result),
    }
}

/// Renders a result as the configuration asks.
pub fn format_result(
    result: &DiffResult,
    file1_name: &str,
    file2_name: &str,
    file_type: FileType,
    config: &DiffConfig,
) -> (r: String)
    ensures
        r@ == rendered(*result, file1_name@, file2_name@, file_type, config.format, config.color),
{
    match config.format {
        OutputFormat::Unified => match result {
            DiffResult::Text(r) => format_unified_diff_with_color(
                r,
                file1_name,
                file2_name,
                config.color,
            ),
            DiffResult::Binary(r) => format_binary_diff(r),
            DiffResult::Json(r) => format_json_diff(r),
        },
        OutputFormat::Json => format_as_json_report(result, file1_name, file2_name, file_type),
        OutputFormat::SideBySide => format_side_by_side(
            result,
            file1_name,
            file2_name,
            SIDE_BY_SIDE_WIDTH,
        ),
        OutputFormat::Compact => format_compact(result),
    }
}

} // verus!

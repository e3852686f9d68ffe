//! The snapshot file: header lines of the form `# Key: value`, a line `---`,
//! then the content as it is. Writing is exact to the byte; reading is
//! lenient with what it does not know and strict with the limits.

use vstd::prelude::*;
use vstd::slice::slice_subrange;
use vstd::utf8::{decode_utf8, encode_utf8, valid_utf8};
use crate::bytes::{copy_bytes, push_bytes};
use crate::filetype::{content_type, detect_content_type, FileType};
use crate::format::file_type_name;
use crate::snapshot::{
    hash_text, name_check, Baseline, Details, Failure, Snapshot, SnapshotError, SnapshotMetadata,
    SnapshotStore, MAX_CONTENT_SIZE, MAX_HEADER_LINES, MAX_HEADER_LINE_LENGTH,
};
use crate::text::{
    decimal, decode_text, from_chars, has_at, is_text, parse_u64, push_decimal, push_str,
    slice_of, starts_at, text_of, to_chars, trim, trimmed, unsigned_value,
};

verus! {

// ---------------------------------------------------------------------------
// Writing
// ---------------------------------------------------------------------------

/// The header of a snapshot file, separator line included.
pub open spec fn header_text(d: Details) -> Seq<char> {
    "# Snapshot: "@ + d.name + "\n"@ + "# Created: "@ + decimal(d.created_at as nat) + "\n"@
        + "# Updated: "@ + decimal(d.updated_at as nat) + "\n"@ + "# Hash: "@ + d.content_hash
        + "\n"@ + "# Size: "@ + decimal(d.size as nat) + "\n"@ + "# Type: "@ + file_type_name(
        d.file_type,
    ) + "\n"@ + "---\n"@
}

/// The bytes of a snapshot file: the header in UTF-8, then the content.
pub open spec fn envelope(b: Baseline) -> Seq<u8> {
    encode_utf8(header_text(b.details)) + b.content
}

impl SnapshotStore {
    /// The bytes to store a snapshot as.
    pub fn write_snapshot(snapshot: &Snapshot) -> (r: Vec<u8>)
        ensures
            r@ == envelope(snapshot@),
    {
        let m = &snapshot.metadata;
        let mut header: Vec<char> = Vec::new();
        push_str(&mut header, "# Snapshot: ");
        assert(header@ == "# Snapshot: "@);
        push_str(&mut header, m.name.as_str());
        push_str(&mut header, "\n");
        push_str(&mut header, "# Created: ");
        push_decimal(&mut header, m.created_at as u128);
        push_str(&mut header, "\n");
        push_str(&mut header, "# Updated: ");
        push_decimal(&mut header, m.updated_at as u128);
        push_str(&mut header, "\n");
        push_str(&mut header, "# Hash: ");
        push_str(&mut header, m.content_hash.as_str());
        push_str(&mut header, "\n");
        push_str(&mut header, "# Size: ");
        push_decimal(&mut header, m.size as u128);
        push_str(&mut header, "\n");
        push_str(&mut header, "# Type: ");
        match m.file_type {
            FileType::Text => push_str(&mut header, "text"),
            FileType::Json => push_str(&mut header, "json"),
            FileType::Binary => push_str(&mut header, "binary"),
        }
        push_str(&mut header, "\n");
        push_str(&mut header, "---\n");
        assert(header@ == header_text(snapshot@.details));
        let text = from_chars(&header);
        let mut out: Vec<u8> = Vec::new();
        push_bytes(&mut out, text.as_str().as_bytes());
        push_bytes(&mut out, snapshot.content.as_slice());
        assert(out@ == encode_utf8(header_text(snapshot@.details)) + snapshot@.content);
        out
    }
}

// ---------------------------------------------------------------------------
// Reading
// ---------------------------------------------------------------------------

/// The values of the header fields that the reader knows, as they were
/// written; each is that of the last line with its key.
pub struct Header {
    pub name: Option<Seq<char>>,
    pub created: Option<Seq<char>>,
    pub updated: Option<Seq<char>>,
    pub hash: Option<Seq<char>>,
    pub size: Option<Seq<char>>,
    pub kind: Option<Seq<char>>,
}

/// A header without any field.
pub open spec fn no_fields() -> Header {
    Header { name: None, created: None, updated: None, hash: None, size: None, kind: None }
}

/// The length of the line that starts at `pos`, its line feed included; the
/// last line may lack one.
pub open spec fn line_len(bytes: Seq<u8>, pos: int) -> nat
    decreases bytes.len() - pos,
{
    if pos < 0 || pos >= bytes.len() {
        0
    } else if bytes[pos] == 10 {
        1
    } else {
        1 + line_len(bytes, pos + 1)
    }
}

/// The first position at or after `from` where `: ` stands in `t`, or the
/// length of `t`.
pub open spec fn colon_at(t: Seq<char>, from: int) -> int
    decreases t.len() - from,
{
    if from < 0 || from >= t.len() {
        t.len() as int
    } else if t[from] == ':' && from + 1 < t.len() && t[from + 1] == ' ' {
        from
    } else {
        colon_at(t, from + 1)
    }
}

/// The header with the field of the given key set to `value`; a key that the
/// reader does not know changes nothing.
pub open spec fn with_field(h: Header, key: Seq<char>, value: Seq<char>) -> Header {
    if key == "Snapshot"@ {
        Header { name: Some(value), ..h }
    } else if key == "Created"@ {
        Header { created: Some(value), ..h }
    } else if key == "Updated"@ {
        Header { updated: Some(value), ..h }
    } else if key == "Hash"@ {
        Header { hash: Some(value), ..h }
    } else if key == "Size"@ {
        Header { size: Some(value), ..h }
    } else if key == "Type"@ {
        Header { kind: Some(value), ..h }
    } else {
        h
    }
}

/// The header after one more line: a line `# key: value` sets a field, any
/// other line is passed over. Whitespace around `key: value` does not count.
pub open spec fn with_line(h: Header, line: Seq<char>) -> Header {
    if has_at(line, 0, "# "@) {
        let t = trim(line.skip(2));
        let c = colon_at(t, 0);
        if c < t.len() {
            with_field(h, t.take(c), t.skip(c + 2))
        } else {
            h
        }
    } else {
        h
    }
}

/// What reading the header gave: the fields and where the content starts, or
/// a failure.
pub enum Scan {
    Found { header: Header, content_start: int },
    Failed { failure: Failure },
}

/// Reads header lines from `pos` on, `count` lines having been read and
/// having given `h`. Each line must be UTF-8 and at most 1024 bytes long. The
/// line `---` ends the header and is no header line itself; the lines before
/// it must be at most 100, and the content after it must not exceed 100 MiB.
pub open spec fn scan(bytes: Seq<u8>, pos: int, count: nat, h: Header) -> Scan
    decreases bytes.len() - pos,
{
    if pos < 0 || pos >= bytes.len() {
        Scan::Failed {
            failure: Failure::CorruptedSnapshot("Missing --- separator in snapshot file"@),
        }
    } else {
        let end = pos + line_len(bytes, pos);
        let raw = bytes.subrange(pos, end);
        if !valid_utf8(raw) {
            Scan::Failed { failure: Failure::IoError("stream did not contain valid UTF-8"@) }
        } else if raw.len() > MAX_HEADER_LINE_LENGTH {
            Scan::Failed {
                failure: Failure::CorruptedSnapshot(
                    "Header line too long: "@ + decimal(raw.len()) + " bytes (max: "@ + decimal(
                        MAX_HEADER_LINE_LENGTH as nat,
                    ) + ")"@,
                ),
            }
        } else if trim(decode_utf8(raw)) == "---"@ {
            if bytes.len() - end > MAX_CONTENT_SIZE {
                Scan::Failed {
                    failure: Failure::CorruptedSnapshot(
                        "Content too large: "@ + decimal((MAX_CONTENT_SIZE + 1) as nat)
                            + " bytes (max: "@ + decimal(MAX_CONTENT_SIZE as nat) + ")"@,
                    ),
                }
            } else {
                Scan::Found { header: h, content_start: end }
            }
        } else if count + 1 > MAX_HEADER_LINES {
            Scan::Failed {
                failure: Failure::CorruptedSnapshot(
                    "Too many header lines: "@ + decimal(count + 1) + " (max: "@ + decimal(
                        MAX_HEADER_LINES as nat,
                    ) + ")"@,
                ),
            }
        } else if pos < end <= bytes.len() {
            scan(bytes, end, count + 1, with_line(h, decode_utf8(raw)))
        } else {
            Scan::Failed {
                failure: Failure::CorruptedSnapshot("Missing --- separator in snapshot file"@),
            }
        }
    }
}

/// The number that a field holds, or `default` where the field is missing
/// or no number up to `max`.
pub open spec fn number_or(field: Option<Seq<char>>, max: nat, default: nat) -> nat {
    match field {
        Some(t) => match unsigned_value(t, max) {
            Some(n) => n,
            None => default,
        },
        None => default,
    }
}

/// The file type that a field names by one of the words `text`, `json` and
/// `binary`; without the field, or with any other word in it, the content
/// decides.
pub open spec fn kind_or(field: Option<Seq<char>>, content: Seq<u8>) -> FileType {
    if field == Some("text"@) {
        FileType::Text
    } else if field == Some("json"@) {
        FileType::Json
    } else if field == Some("binary"@) {
        FileType::Binary
    } else {
        content_type(content)
    }
}

/// Whether `c` is one of the digits `0` to `9` and `a` to `f`.
pub open spec fn is_hex_digit(c: char) -> bool {
    ('0' <= c && c <= '9') || ('a' <= c && c <= 'f')
}

/// Whether `t` has the form of a digest: sixteen hexadecimal digits, the
/// letters among them in lower case.
pub open spec fn is_digest(t: Seq<char>) -> bool {
    t.len() == 16 && forall|i: int| 0 <= i < t.len() ==> is_hex_digit(#[trigger] t[i])
}

/// The digest that a field holds, or that of the content where the field is
/// missing or holds no digest.
pub open spec fn digest_or(field: Option<Seq<char>>, content: Seq<u8>) -> Seq<char> {
    match field {
        Some(t) => if is_digest(t) {
            t
        } else {
            hash_text(content)
        },
        None => hash_text(content),
    }
}

/// The metadata that a header gives for the snapshot looked up as `name`
/// with the given content: what a field does not give, or gives in a form
/// that cannot be read, is taken from the lookup name, computed from the
/// content, or zero for the two times.
pub open spec fn details_from(name: Seq<char>, h: Header, content: Seq<u8>) -> Details {
    Details {
        name: match h.name {
            Some(n) => n,
            None => name,
        },
        created_at: number_or(h.created, u64::MAX as nat, 0) as u64,
        updated_at: number_or(h.updated, u64::MAX as nat, 0) as u64,
        content_hash: digest_or(h.hash, content),
        size: number_or(h.size, usize::MAX as nat, content.len()) as usize,
        file_type: kind_or(h.kind, content),
    }
}

/// The snapshot that the bytes of a file hold, looked up as `name`.
pub open spec fn opened(name: Seq<char>, bytes: Seq<u8>) -> Result<Baseline, Failure> {
    match scan(bytes, 0, 0, no_fields()) {
        Scan::Failed { failure } => Err(failure),
        Scan::Found { header, content_start } => {
            let content = bytes.skip(content_start);
            Ok(Baseline { details: details_from(name, header, content), content })
        },
    }
}

/// What reading the snapshot `name` gives, `file` being the bytes of its file
/// if there is one: an invalid name is refused, a missing file is not found,
/// and an existing one is opened.
pub open spec fn read_outcome(name: Seq<char>, file: Option<Seq<u8>>) -> Result<Baseline, Failure> {
    match name_check(name) {
        Err(f) => Err(f),
        Ok(_) => match file {
            None => Err(Failure::NotFound(name)),
            Some(bytes) => opened(name, bytes),
        },
    }
}

/// The view of the result of an operation that gives a snapshot.
pub open spec fn snapshot_outcome(r: Result<Snapshot, SnapshotError>) -> Result<Baseline, Failure> {
    match r {
        Ok(s) => Ok(s@),
        Err(e) => Err(e@),
    }
}

/// The exec form of `Header`.
struct Fields {
    name: Option<Vec<char>>,
    created: Option<Vec<char>>,
    updated: Option<Vec<char>>,
    hash: Option<Vec<char>>,
    size: Option<Vec<char>>,
    kind: Option<Vec<char>>,
}

/// The view of an optional field.
spec fn field_view(f: Option<Vec<char>>) -> Option<Seq<char>> {
    match f {
        Some(v) => Some(v@),
        None => None,
    }
}

impl View for Fields {
    type V = Header;

    closed spec fn view(&self) -> Header {
        Header {
            name: field_view(self.name),
            created: field_view(self.created),
            updated: field_view(self.updated),
            hash: field_view(self.hash),
            size: field_view(self.size),
            kind: field_view(self.kind),
        }
    }
}

/// The end of the line that starts at `pos`.
fn line_end_from(bytes: &[u8], pos: usize) -> (end: usize)
    requires
        pos < bytes.len(),
    ensures
        end == pos + line_len(bytes@, pos as int),
        pos < end <= bytes.len(),
{
    let mut i: usize = pos;
    while i < bytes.len() && bytes[i] != 10
        invariant
            pos <= i <= bytes.len(),
            pos + line_len(bytes@, pos as int) == i + line_len(bytes@, i as int),
        decreases bytes.len() - i,
    {
        i += 1;
    }
    if i < bytes.len() {
        i + 1
    } else {
        i
    }
}

/// Decides `colon_at(t, 0)`.
fn find_colon(t: &Vec<char>) -> (c: usize)
    ensures
        c == colon_at(t@, 0),
        c <= t.len(),
        c < t.len() ==> c + 2 <= t.len(),
{
    let mut i: usize = 0;
    while i < t.len()
        invariant
            i <= t.len(),
            colon_at(t@, 0) == colon_at(t@, i as int),
        decreases t.len() - i,
    {
        if t[i] == ':' && i + 1 < t.len() && t[i + 1] == ' ' {
            return i;
        }
        i += 1;
    }
    i
}

/// Takes one header line into the fields.
fn take_line(fields: Fields, line: &Vec<char>) -> (r: Fields)
    ensures
        r@ == with_line(fields@, line@),
{
    let prefix = to_chars("# ");
    if !starts_at(line, 0, &prefix) {
        return fields;
    }
    proof {
        reveal_strlit("# ");
        assert(prefix@.len() == 2);
    }
    let rest = slice_of(line, 2, line.len());
    assert(rest@ == line@.skip(2));
    let t = trimmed(&rest);
    let c = find_colon(&t);
    if c >= t.len() {
        return fields;
    }
    let key = slice_of(&t, 0, c);
    let value = slice_of(&t, c + 2, t.len());
    assert(key@ == t@.take(c as int));
    assert(value@ == t@.skip(c + 2));
    let mut fields = fields;
    if is_text(&key, "Snapshot") {
        fields.name = Some(value);
    } else if is_text(&key, "Created") {
        fields.created = Some(value);
    } else if is_text(&key, "Updated") {
        fields.updated = Some(value);
    } else if is_text(&key, "Hash") {
        fields.hash = Some(value);
    } else if is_text(&key, "Size") {
        fields.size = Some(value);
    } else if is_text(&key, "Type") {
        fields.kind = Some(value);
    }
    fields
}

/// A corruption failure whose message is `before`, a number, `between`,
/// another number and `after`.
fn corrupted(before: &str, first: usize, between: &str, second: usize, after: &str) -> (e:
    SnapshotError)
    ensures
        e@ == Failure::CorruptedSnapshot(
            before@ + decimal(first as nat) + between@ + decimal(second as nat) + after@,
        ),
{
    let mut m: Vec<char> = Vec::new();
    push_str(&mut m, before);
    assert(m@ == before@);
    push_decimal(&mut m, first as u128);
    push_str(&mut m, between);
    push_decimal(&mut m, second as u128);
    push_str(&mut m, after);
    SnapshotError::CorruptedSnapshot(from_chars(&m))
}

/// The number in a field, or `default`.
fn number_in(field: &Option<Vec<char>>, default: u64) -> (r: u64)
    ensures
        r == number_or(field_view(*field), u64::MAX as nat, default as nat),
{
    match field {
        Some(t) => match parse_u64(t) {
            Some(n) => n,
            None => default,
        },
        None => default,
    }
}

/// The size in a field, or `default`.
fn size_in(field: &Option<Vec<char>>, default: usize) -> (r: usize)
    ensures
        r == number_or(field_view(*field), usize::MAX as nat, default as nat),
{
    match field {
        Some(t) => match parse_u64(t) {
            Some(n) => if n <= usize::MAX as u64 {
                n as usize
            } else {
                default
            },
            None => default,
        },
        None => default,
    }
}

/// The file type named in a field, or that of the content.
fn kind_in(field: &Option<Vec<char>>, content: &[u8]) -> (r: FileType)
    ensures
        r == kind_or(field_view(*field), content@),
{
    match field {
        Some(k) => if is_text(k, "text") {
            FileType::Text
        } else if is_text(k, "json") {
            FileType::Json
        } else if is_text(k, "binary") {
            FileType::Binary
        } else {
            detect_content_type(content)
        },
        None => detect_content_type(content),
    }
}

/// Decides `is_digest`.
fn has_digest_form(t: &Vec<char>) -> (r: bool)
    ensures
        r == is_digest(t@),
{
    if t.len() != 16 {
        return false;
    }
    let mut i: usize = 0;
    while i < t.len()
        invariant
            i <= t.len(),
            forall|k: int| 0 <= k < i ==> is_hex_digit(#[trigger] t@[k]),
        decreases t.len() - i,
    {
        let c = t[i];
        if !(('0' <= c && c <= '9') || ('a' <= c && c <= 'f')) {
            return false;
        }
        i += 1;
    }
    true
}

/// The digest in a field, or that of the content.
fn digest_in(field: &Option<Vec<char>>, content: &[u8]) -> (r: String)
    ensures
        r@ == digest_or(field_view(*field), content@),
{
    match field {
        Some(t) => if has_digest_form(t) {
            from_chars(t)
        } else {
            SnapshotStore::compute_hash(content)
        },
        None => SnapshotStore::compute_hash(content),
    }
}

/// Opens the bytes of a snapshot file.
fn open_bytes(name: &str, bytes: &[u8]) -> (r: Result<Snapshot, SnapshotError>)
    ensures
        snapshot_outcome(r) == opened(name@, bytes@),
{
    let mut fields = Fields {
        name: None,
        created: None,
        updated: None,
        hash: None,
        size: None,
        kind: None,
    };
    let mut pos: usize = 0;
    let mut count: usize = 0;
    loop
        invariant
            pos <= bytes.len(),
            count <= MAX_HEADER_LINES,
            scan(bytes@, 0, 0, no_fields()) == scan(bytes@, pos as int, count as nat, fields@),
        decreases bytes.len() - pos,
    {
        if pos >= bytes.len() {
            return Err(
                SnapshotError::CorruptedSnapshot(text_of("Missing --- separator in snapshot file")),
            );
        }
        let end = line_end_from(bytes, pos);
        let raw = slice_subrange(bytes, pos, end);
        let line = match decode_text(raw) {
            Ok(line) => line,
            Err(_) => {
                return Err(SnapshotError::IoError(text_of("stream did not contain valid UTF-8")));
            },
        };
        if end - pos > MAX_HEADER_LINE_LENGTH {
            return Err(
                corrupted(
                    "Header line too long: ",
                    end - pos,
                    " bytes (max: ",
                    MAX_HEADER_LINE_LENGTH,
                    ")",
                ),
            );
        }
        if is_text(&trimmed(&line), "---") {
            if bytes.len() - end > MAX_CONTENT_SIZE {
                return Err(
                    corrupted(
                        "Content too large: ",
                        MAX_CONTENT_SIZE + 1,
                        " bytes (max: ",
                        MAX_CONTENT_SIZE,
                        ")",
                    ),
                );
            }
            let content = slice_subrange(bytes, end, bytes.len());
            assert(content@ == bytes@.skip(end as int));
            let metadata = SnapshotMetadata {
                name: match &fields.name {
                    Some(n) => from_chars(n),
                    None => text_of(name),
                },
                created_at: number_in(&fields.created, 0),
                updated_at: number_in(&fields.updated, 0),
                content_hash: digest_in(&fields.hash, content),
                size: size_in(&fields.size, content.len()),
                file_type: kind_in(&fields.kind, content),
            };
            return Ok(Snapshot { metadata, content: copy_bytes(content) });
        }
        if count + 1 > MAX_HEADER_LINES {
            return Err(
                corrupted("Too many header lines: ", count + 1, " (max: ", MAX_HEADER_LINES, ")"),
            );
        }
        count += 1;
        fields = take_line(fields, &line);
        pos = end;
    }
}

impl SnapshotStore {
    /// Reads the snapshot `name`, `file` being the bytes of its file if the
    /// file exists.
    pub fn read(&self, name: &str, file: Option<&[u8]>) -> (r: Result<Snapshot, SnapshotError>)
        ensures
            snapshot_outcome(r) == read_outcome(
                name@,
                match file {
                    Some(bytes) => Some(bytes@),
                    None => None,
                },
            ),
    {
        match Self::validate_name(name) {
            Err(e) => {
                return Err(e);
            },
            Ok(_) => {},
        }
        match file {
            None => Err(SnapshotError::NotFound(text_of(name))),
            Some(bytes) => open_bytes(name, bytes),
        }
    }
}

} // verus!

//! The operations of the snapshot store: create, check, update, delete, list
//! and clean. Each takes what its caller read from the directory and says
//! what is to be kept; none touches a file.

use vstd::prelude::*;
use vstd::utf8::{decode_utf8, valid_utf8};
use crate::binary_diff::{binary_diff, diff_binary, ByteDifference};
use crate::bytes::copy_bytes;
use crate::envelope::{opened, read_outcome, snapshot_outcome};
use crate::filetype::{content_type, detect_content_type, FileType};
use crate::json_diff::{diff_json, json_diff, ChangeModel};
use crate::snapshot::{
    hash_text, name_check, unit_outcome, Baseline, CompareResult, Details, DiffOutput, Failure,
    Snapshot, SnapshotConfig, SnapshotError, SnapshotMetadata, SnapshotStore,
};
use crate::text::{
    from_chars, lines_of, push_str, same_chars, slice_of, starts_at, text_of, to_chars,
    utf8_error_text, utf8_text,
};
use crate::text_diff::{diff_text, text_diff, DiffConfig, LineEdit, OutputFormat};

verus! {

// ---------------------------------------------------------------------------
// Create and update
// ---------------------------------------------------------------------------

/// The type to store content as: the one the options force, else the one the
/// content suggests.
pub open spec fn stored_type(forced: Option<FileType>, content: Seq<u8>) -> FileType {
    match forced {
        Some(t) => t,
        None => content_type(content),
    }
}

/// The snapshot that `create` makes at time `now`.
pub open spec fn create_outcome(
    name: Seq<char>,
    content: Seq<u8>,
    forced: Option<FileType>,
    now: u64,
) -> Result<Baseline, Failure> {
    match name_check(name) {
        Err(f) => Err(f),
        Ok(_) => Ok(
            Baseline {
                details: Details {
                    name,
                    created_at: now,
                    updated_at: now,
                    content_hash: hash_text(content),
                    size: content.len() as usize,
                    file_type: stored_type(forced, content),
                },
                content,
            },
        ),
    }
}

/// The time of creation that an update keeps: that of the snapshot in the
/// existing file if there is one that can be opened, else `now`.
pub open spec fn kept_creation(name: Seq<char>, file: Option<Seq<u8>>, now: u64) -> u64 {
    match file {
        Some(bytes) => match opened(name, bytes) {
            Ok(b) => b.details.created_at,
            Err(_) => now,
        },
        None => now,
    }
}

/// The snapshot that `update` makes at time `now`, `file` being the bytes of
/// the existing file if there is one.
pub open spec fn update_outcome(
    name: Seq<char>,
    content: Seq<u8>,
    forced: Option<FileType>,
    file: Option<Seq<u8>>,
    now: u64,
) -> Result<Baseline, Failure> {
    match name_check(name) {
        Err(f) => Err(f),
        Ok(_) => Ok(
            Baseline {
                details: Details {
                    name,
                    created_at: kept_creation(name, file, now),
                    updated_at: now,
                    content_hash: hash_text(content),
                    size: content.len() as usize,
                    file_type: stored_type(forced, content),
                },
                content,
            },
        ),
    }
}

/// The view of optional bytes.
pub open spec fn bytes_view(file: Option<&[u8]>) -> Option<Seq<u8>> {
    match file {
        Some(bytes) => Some(bytes@),
        None => None,
    }
}

/// The type to store `content` as.
fn type_for(forced: Option<FileType>, content: &[u8]) -> (r: FileType)
    ensures
        r == stored_type(forced, content@),
{
    match forced {
        Some(t) => t,
        None => detect_content_type(content),
    }
}

// ---------------------------------------------------------------------------
// Check
// ---------------------------------------------------------------------------

/// The mathematical value of a `DiffOutput`.
pub enum Difference {
    Text { script: Seq<LineEdit>, old_lines: nat, new_lines: nat },
    Json { changes: Seq<ChangeModel> },
    Binary { differences: Seq<ByteDifference>, old_size: nat, new_size: nat },
}

/// The mathematical value of a `CompareResult`.
pub enum Verdict {
    Match,
    Mismatch { snapshot: Baseline, actual: Seq<u8>, diff: Difference },
    Updated { old_snapshot: Baseline, new_content: Seq<u8> },
}

impl View for DiffOutput {
    type V = Difference;

    open spec fn view(&self) -> Difference {
        match self {
            DiffOutput::Text(r) => Difference::Text {
                script: r.script(),
                old_lines: r.old_line_count as nat,
                new_lines: r.new_line_count as nat,
            },
            DiffOutput::Json(r) => Difference::Json { changes: r.report() },
            DiffOutput::Binary(r) => Difference::Binary {
                differences: r.differences@,
                old_size: r.old_size as nat,
                new_size: r.new_size as nat,
            },
        }
    }
}

impl View for CompareResult {
    type V = Verdict;

    open spec fn view(&self) -> Verdict {
        match self {
            CompareResult::Match => Verdict::Match,
            CompareResult::Mismatch { snapshot, actual, diff } => Verdict::Mismatch {
                snapshot: snapshot@,
                actual: actual@,
                diff: diff@,
            },
            CompareResult::Updated { old_snapshot, new_content } => Verdict::Updated {
                old_snapshot: old_snapshot@,
                new_content: new_content@,
            },
        }
    }
}

/// The text diff between two contents that are UTF-8.
pub open spec fn text_difference(expected: Seq<u8>, actual: Seq<u8>, context: usize) -> Difference {
    Difference::Text {
        script: text_diff(decode_utf8(expected), decode_utf8(actual), context),
        old_lines: lines_of(decode_utf8(expected)).len(),
        new_lines: lines_of(decode_utf8(actual)).len(),
    }
}

/// The diff between the content of a snapshot and the actual content,
/// compared as the given type: text and JSON need UTF-8 on both sides; JSON
/// that does not parse is compared as text.
pub open spec fn difference(
    file_type: FileType,
    expected: Seq<u8>,
    actual: Seq<u8>,
    context: usize,
) -> Result<Difference, Failure> {
    match file_type {
        FileType::Binary => Ok(
            Difference::Binary {
                differences: binary_diff(expected, actual),
                old_size: expected.len(),
                new_size: actual.len(),
            },
        ),
        _ => if !valid_utf8(expected) {
            Err(Failure::InvalidUtf8(utf8_error_text(expected)))
        } else if !valid_utf8(actual) {
            Err(Failure::InvalidUtf8(utf8_error_text(actual)))
        } else if file_type == FileType::Json {
            match json_diff(decode_utf8(expected), decode_utf8(actual)) {
                Ok(changes) => Ok(Difference::Json { changes }),
                Err(_) => Ok(text_difference(expected, actual, context)),
            }
        } else {
            Ok(text_difference(expected, actual, context))
        },
    }
}

/// What checking `actual` against the snapshot `name` gives: a failure to
/// read the snapshot; a match where the digests agree; otherwise, in update
/// mode, the snapshot as one to replace, whatever the two contents hold;
/// otherwise the diff by the forced type or else the stored one, reported as
/// a mismatch.
pub open spec fn check_outcome(
    name: Seq<char>,
    file: Option<Seq<u8>>,
    actual: Seq<u8>,
    config: SnapshotConfig,
) -> Result<Verdict, Failure> {
    match read_outcome(name, file) {
        Err(f) => Err(f),
        Ok(b) => if b.details.content_hash == hash_text(actual) {
            Ok(Verdict::Match)
        } else if config.update_mode {
            Ok(Verdict::Updated { old_snapshot: b, new_content: actual })
        } else {
            let file_type = match config.file_type {
                Some(t) => t,
                None => b.details.file_type,
            };
            match difference(file_type, b.content, actual, config.context_lines) {
                Err(f) => Err(f),
                Ok(diff) => Ok(Verdict::Mismatch { snapshot: b, actual, diff }),
            }
        },
    }
}

/// The view of the result of a check.
pub open spec fn verdict_outcome(r: Result<CompareResult, SnapshotError>) -> Result<
    Verdict,
    Failure,
> {
    match r {
        Ok(c) => Ok(c@),
        Err(e) => Err(e@),
    }
}

/// The view of the result of a diff.
pub open spec fn difference_outcome(r: Result<DiffOutput, SnapshotError>) -> Result<
    Difference,
    Failure,
> {
    match r {
        Ok(d) => Ok(d@),
        Err(e) => Err(e@),
    }
}

/// The diff between the content of a snapshot and the actual content.
pub fn diff_contents(
    file_type: FileType,
    expected: &[u8],
    actual: &[u8],
    config: &DiffConfig,
) -> (r: Result<DiffOutput, SnapshotError>)
    ensures
        difference_outcome(r) == difference(file_type, expected@, actual@, config.context_lines),
{
    match file_type {
        FileType::Binary => Ok(DiffOutput::Binary(diff_binary(expected, actual, config))),
        _ => {
            let expected_text = match utf8_text(expected) {
                Ok(s) => s,
                Err(m) => {
                    return Err(SnapshotError::InvalidUtf8(m));
                },
            };
            let actual_text = match utf8_text(actual) {
                Ok(s) => s,
                Err(m) => {
                    return Err(SnapshotError::InvalidUtf8(m));
                },
            };
            proof {
                vstd::utf8::encode_utf8_decode_utf8(expected_text@);
                vstd::utf8::encode_utf8_decode_utf8(actual_text@);
            }
            match file_type {
                FileType::Json => match diff_json(expected_text, actual_text, config) {
                    Ok(result) => Ok(DiffOutput::Json(result)),
                    Err(_) => Ok(DiffOutput::Text(diff_text(expected_text, actual_text, config))),
                },
                _ => Ok(DiffOutput::Text(diff_text(expected_text, actual_text, config))),
            }
        },
    }
}

// ---------------------------------------------------------------------------
// List and clean
// ---------------------------------------------------------------------------

/// Whether text `a` comes before text `b`, or is equal to it, in the order of
/// the code points.
pub open spec fn text_le(a: Seq<char>, b: Seq<char>) -> bool
    decreases a.len(),
{
    if a.len() == 0 {
        true
    } else if b.len() == 0 {
        false
    } else if a[0] != b[0] {
        a[0] < b[0]
    } else {
        text_le(a.skip(1), b.skip(1))
    }
}

/// `sorted` with `d` put in after every entry whose name is not greater.
pub open spec fn insert_by_name(sorted: Seq<Details>, d: Details) -> Seq<Details>
    decreases sorted.len(),
{
    if sorted.len() == 0 {
        seq![d]
    } else if text_le(sorted.last().name, d.name) {
        sorted.push(d)
    } else {
        insert_by_name(sorted.drop_last(), d).push(sorted.last())
    }
}

/// The entries of `s` by name; entries of the same name stay in their order.
pub open spec fn sorted_by_name(s: Seq<Details>) -> Seq<Details>
    decreases s.len(),
{
    if s.len() == 0 {
        Seq::empty()
    } else {
        insert_by_name(sorted_by_name(s.drop_last()), s.last())
    }
}

/// A file of the directory as its caller read it: its name and its bytes.
pub struct StoredFile {
    /// The name of the file, without the directory.
    pub name: String,
    /// What the file holds.
    pub content: Vec<u8>,
}

/// The mathematical value of a `StoredFile`.
pub struct FileModel {
    pub name: Seq<char>,
    pub content: Seq<u8>,
}

impl View for StoredFile {
    type V = FileModel;

    open spec fn view(&self) -> FileModel {
        FileModel { name: self.name@, content: self.content@ }
    }
}

/// The views of a sequence of files.
pub open spec fn file_models(files: Seq<StoredFile>) -> Seq<FileModel> {
    files.map_values(|f: StoredFile| f@)
}

/// The views of a sequence of metadata.
pub open spec fn details_of(list: Seq<SnapshotMetadata>) -> Seq<Details> {
    list.map_values(|m: SnapshotMetadata| m@)
}

/// Whether `file_name` is the name of a snapshot file: it ends in `.snap`.
pub open spec fn is_snapshot_file(file_name: Seq<char>) -> bool {
    file_name.len() >= 5 && file_name.skip(file_name.len() - 5) == ".snap"@
}

/// The metadata of the snapshots among the first `n` files, in the order of
/// the files: those of the files named `<name>.snap` that can be read as the
/// snapshot `name`.
pub open spec fn found(files: Seq<FileModel>, n: nat) -> Seq<Details>
    decreases n,
{
    if n == 0 || n > files.len() {
        Seq::empty()
    } else {
        let f = files[n - 1];
        let rest = found(files, (n - 1) as nat);
        if is_snapshot_file(f.name) {
            match read_outcome(f.name.take(f.name.len() - 5), Some(f.content)) {
                Ok(b) => rest.push(b.details),
                Err(_) => rest,
            }
        } else {
            rest
        }
    }
}

/// The listing of a directory: the metadata of its snapshots, by name.
pub open spec fn listing(files: Seq<FileModel>) -> Seq<Details> {
    sorted_by_name(found(files, files.len()))
}

/// Whether a file of the given name is among `files`.
pub open spec fn file_present(files: Seq<FileModel>, file_name: Seq<char>) -> bool {
    exists|i: int| 0 <= i < files.len() && (#[trigger] files[i]).name == file_name
}

/// The names that cleaning removes, from entry `i` of the listing on, `gone`
/// being those removed before: every listed name that is not to be kept. When
/// it is not a dry run, a name is removed only if it is valid and its file is
/// there; the first that is not ends the cleaning with a failure.
pub open spec fn cleaned(
    list: Seq<Details>,
    files: Seq<FileModel>,
    keep: Seq<Seq<char>>,
    dry_run: bool,
    i: int,
    gone: Seq<Seq<char>>,
) -> Result<Seq<Seq<char>>, Failure>
    decreases list.len() - i,
{
    if i < 0 || i >= list.len() {
        Ok(gone)
    } else {
        let name = list[i].name;
        if keep.contains(name) {
            cleaned(list, files, keep, dry_run, i + 1, gone)
        } else if dry_run {
            cleaned(list, files, keep, dry_run, i + 1, gone.push(name))
        } else {
            match name_check(name) {
                Err(f) => Err(f),
                Ok(_) => if !file_present(files, name + ".snap"@) || gone.contains(name) {
                    Err(Failure::NotFound(name))
                } else {
                    cleaned(list, files, keep, dry_run, i + 1, gone.push(name))
                },
            }
        }
    }
}

/// What cleaning a directory gives.
pub open spec fn clean_outcome(
    files: Seq<FileModel>,
    keep: Seq<Seq<char>>,
    dry_run: bool,
) -> Result<Seq<Seq<char>>, Failure> {
    cleaned(listing(files), files, keep, dry_run, 0, Seq::empty())
}

/// The views of a sequence of strings.
pub open spec fn names_of(v: Seq<String>) -> Seq<Seq<char>> {
    v.map_values(|s: String| s@)
}

/// The views of a sequence of string slices.
pub open spec fn kept_names(v: Seq<&str>) -> Seq<Seq<char>> {
    v.map_values(|s: &str| s@)
}

/// The view of the result of cleaning.
pub open spec fn names_outcome(r: Result<Vec<String>, SnapshotError>) -> Result<
    Seq<Seq<char>>,
    Failure,
> {
    match r {
        Ok(v) => Ok(names_of(v@)),
        Err(e) => Err(e@),
    }
}

/// Decides `text_le`.
fn chars_le(a: &Vec<char>, b: &Vec<char>) -> (r: bool)
    ensures
        r == text_le(a@, b@),
{
    let mut i: usize = 0;
    assert(a@.skip(0) == a@);
    assert(b@.skip(0) == b@);
    while i < a.len() && i < b.len()
        invariant
            i <= a.len(),
            i <= b.len(),
            text_le(a@, b@) == text_le(a@.skip(i as int), b@.skip(i as int)),
        decreases a.len() - i,
    {
        assert(a@.skip(i as int)[0] == a@[i as int]);
        assert(b@.skip(i as int)[0] == b@[i as int]);
        if a[i] != b[i] {
            return a[i] < b[i];
        }
        assert(a@.skip(i as int).skip(1) == a@.skip(i + 1));
        assert(b@.skip(i as int).skip(1) == b@.skip(i + 1));
        i += 1;
    }
    i >= a.len()
}

/// A copy of `m`.
fn copy_metadata(m: &SnapshotMetadata) -> (r: SnapshotMetadata)
    ensures
        r@ == m@,
{
    SnapshotMetadata {
        name: m.name.clone(),
        created_at: m.created_at,
        updated_at: m.updated_at,
        content_hash: m.content_hash.clone(),
        size: m.size,
        file_type: m.file_type,
    }
}

/// Puts `m` into a list that is sorted by name.
fn insert_metadata(sorted: &mut Vec<SnapshotMetadata>, m: SnapshotMetadata)
    ensures
        details_of(final(sorted)@) == insert_by_name(details_of(old(sorted)@), m@),
{
    let ghost before = details_of(sorted@);
    let name = to_chars(m.name.as_str());
    let mut at: usize = sorted.len();
    assert(before.take(at as int) == before);
    assert(before.skip(at as int) == Seq::<Details>::empty());
    while at > 0 && !chars_le(&to_chars(sorted[at - 1].name.as_str()), &name)
        invariant
            at <= sorted.len(),
            sorted@ == old(sorted)@,
            before == details_of(sorted@),
            name@ == m@.name,
            insert_by_name(before, m@) == insert_by_name(before.take(at as int), m@) + before.skip(
                at as int,
            ),
        decreases at,
    {
        proof {
            let head = before.take(at as int);
            assert(head.last() == before[at - 1]);
            assert(head.drop_last() == before.take(at - 1));
            assert(insert_by_name(head, m@) == insert_by_name(before.take(at - 1), m@).push(
                before[at - 1],
            ));
            assert(insert_by_name(before.take(at - 1), m@).push(before[at - 1]) + before.skip(
                at as int,
            ) == insert_by_name(before.take(at - 1), m@) + before.skip(at - 1));
        }
        at -= 1;
    }
    proof {
        let head = before.take(at as int);
        if at > 0 {
            assert(head.last() == before[at - 1]);
        }
        assert(insert_by_name(head, m@) == head.push(m@));
    }
    sorted.insert(at, m);
    assert(details_of(sorted@) == before.take(at as int).push(m@) + before.skip(at as int));
}

/// Whether `name` is among `keep`.
fn is_kept(keep: &[&str], name: &String) -> (r: bool)
    ensures
        r == kept_names(keep@).contains(name@),
{
    let n = to_chars(name.as_str());
    let mut i: usize = 0;
    while i < keep.len()
        invariant
            i <= keep.len(),
            n@ == name@,
            forall|k: int| 0 <= k < i ==> kept_names(keep@)[k] != name@,
        decreases keep.len() - i,
    {
        if same_chars(&to_chars(keep[i]), &n) {
            assert(kept_names(keep@)[i as int] == name@);
            return true;
        }
        i += 1;
    }
    false
}

/// Whether `name` is among `names`.
fn is_among(names: &Vec<String>, name: &String) -> (r: bool)
    ensures
        r == names_of(names@).contains(name@),
{
    let mut i: usize = 0;
    while i < names.len()
        invariant
            i <= names.len(),
            forall|k: int| 0 <= k < i ==> names_of(names@)[k] != name@,
        decreases names.len() - i,
    {
        if names[i] == *name {
            assert(names_of(names@)[i as int] == name@);
            return true;
        }
        i += 1;
    }
    false
}

/// Whether the file of the snapshot `name` is among `files`.
fn has_file(files: &Vec<StoredFile>, name: &String) -> (r: bool)
    ensures
        r == file_present(file_models(files@), name@ + ".snap"@),
{
    let mut wanted = to_chars(name.as_str());
    push_str(&mut wanted, ".snap");
    let mut i: usize = 0;
    while i < files.len()
        invariant
            i <= files.len(),
            wanted@ == name@ + ".snap"@,
            forall|k: int| 0 <= k < i ==> (#[trigger] file_models(files@)[k]).name != wanted@,
        decreases files.len() - i,
    {
        if same_chars(&to_chars(files[i].name.as_str()), &wanted) {
            assert(file_models(files@)[i as int].name == wanted@);
            return true;
        }
        i += 1;
    }
    false
}

impl SnapshotStore {
    /// Makes the snapshot `name` of `content` at time `now`. The caller
    /// stores it, replacing what was there.
    pub fn create(&self, name: &str, content: &[u8], config: &SnapshotConfig, now: u64) -> (r:
        Result<Snapshot, SnapshotError>)
        ensures
            snapshot_outcome(r) == create_outcome(name@, content@, config.file_type, now),
    {
        match Self::validate_name(name) {
            Err(e) => {
                return Err(e);
            },
            Ok(_) => {},
        }
        let metadata = SnapshotMetadata {
            name: text_of(name),
            created_at: now,
            updated_at: now,
            content_hash: Self::compute_hash(content),
            size: content.len(),
            file_type: type_for(config.file_type, content),
        };
        Ok(Snapshot { metadata, content: copy_bytes(content) })
    }

    /// Makes the snapshot `name` of `content` at time `now`, keeping the
    /// time of creation of the snapshot in `file`, the bytes of the existing
    /// file, if there is one that can be read.
    pub fn update(
        &self,
        name: &str,
        content: &[u8],
        config: &SnapshotConfig,
        file: Option<&[u8]>,
        now: u64,
    ) -> (r: Result<Snapshot, SnapshotError>)
        ensures
            snapshot_outcome(r) == update_outcome(
                name@,
                content@,
                config.file_type,
                bytes_view(file),
                now,
            ),
    {
        match Self::validate_name(name) {
            Err(e) => {
                return Err(e);
            },
            Ok(_) => {},
        }
        let created_at: u64 = match file {
            Some(bytes) => match self.read(name, Some(bytes)) {
                Ok(existing) => existing.metadata.created_at,
                Err(_) => now,
            },
            None => now,
        };
        let metadata = SnapshotMetadata {
            name: text_of(name),
            created_at,
            updated_at: now,
            content_hash: Self::compute_hash(content),
            size: content.len(),
            file_type: type_for(config.file_type, content),
        };
        Ok(Snapshot { metadata, content: copy_bytes(content) })
    }

    /// Compares `actual` with the snapshot `name`, `file` being the bytes of
    /// its file if the file exists. On `Updated` the caller stores what
    /// `update` makes of `actual`.
    pub fn check(
        &self,
        name: &str,
        file: Option<&[u8]>,
        actual: &[u8],
        config: &SnapshotConfig,
    ) -> (r: Result<CompareResult, SnapshotError>)
        ensures
            verdict_outcome(r) == check_outcome(name@, bytes_view(file), actual@, *config),
    {
        let snapshot = match self.read(name, file) {
            Ok(s) => s,
            Err(e) => {
                return Err(e);
            },
        };
        let actual_hash = Self::compute_hash(actual);
        if snapshot.metadata.content_hash == actual_hash {
            return Ok(CompareResult::Match);
        }
        if config.update_mode {
            return Ok(
                CompareResult::Updated { old_snapshot: snapshot, new_content: copy_bytes(actual) },
            );
        }
        let diff_config = DiffConfig {
            context_lines: config.context_lines,
            format: OutputFormat::Unified,
            color: config.color,
            verbose: false,
        };
        let file_type = match config.file_type {
            Some(t) => t,
            None => snapshot.metadata.file_type,
        };
        let diff = match diff_contents(
            file_type,
            snapshot.content.as_slice(),
            actual,
            &diff_config,
        ) {
            Ok(d) => d,
            Err(e) => {
                return Err(e);
            },
        };
        Ok(CompareResult::Mismatch { snapshot, actual: copy_bytes(actual), diff })
    }

    /// Decides whether the snapshot `name` may be deleted, `present` telling
    /// whether its file exists. On success the caller removes the file.
    pub fn delete(&self, name: &str, present: bool) -> (r: Result<(), SnapshotError>)
        ensures
            unit_outcome(r) == (match name_check(name@) {
                Err(f) => Err(f),
                Ok(_) => if present {
                    Ok(())
                } else {
                    Err(Failure::NotFound(name@))
                },
            }),
    {
        match Self::validate_name(name) {
            Err(e) => {
                return Err(e);
            },
            Ok(_) => {},
        }
        if !present {
            return Err(SnapshotError::NotFound(text_of(name)));
        }
        Ok(())
    }

    /// Whether the snapshot `name` exists, `present` telling whether its
    /// file does: an invalid name is refused.
    pub fn snapshot_exists(&self, name: &str, present: bool) -> (r: Result<bool, SnapshotError>)
        ensures
            match r {
                Ok(b) => name_check(name@) is Ok && b == present,
                Err(e) => name_check(name@) == Err::<(), Failure>(e@),
            },
    {
        match Self::validate_name(name) {
            Err(e) => Err(e),
            Ok(_) => Ok(present),
        }
    }

    /// The metadata of the snapshots among the files of the directory, by
    /// name. Files that are no snapshots are passed over.
    pub fn list(&self, files: &Vec<StoredFile>) -> (r: Vec<SnapshotMetadata>)
        ensures
            details_of(r@) == listing(file_models(files@)),
    {
        let ghost all = file_models(files@);
        let mut unsorted: Vec<SnapshotMetadata> = Vec::new();
        let suffix = to_chars(".snap");
        proof {
            reveal_strlit(".snap");
            assert(suffix@.len() == 5);
        }
        let mut i: usize = 0;
        assert(details_of(unsorted@) =~= found(all, 0));
        while i < files.len()
            invariant
                i <= files.len(),
                all == file_models(files@),
                suffix@ == ".snap"@,
                suffix@.len() == 5,
                details_of(unsorted@) == found(all, i as nat),
            decreases files.len() - i,
        {
            let ghost before = details_of(unsorted@);
            let file_name = to_chars(files[i].name.as_str());
            assert(all[i as int] == files@[i as int]@);
            if file_name.len() >= 5 && starts_at(
                &file_name,
                file_name.len() - 5,
                &suffix,
            ) {
                assert(file_name@.skip(file_name.len() - 5) == file_name@.subrange(
                    file_name.len() - 5,
                    file_name.len() as int,
                ));
                let stem = from_chars(&slice_of(&file_name, 0, file_name.len() - 5));
                assert(stem@ == file_name@.take(file_name.len() - 5));
                match self.read(stem.as_str(), Some(files[i].content.as_slice())) {
                    Ok(snapshot) => {
                        let m = snapshot.metadata;
                        unsorted.push(m);
                        assert(details_of(unsorted@) =~= before.push(m@));
                    },
                    Err(_) => {},
                }
            } else {
                if file_name.len() >= 5 {
                    assert(file_name@.skip(file_name.len() - 5) == file_name@.subrange(
                        file_name.len() - 5,
                        file_name.len() as int,
                    ));
                }
            }
            i += 1;
        }
        let ghost listed = details_of(unsorted@);
        let mut sorted: Vec<SnapshotMetadata> = Vec::new();
        let mut k: usize = 0;
        assert(listed.take(0) == Seq::<Details>::empty());
        assert(details_of(sorted@) =~= sorted_by_name(listed.take(0)));
        while k < unsorted.len()
            invariant
                k <= unsorted.len(),
                listed == details_of(unsorted@),
                details_of(sorted@) == sorted_by_name(listed.take(k as int)),
            decreases unsorted.len() - k,
        {
            assert(listed.take(k + 1).drop_last() == listed.take(k as int));
            assert(listed.take(k + 1).last() == unsorted@[k as int]@);
            insert_metadata(&mut sorted, copy_metadata(&unsorted[k]));
            k += 1;
        }
        assert(listed.take(k as int) == listed);
        sorted
    }

    /// The names of the snapshots that cleaning removes: those listed whose
    /// name is not among `valid_names`. On a dry run nothing is to be
    /// removed; otherwise the caller removes the files of the names
    /// returned, and a name that is invalid, or whose file is not there,
    /// ends the cleaning with a failure.
    pub fn clean(&self, files: &Vec<StoredFile>, valid_names: &[&str], dry_run: bool) -> (r: Result<
        Vec<String>,
        SnapshotError,
    >)
        ensures
            names_outcome(r) == clean_outcome(
                file_models(files@),
                kept_names(valid_names@),
                dry_run,
            ),
    {
        let all = self.list(files);
        let ghost list = details_of(all@);
        let ghost fm = file_models(files@);
        let ghost keep = kept_names(valid_names@);
        let mut deleted: Vec<String> = Vec::new();
        let mut i: usize = 0;
        assert(names_of(deleted@) =~= Seq::<Seq<char>>::empty());
        while i < all.len()
            invariant
                i <= all.len(),
                list == details_of(all@),
                fm == file_models(files@),
                keep == kept_names(valid_names@),
                clean_outcome(fm, keep, dry_run) == cleaned(
                    list,
                    fm,
                    keep,
                    dry_run,
                    i as int,
                    names_of(deleted@),
                ),
            decreases all.len() - i,
        {
            let ghost gone = names_of(deleted@);
            let name = &all[i].name;
            assert(list[i as int].name == name@);
            if !is_kept(valid_names, name) {
                if !dry_run {
                    match Self::validate_name(name.as_str()) {
                        Err(e) => {
                            return Err(e);
                        },
                        Ok(_) => {},
                    }
                    if !has_file(files, name) || is_among(&deleted, name) {
                        return Err(SnapshotError::NotFound(name.clone()));
                    }
                }
                deleted.push(name.clone());
                assert(names_of(deleted@) =~= gone.push(name@));
            }
            i += 1;
        }
        Ok(deleted)
    }
}

} // verus!

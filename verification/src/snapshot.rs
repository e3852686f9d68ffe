//! Snapshots: named baselines of content, with the metadata kept for each,
//! the rule for their names and the digest of their content.

use vstd::prelude::*;
use crate::binary_diff::BinaryDiffResult;
use crate::filetype::FileType;
use crate::format::{
    binary_text, format_binary_diff_with_color, format_json_diff_with_color,
    format_unified_diff_with_color, json_diff_text, unified_text,
};
use crate::json_diff::JsonDiffResult;
use crate::text::{from_chars, hex, push_all, push_hex, push_str, text_of, to_chars};
use crate::text_diff::{any_change, TextDiffResult};

verus! {

/// Header lines that a snapshot file may have at most.
pub const MAX_HEADER_LINES: usize = 100;

/// Bytes that one header line may have at most, its line break included.
pub const MAX_HEADER_LINE_LENGTH: usize = 1024;

/// Bytes of content that a snapshot file may have at most.
pub const MAX_CONTENT_SIZE: usize = 104857600;

/// Options of the snapshot operations.
#[derive(Debug, Clone)]
pub struct SnapshotConfig {
    /// The type to store and compare content as; `None` classifies it.
    pub file_type: Option<FileType>,
    /// Whether diffs are coloured.
    pub color: bool,
    /// Unchanged lines kept around a change in a text diff.
    pub context_lines: usize,
    /// Whether a mismatch replaces the snapshot instead of being reported.
    pub update_mode: bool,
}

impl Default for SnapshotConfig {
    fn default() -> (r: Self)
        ensures
            r.file_type is None,
            !r.color,
            r.context_lines == 3,
            !r.update_mode,
    {
        SnapshotConfig { file_type: None, color: false, context_lines: 3, update_mode: false }
    }
}

/// Why a snapshot operation failed.
#[derive(Debug, Clone, PartialEq, Eq)]
pub enum SnapshotError {
    /// No snapshot of this name.
    NotFound(String),
    /// Reading or writing failed.
    IoError(String),
    /// The name breaks the rule for names.
    InvalidName(String),
    /// The snapshot file is damaged or exceeds a limit.
    CorruptedSnapshot(String),
    /// Content to compare as text is not UTF-8.
    InvalidUtf8(String),
}

/// The mathematical value of a `SnapshotError`.
pub enum Failure {
    NotFound(Seq<char>),
    IoError(Seq<char>),
    InvalidName(Seq<char>),
    CorruptedSnapshot(Seq<char>),
    InvalidUtf8(Seq<char>),
}

impl View for SnapshotError {
    type V = Failure;

    open spec fn view(&self) -> Failure {
        match *self {
            SnapshotError::NotFound(s) => Failure::NotFound(s@),
            SnapshotError::IoError(s) => Failure::IoError(s@),
            SnapshotError::InvalidName(s) => Failure::InvalidName(s@),
            SnapshotError::CorruptedSnapshot(s) => Failure::CorruptedSnapshot(s@),
            SnapshotError::InvalidUtf8(s) => Failure::InvalidUtf8(s@),
        }
    }
}

/// The one-line description of a failure.
pub open spec fn failure_text(f: Failure) -> Seq<char> {
    match f {
        Failure::NotFound(s) => "Snapshot not found: "@ + s,
        Failure::IoError(s) => "IO error: "@ + s,
        Failure::InvalidName(s) => "Invalid snapshot name: "@ + s,
        Failure::CorruptedSnapshot(s) => "Corrupted snapshot: "@ + s,
        Failure::InvalidUtf8(s) => "Invalid UTF-8: "@ + s,
    }
}

impl SnapshotError {
    /// The one-line description of the error.
    pub fn to_string(&self) -> (r: String)
        ensures
            r@ == failure_text(self@),
    {
        let mut out: Vec<char> = Vec::new();
        match self {
            SnapshotError::NotFound(s) => {
                push_str(&mut out, "Snapshot not found: ");
                assert(out@ == "Snapshot not found: "@);
                push_str(&mut out, s.as_str());
            },
            SnapshotError::IoError(s) => {
                push_str(&mut out, "IO error: ");
                assert(out@ == "IO error: "@);
                push_str(&mut out, s.as_str());
            },
            SnapshotError::InvalidName(s) => {
                push_str(&mut out, "Invalid snapshot name: ");
                assert(out@ == "Invalid snapshot name: "@);
                push_str(&mut out, s.as_str());
            },
            SnapshotError::CorruptedSnapshot(s) => {
                push_str(&mut out, "Corrupted snapshot: ");
                assert(out@ == "Corrupted snapshot: "@);
                push_str(&mut out, s.as_str());
            },
            SnapshotError::InvalidUtf8(s) => {
                push_str(&mut out, "Invalid UTF-8: ");
                assert(out@ == "Invalid UTF-8: "@);
                push_str(&mut out, s.as_str());
            },
        }
        from_chars(&out)
    }
}

/// The one-line description of an error, for a caller that reports it.
pub fn format_error(e: SnapshotError) -> (r: String)
    ensures
        r@ == failure_text(e@),
{
    e.to_string()
}

/// What is kept about a snapshot besides its content.
#[derive(Debug, Clone, PartialEq, Eq)]
pub struct SnapshotMetadata {
    /// The name of the snapshot.
    pub name: String,
    /// When it was first created, in seconds since the Unix epoch.
    pub created_at: u64,
    /// When its content last changed, in seconds since the Unix epoch.
    pub updated_at: u64,
    /// The digest of the content, as sixteen hexadecimal digits.
    pub content_hash: String,
    /// The length of the content in bytes.
    pub size: usize,
    /// The type of the content.
    pub file_type: FileType,
}

/// The mathematical value of a `SnapshotMetadata`.
pub struct Details {
    pub name: Seq<char>,
    pub created_at: u64,
    pub updated_at: u64,
    pub content_hash: Seq<char>,
    pub size: usize,
    pub file_type: FileType,
}

impl View for SnapshotMetadata {
    type V = Details;

    open spec fn view(&self) -> Details {
        Details {
            name: self.name@,
            created_at: self.created_at,
            updated_at: self.updated_at,
            content_hash: self.content_hash@,
            size: self.size,
            file_type: self.file_type,
        }
    }
}

/// A stored baseline.
#[derive(Debug, Clone)]
pub struct Snapshot {
    /// What is kept about it.
    pub metadata: SnapshotMetadata,
    /// Its content.
    pub content: Vec<u8>,
}

/// The mathematical value of a `Snapshot`.
pub struct Baseline {
    pub details: Details,
    pub content: Seq<u8>,
}

impl View for Snapshot {
    type V = Baseline;

    open spec fn view(&self) -> Baseline {
        Baseline { details: self.metadata@, content: self.content@ }
    }
}

/// The invariant of a snapshot: digest and size are those of the content.
pub open spec fn consistent(b: Baseline) -> bool {
    &&& b.details.content_hash == hash_text(b.content)
    &&& b.details.size == b.content.len()
}

// ---------------------------------------------------------------------------
// Names
// ---------------------------------------------------------------------------

/// The characters a name may be made of: ASCII letters and digits, `-`, `_`
/// and `.`.
pub open spec fn is_name_char(c: char) -> bool {
    ('a' <= c <= 'z') || ('A' <= c <= 'Z') || ('0' <= c <= '9') || c == '-' || c == '_' || c == '.'
}

/// Whether `c` occurs in `s`.
pub open spec fn has_char(s: Seq<char>, c: char) -> bool {
    exists|i: int| 0 <= i < s.len() && #[trigger] s[i] == c
}

/// Whether `s` holds two dots in a row.
pub open spec fn has_dot_dot(s: Seq<char>) -> bool {
    exists|i: int| 0 <= i && i + 1 < s.len() && #[trigger] s[i] == '.' && s[i + 1] == '.'
}

/// What is wrong with a name, if anything: it is empty; it holds `..`, `/` or
/// `\`; it holds a null character; it holds a character that no name may
/// have.
pub open spec fn name_problem(name: Seq<char>) -> Option<Seq<char>> {
    if name.len() == 0 {
        Some("Snapshot name cannot be empty"@)
    } else if has_dot_dot(name) || has_char(name, '/') || has_char(name, '\\') {
        Some("Snapshot name contains invalid characters: "@ + name)
    } else if has_char(name, '\0') {
        Some("Snapshot name contains null bytes"@)
    } else if !(forall|i: int| 0 <= i < name.len() ==> is_name_char(#[trigger] name[i])) {
        Some(
            "Snapshot name contains invalid characters: "@ + name
                + ". Use alphanumeric, -, _, or ."@,
        )
    } else {
        None
    }
}

/// Whether a name may be used: it is not empty and made of name characters
/// only, without two dots in a row.
pub open spec fn valid_name(name: Seq<char>) -> bool {
    &&& name.len() > 0
    &&& !has_dot_dot(name)
    &&& forall|i: int| 0 <= i < name.len() ==> is_name_char(#[trigger] name[i])
}

/// A name has no problem exactly if it is valid.
pub proof fn lemma_valid_name(name: Seq<char>)
    ensures
        name_problem(name) is None <==> valid_name(name),
{
    if valid_name(name) {
        if has_char(name, '/') {
            let i = choose|i: int| 0 <= i < name.len() && #[trigger] name[i] == '/';
            assert(is_name_char(name[i]));
        }
        if has_char(name, '\\') {
            let i = choose|i: int| 0 <= i < name.len() && #[trigger] name[i] == '\\';
            assert(is_name_char(name[i]));
        }
        if has_char(name, '\0') {
            let i = choose|i: int| 0 <= i < name.len() && #[trigger] name[i] == '\0';
            assert(is_name_char(name[i]));
        }
    }
}

/// Decides `has_char`.
fn contains_char(s: &Vec<char>, c: char) -> (r: bool)
    ensures
        r == has_char(s@, c),
{
    let mut i: usize = 0;
    while i < s.len()
        invariant
            i <= s.len(),
            forall|k: int| 0 <= k < i ==> #[trigger] s@[k] != c,
        decreases s.len() - i,
    {
        if s[i] == c {
            return true;
        }
        i += 1;
    }
    false
}

/// Decides `has_dot_dot`.
fn contains_dot_dot(s: &Vec<char>) -> (r: bool)
    ensures
        r == has_dot_dot(s@),
{
    let mut i: usize = 1;
    while i < s.len()
        invariant
            1 <= i,
            forall|k: int| 0 <= k && k + 1 < i && k + 1 < s.len() ==> !(#[trigger] s@[k] == '.'
                && s@[k + 1] == '.'),
        decreases s.len() - i,
    {
        if s[i - 1] == '.' && s[i] == '.' {
            return true;
        }
        i += 1;
    }
    false
}

/// Decides whether all characters are name characters.
fn only_name_chars(s: &Vec<char>) -> (r: bool)
    ensures
        r == (forall|i: int| 0 <= i < s.len() ==> is_name_char(#[trigger] s@[i])),
{
    let mut i: usize = 0;
    while i < s.len()
        invariant
            i <= s.len(),
            forall|k: int| 0 <= k < i ==> is_name_char(#[trigger] s@[k]),
        decreases s.len() - i,
    {
        let c = s[i];
        let ok = ('a' <= c && c <= 'z') || ('A' <= c && c <= 'Z') || ('0' <= c && c <= '9') || c
            == '-' || c == '_' || c == '.';
        if !ok {
            return false;
        }
        i += 1;
    }
    true
}

/// Where snapshots are kept. The store decides and computes; reading and
/// writing the files is left to its caller, who hands their content in and
/// writes what the store returns.
#[derive(Debug, Clone)]
pub struct SnapshotStore {
    base_dir: String,
}

/// What checking a name gives.
pub open spec fn name_check(name: Seq<char>) -> Result<(), Failure> {
    match name_problem(name) {
        Some(message) => Err(Failure::InvalidName(message)),
        None => Ok(()),
    }
}

/// The view of a result that carries nothing on success.
pub open spec fn unit_outcome(r: Result<(), SnapshotError>) -> Result<(), Failure> {
    match r {
        Ok(_) => Ok(()),
        Err(e) => Err(e@),
    }
}

impl SnapshotStore {
    /// A store for the given directory.
    pub fn new(base_dir: String) -> (r: Self)
        ensures
            r.directory() == base_dir@,
    {
        SnapshotStore { base_dir }
    }

    /// The directory of the store.
    pub closed spec fn directory(&self) -> Seq<char> {
        self.base_dir@
    }

    /// The directory of the store.
    pub fn base_dir(&self) -> (r: &str)
        ensures
            r@ == self.directory(),
    {
        self.base_dir.as_str()
    }

    /// The file of a snapshot, relative to the directory of the store: the
    /// name followed by `.snap`, for a valid name.
    pub fn snapshot_path(&self, name: &str) -> (r: Result<String, SnapshotError>)
        ensures
            match r {
                Ok(path) => name_check(name@) is Ok && path@ == name@ + ".snap"@,
                Err(e) => name_check(name@) == Err::<(), Failure>(e@),
            },
    {
        match Self::validate_name(name) {
            Err(e) => Err(e),
            Ok(_) => {
                let mut path = to_chars(name);
                push_str(&mut path, ".snap");
                Ok(from_chars(&path))
            },
        }
    }

    /// Checks a snapshot name.
    pub fn validate_name(name: &str) -> (r: Result<(), SnapshotError>)
        ensures
            unit_outcome(r) == name_check(name@),
    {
        let chars = to_chars(name);
        if chars.len() == 0 {
            return Err(SnapshotError::InvalidName(text_of("Snapshot name cannot be empty")));
        }
        if contains_dot_dot(&chars) || contains_char(&chars, '/') || contains_char(&chars, '\\') {
            let mut m: Vec<char> = Vec::new();
            push_str(&mut m, "Snapshot name contains invalid characters: ");
            assert(m@ == "Snapshot name contains invalid characters: "@);
            push_all(&mut m, &chars);
            return Err(SnapshotError::InvalidName(from_chars(&m)));
        }
        if contains_char(&chars, '\0') {
            return Err(SnapshotError::InvalidName(text_of("Snapshot name contains null bytes")));
        }
        if !only_name_chars(&chars) {
            let mut m: Vec<char> = Vec::new();
            push_str(&mut m, "Snapshot name contains invalid characters: ");
            assert(m@ == "Snapshot name contains invalid characters: "@);
            push_all(&mut m, &chars);
            push_str(&mut m, ". Use alphanumeric, -, _, or .");
            return Err(SnapshotError::InvalidName(from_chars(&m)));
        }
        Ok(())
    }

    /// The digest of `content`.
    pub fn compute_hash(content: &[u8]) -> (r: String)
        ensures
            r@ == hash_text(content@),
    {
        let mut hash: u64 = FNV_OFFSET;
        let mut i: usize = 0;
        assert(content@.take(0) == Seq::<u8>::empty());
        while i < content.len()
            invariant
                i <= content.len(),
                hash == fnv1a(content@.take(i as int)),
            decreases content.len() - i,
        {
            assert(content@.take(i + 1).drop_last() == content@.take(i as int));
            hash = (hash ^ (content[i] as u64)).wrapping_mul(FNV_PRIME);
            i += 1;
        }
        assert(content@.take(i as int) == content@);
        let mut out: Vec<char> = Vec::new();
        push_hex(&mut out, hash, 16);
        assert(out@ == hex(hash as nat, 16));
        from_chars(&out)
    }
}

// ---------------------------------------------------------------------------
// Digest
// ---------------------------------------------------------------------------

/// Where the FNV-1a digest starts.
pub const FNV_OFFSET: u64 = 0xcbf29ce484222325;

/// What the FNV-1a digest is multiplied by after each byte.
pub const FNV_PRIME: u64 = 0x100000001b3;

/// The 64-bit FNV-1a digest of `bytes`: from the offset basis, each byte is
/// xor-ed in and the result multiplied by the prime, modulo 2^64.
pub open spec fn fnv1a(bytes: Seq<u8>) -> u64
    decreases bytes.len(),
{
    if bytes.len() == 0 {
        FNV_OFFSET
    } else {
        (fnv1a(bytes.drop_last()) ^ (bytes.last() as u64)).wrapping_mul(FNV_PRIME)
    }
}

/// The digest as it is stored: sixteen lower-case hexadecimal digits.
pub open spec fn hash_text(bytes: Seq<u8>) -> Seq<char> {
    hex(fnv1a(bytes) as nat, 16)
}

// ---------------------------------------------------------------------------
// Outcomes of a comparison
// ---------------------------------------------------------------------------

/// The diff that a mismatch comes with.
#[derive(Debug)]
pub enum DiffOutput {
    /// Lines.
    Text(TextDiffResult),
    /// Values.
    Json(JsonDiffResult),
    /// Bytes.
    Binary(BinaryDiffResult),
}

impl DiffOutput {
    /// The rendering of the diff for the snapshot of the given name.
    pub open spec fn rendering(&self, snapshot_name: Seq<char>, color: bool) -> Seq<char> {
        match self {
            DiffOutput::Text(r) => unified_text(
                r.script(),
                snapshot_name + ".snap"@,
                "actual"@,
                color,
            ),
            DiffOutput::Json(r) => json_diff_text(r.report(), color),
            DiffOutput::Binary(r) => binary_text(
                r.differences@,
                r.old_size as nat,
                r.new_size as nat,
                color,
            ),
        }
    }

    /// Whether the diff records a difference.
    pub open spec fn differs(&self) -> bool {
        match self {
            DiffOutput::Text(r) => any_change(r.script()),
            DiffOutput::Json(r) => r.report().len() > 0,
            DiffOutput::Binary(r) => r.differences@.len() > 0,
        }
    }

    /// Renders the diff: a text diff as a unified listing between the
    /// snapshot file and `actual`, the others as their own listings.
    pub fn format(&self, snapshot_name: &str, color: bool) -> (r: String)
        ensures
            r@ == self.rendering(snapshot_name@, color),
    {
        match self {
            DiffOutput::Text(result) => {
                let mut file: Vec<char> = to_chars(snapshot_name);
                push_str(&mut file, ".snap");
                let file_name = from_chars(&file);
                format_unified_diff_with_color(result, file_name.as_str(), "actual", color)
            },
            DiffOutput::Json(result) => format_json_diff_with_color(result, color),
            DiffOutput::Binary(result) => format_binary_diff_with_color(result, color),
        }
    }

    /// Whether the diff records a difference.
    pub fn has_changes(&self) -> (r: bool)
        ensures
            r == self.differs(),
    {
        match self {
            DiffOutput::Text(r) => r.has_changes(),
            DiffOutput::Json(r) => r.has_changes(),
            DiffOutput::Binary(r) => !r.is_identical(),
        }
    }
}

/// What comparing content against a snapshot gave.
#[derive(Debug)]
pub enum CompareResult {
    /// The content is that of the snapshot.
    Match,
    /// The content differs.
    Mismatch {
        /// The snapshot compared against.
        snapshot: Snapshot,
        /// The content compared.
        actual: Vec<u8>,
        /// How the two differ.
        diff: DiffOutput,
    },
    /// The content differs and replaces that of the snapshot.
    Updated {
        /// The snapshot as it was.
        old_snapshot: Snapshot,
        /// The content that replaces it.
        new_content: Vec<u8>,
    },
}

impl CompareResult {
    /// Whether the content matched.
    pub fn matches(&self) -> (r: bool)
        ensures
            r == (*self is Match),
    {
        match self {
            CompareResult::Match => true,
            _ => false,
        }
    }

    /// Whether the snapshot is to be replaced.
    pub fn was_updated(&self) -> (r: bool)
        ensures
            r == (*self is Updated),
    {
        match self {
            CompareResult::Updated { .. } => true,
            _ => false,
        }
    }

    /// The diff of a mismatch.
    pub fn diff(&self) -> (r: Option<&DiffOutput>)
        ensures
            match *self {
                CompareResult::Mismatch { diff, .. } => r == Some(&diff),
                _ => r is None,
            },
    {
        match self {
            CompareResult::Mismatch { diff, .. } => Some(diff),
            _ => None,
        }
    }
}

} // verus!

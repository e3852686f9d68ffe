//! Comparison of text, structured data and bytes, named baselines of content
//! to compare later output against, and the small tools around them: a lock
//! kept as a file, a framed message protocol and a text processor.
//!
//! Every function states what it returns over the mathematical value of its
//! arguments. What follows for all inputs is proved in the proof functions
//! whose name starts with `lemma_`: short ones beside the functions they
//! speak of, the others in the modules whose name ends in `_laws`.
//!
//! Nothing here reads a clock or touches a file: a function that needs the
//! time, or what a file holds, takes it as an argument, and one that changes
//! a file returns what is to be written.

pub mod binary_diff;
pub mod bytes;
pub mod diff_error;
pub mod envelope;
pub mod envelope_laws;
pub mod filetype;
pub mod format;
pub mod json;
pub mod json_diff;
pub mod json_diff_laws;
pub mod lock;
pub mod lock_laws;
pub mod protocol;
pub mod snapshot;
pub mod snapshot_laws;
pub mod store;
pub mod store_laws;
pub mod text;
pub mod text_diff;
pub mod text_diff_laws;
pub mod tool;

pub use binary_diff::{diff_binary, BinaryDiffResult, ByteDifference};
pub use diff_error::DiffError;
pub use filetype::{
    detect_content_type, detect_file_type, detect_with_hint, pair_file_types, FileType,
};
pub use format::{
    escape_json_string, format_as_json_report, format_binary_diff,
    format_binary_diff_with_color, format_compact, format_json_diff,
    format_json_diff_with_color, format_json_value, format_result, format_side_by_side,
    format_unified_diff,
    format_unified_diff_with_color, json_type_name, truncate_to_width, DiffResult,
};
pub use json::{parse_json, JsonError, JsonValue};
pub use json_diff::{compare_json_values, diff_json, JsonChange, JsonDiffResult};
pub use lock::{
    AcquireStep, CreateOutcome, LockInfo, ParentDir, Semaphore, SemaphoreConfig, SemaphoreError,
    SemaphoreGuard,
};
pub use protocol::{
    decode, encode, hex_to_bytes, read_message, write_message, Message, MessageType,
    ProtocolError, MAGIC, MAX_PAYLOAD_SIZE, VERSION,
};
pub use snapshot::{
    format_error, CompareResult, DiffOutput, Snapshot, SnapshotConfig, SnapshotError,
    SnapshotMetadata, SnapshotStore, MAX_CONTENT_SIZE, MAX_HEADER_LINES, MAX_HEADER_LINE_LENGTH,
};
pub use store::{diff_contents, StoredFile};
pub use text_diff::{
    build_changes_from_lcs, compute_lcs, diff_text, DiffConfig, LineChange, OutputFormat,
    TextDiffResult,
};
pub use tool::{experiment, process, process_strict, Config, ProcessError};

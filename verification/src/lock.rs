//! A lock kept as a file: what the file holds, when a lock counts as stale,
//! and what to do after each attempt to take it. Creating, reading and
//! removing the file is left to the caller.

use vstd::prelude::*;
use crate::text::{
    decimal, from_chars, is_text, lines_of, parse_u64, push_all, push_decimal, push_str,
    slice_of, split_lines, text_of, texts, to_chars, trim, trimmed, unsigned_value,
};

verus! {

/// Why a lock operation failed.
#[derive(Debug)]
pub enum SemaphoreError {
    /// The lock is held; by whom and since when, if the lock file tells.
    AlreadyLocked { holder_pid: Option<u32>, locked_since: Option<u64> },
    /// The path of the lock file cannot be used.
    InvalidPath(String),
    /// Reading or writing failed.
    IoError(String),
    /// There was no lock to release.
    NotLocked,
    /// The lock did not become free in time.
    Timeout,
    /// The lock file holds no lock information.
    ParseError(String),
}

/// The mathematical value of a `SemaphoreError`.
pub enum LockFailure {
    AlreadyLocked { holder_pid: Option<u32>, locked_since: Option<u64> },
    InvalidPath(Seq<char>),
    IoError(Seq<char>),
    NotLocked,
    Timeout,
    ParseError(Seq<char>),
}

impl View for SemaphoreError {
    type V = LockFailure;

    open spec fn view(&self) -> LockFailure {
        match *self {
            SemaphoreError::AlreadyLocked { holder_pid, locked_since } => {
                LockFailure::AlreadyLocked { holder_pid, locked_since }
            },
            SemaphoreError::InvalidPath(s) => LockFailure::InvalidPath(s@),
            SemaphoreError::IoError(s) => LockFailure::IoError(s@),
            SemaphoreError::NotLocked => LockFailure::NotLocked,
            SemaphoreError::Timeout => LockFailure::Timeout,
            SemaphoreError::ParseError(s) => LockFailure::ParseError(s@),
        }
    }
}

/// `out` followed by `label` and the number, if there is one.
pub open spec fn with_number(out: Seq<char>, label: Seq<char>, n: Option<nat>) -> Seq<char> {
    match n {
        Some(v) => out + label + decimal(v),
        None => out,
    }
}

/// The one-line description of a lock failure.
pub open spec fn lock_failure_text(f: LockFailure) -> Seq<char> {
    match f {
        LockFailure::AlreadyLocked { holder_pid, locked_since } => with_number(
            with_number(
                "Lock already held"@,
                " by PID "@,
                match holder_pid {
                    Some(p) => Some(p as nat),
                    None => None,
                },
            ),
            " since "@,
            match locked_since {
                Some(t) => Some(t as nat),
                None => None,
            },
        ),
        LockFailure::InvalidPath(s) => "Invalid path: "@ + s,
        LockFailure::IoError(s) => "IO error: "@ + s,
        LockFailure::NotLocked => "Lock not held"@,
        LockFailure::Timeout => "Timeout waiting for lock"@,
        LockFailure::ParseError(s) => "Parse error: "@ + s,
    }
}

impl SemaphoreError {
    /// The one-line description of the error.
    pub fn to_string(&self) -> (r: String)
        ensures
            r@ == lock_failure_text(self@),
    {
        let mut out: Vec<char> = Vec::new();
        match self {
            SemaphoreError::AlreadyLocked { holder_pid, locked_since } => {
                push_str(&mut out, "Lock already held");
                assert(out@ == "Lock already held"@);
                match holder_pid {
                    Some(pid) => {
                        push_str(&mut out, " by PID ");
                        push_decimal(&mut out, *pid as u128);
                    },
                    None => {},
                }
                match locked_since {
                    Some(since) => {
                        push_str(&mut out, " since ");
                        push_decimal(&mut out, *since as u128);
                    },
                    None => {},
                }
            },
            SemaphoreError::InvalidPath(s) => {
                push_str(&mut out, "Invalid path: ");
                assert(out@ == "Invalid path: "@);
                push_str(&mut out, s.as_str());
            },
            SemaphoreError::IoError(s) => {
                push_str(&mut out, "IO error: ");
                assert(out@ == "IO error: "@);
                push_str(&mut out, s.as_str());
            },
            SemaphoreError::NotLocked => {
                push_str(&mut out, "Lock not held");
                assert(out@ == "Lock not held"@);
            },
            SemaphoreError::Timeout => {
                push_str(&mut out, "Timeout waiting for lock");
                assert(out@ == "Timeout waiting for lock"@);
            },
            SemaphoreError::ParseError(s) => {
                push_str(&mut out, "Parse error: ");
                assert(out@ == "Parse error: "@);
                push_str(&mut out, s.as_str());
            },
        }
        from_chars(&out)
    }

    /// What the underlying system reported, for an I/O failure.
    pub fn source(&self) -> (r: Option<&String>)
        ensures
            match *self {
                SemaphoreError::IoError(s) => r == Some(&s),
                _ => r is None,
            },
    {
        match self {
            SemaphoreError::IoError(s) => Some(s),
            _ => None,
        }
    }
}

/// The result of a lock operation.
pub type SemaphoreResult<T> = Result<T, SemaphoreError>;

/// How a lock behaves.
#[derive(Debug, Clone)]
pub struct SemaphoreConfig {
    /// After how many seconds a lock counts as stale and may be removed;
    /// `None` never removes one.
    pub stale_timeout: Option<u64>,
    /// How many milliseconds to wait between two attempts.
    pub retry_interval: u64,
    /// After how many milliseconds of waiting to give up; `None` waits
    /// without end.
    pub acquire_timeout: Option<u64>,
}

impl Default for SemaphoreConfig {
    fn default() -> (r: Self)
        ensures
            r.stale_timeout == Some(3600u64),
            r.retry_interval == 100,
            r.acquire_timeout is None,
    {
        SemaphoreConfig { stale_timeout: Some(3600), retry_interval: 100, acquire_timeout: None }
    }
}

/// What a lock file holds.
#[derive(Debug, Clone)]
pub struct LockInfo {
    /// The process that holds the lock.
    pub pid: u32,
    /// When the lock was taken, in seconds since the Unix epoch.
    pub timestamp: u64,
    /// A description, if one was given.
    pub tag: Option<String>,
}

/// The mathematical value of a `LockInfo`.
pub struct LockRecord {
    pub pid: u32,
    pub timestamp: u64,
    pub tag: Option<Seq<char>>,
}

impl View for LockInfo {
    type V = LockRecord;

    open spec fn view(&self) -> LockRecord {
        LockRecord {
            pid: self.pid,
            timestamp: self.timestamp,
            tag: match self.tag {
                Some(t) => Some(t@),
                None => None,
            },
        }
    }
}

/// A tag with its line feeds and carriage returns turned into spaces, so
/// that it stays on one line.
pub open spec fn sanitized(tag: Seq<char>) -> Seq<char> {
    tag.map_values(
        |c: char|
            if c == '\n' || c == '\r' {
                ' '
            } else {
                c
            },
    )
}

/// The content of the lock file for a record.
pub open spec fn lock_text(r: LockRecord) -> Seq<char> {
    let head = "pid="@ + decimal(r.pid as nat) + "\ntimestamp="@ + decimal(r.timestamp as nat)
        + "\n"@;
    match r.tag {
        Some(t) => head + "tag="@ + sanitized(t) + "\n"@,
        None => head,
    }
}

/// The first position at or after `from` where `=` stands in `t`, or the
/// length of `t`.
pub open spec fn equals_at(t: Seq<char>, from: int) -> int
    decreases t.len() - from,
{
    if from < 0 || from >= t.len() {
        t.len() as int
    } else if t[from] == '=' {
        from
    } else {
        equals_at(t, from + 1)
    }
}

/// What was found in the lines of a lock file so far: for each key, what its
/// last line gave. A number that cannot be read counts as not given.
pub struct LockFields {
    pub pid: Option<u32>,
    pub timestamp: Option<u64>,
    pub tag: Option<Seq<char>>,
}

/// The number that a text stands for, as a process identifier.
pub open spec fn pid_value(t: Seq<char>) -> Option<u32> {
    match unsigned_value(t, u32::MAX as nat) {
        Some(n) => Some(n as u32),
        None => None,
    }
}

/// The number that a text stands for, as a time.
pub open spec fn time_value(t: Seq<char>) -> Option<u64> {
    match unsigned_value(t, u64::MAX as nat) {
        Some(n) => Some(n as u64),
        None => None,
    }
}

/// The fields after one more line. Whitespace around a line does not count,
/// an empty line and a line without `=` give nothing, and neither does a
/// key that is not known.
pub open spec fn with_lock_line(f: LockFields, line: Seq<char>) -> LockFields {
    let t = trim(line);
    let e = equals_at(t, 0);
    if e >= t.len() {
        f
    } else {
        let key = t.take(e);
        let value = t.skip(e + 1);
        if key == "pid"@ {
            LockFields { pid: pid_value(value), ..f }
        } else if key == "timestamp"@ {
            LockFields { timestamp: time_value(value), ..f }
        } else if key == "tag"@ {
            LockFields { tag: Some(value), ..f }
        } else {
            f
        }
    }
}

/// The fields that the first `n` lines give.
pub open spec fn lock_fields(lines: Seq<Seq<char>>, n: nat) -> LockFields
    decreases n,
{
    if n == 0 || n > lines.len() {
        LockFields { pid: None, timestamp: None, tag: None }
    } else {
        with_lock_line(lock_fields(lines, (n - 1) as nat), lines[n - 1])
    }
}

/// The record that the content of a lock file holds: it needs a process
/// identifier and a time.
pub open spec fn parsed_lock(content: Seq<char>) -> Result<LockRecord, LockFailure> {
    let f = lock_fields(lines_of(content), lines_of(content).len());
    match f.pid {
        None => Err(LockFailure::ParseError("missing pid"@)),
        Some(pid) => match f.timestamp {
            None => Err(LockFailure::ParseError("missing timestamp"@)),
            Some(timestamp) => Ok(LockRecord { pid, timestamp, tag: f.tag }),
        },
    }
}

/// Whether a lock taken at `timestamp` is stale at `now`: more than
/// `timeout` seconds have passed.
pub open spec fn stale(timestamp: u64, timeout: u64, now: u64) -> bool {
    now > timestamp && now - timestamp > timeout
}

/// The exec form of `LockFields`.
struct Found {
    pid: Option<u32>,
    timestamp: Option<u64>,
    tag: Option<Vec<char>>,
}

impl View for Found {
    type V = LockFields;

    closed spec fn view(&self) -> LockFields {
        LockFields {
            pid: self.pid,
            timestamp: self.timestamp,
            tag: match self.tag {
                Some(t) => Some(t@),
                None => None,
            },
        }
    }
}

/// Decides `equals_at(t, 0)`.
fn find_equals(t: &Vec<char>) -> (e: usize)
    ensures
        e == equals_at(t@, 0),
        e <= t.len(),
{
    let mut i: usize = 0;
    while i < t.len()
        invariant
            i <= t.len(),
            equals_at(t@, 0) == equals_at(t@, i as int),
        decreases t.len() - i,
    {
        if t[i] == '=' {
            return i;
        }
        i += 1;
    }
    i
}

/// Takes one line of a lock file into the fields.
fn take_lock_line(found: Found, line: &Vec<char>) -> (r: Found)
    ensures
        r@ == with_lock_line(found@, line@),
{
    let t = trimmed(line);
    let e = find_equals(&t);
    if e >= t.len() {
        return found;
    }
    let key = slice_of(&t, 0, e);
    let value = slice_of(&t, e + 1, t.len());
    assert(key@ == t@.take(e as int));
    assert(value@ == t@.skip(e + 1));
    let mut found = found;
    if is_text(&key, "pid") {
        found.pid = match parse_u64(&value) {
            Some(n) => if n <= u32::MAX as u64 {
                Some(n as u32)
            } else {
                None
            },
            None => None,
        };
    } else if is_text(&key, "timestamp") {
        found.timestamp = parse_u64(&value);
    } else if is_text(&key, "tag") {
        found.tag = Some(value);
    }
    found
}

/// The view of the result of parsing.
pub open spec fn lock_outcome(r: Result<LockInfo, SemaphoreError>) -> Result<
    LockRecord,
    LockFailure,
> {
    match r {
        Ok(i) => Ok(i@),
        Err(e) => Err(e@),
    }
}

impl LockInfo {
    /// The lock information of process `pid` at time `now`.
    pub fn new(pid: u32, now: u64) -> (r: Self)
        ensures
            r@ == (LockRecord { pid, timestamp: now, tag: None }),
    {
        LockInfo { pid, timestamp: now, tag: None }
    }

    /// The lock information of process `pid` at time `now`, with a tag.
    pub fn with_tag(tag: &str, pid: u32, now: u64) -> (r: Self)
        ensures
            r@ == (LockRecord { pid, timestamp: now, tag: Some(tag@) }),
    {
        LockInfo { pid, timestamp: now, tag: Some(text_of(tag)) }
    }

    /// The content of the lock file.
    pub fn serialize(&self) -> (r: String)
        ensures
            r@ == lock_text(self@),
    {
        let mut out: Vec<char> = Vec::new();
        push_str(&mut out, "pid=");
        assert(out@ == "pid="@);
        push_decimal(&mut out, self.pid as u128);
        push_str(&mut out, "\ntimestamp=");
        push_decimal(&mut out, self.timestamp as u128);
        push_str(&mut out, "\n");
        match &self.tag {
            Some(tag) => {
                push_str(&mut out, "tag=");
                let ghost head = out@;
                let chars = to_chars(tag.as_str());
                let mut i: usize = 0;
                while i < chars.len()
                    invariant
                        i <= chars.len(),
                        out@ == head + sanitized(chars@).take(i as int),
                    decreases chars.len() - i,
                {
                    let c = chars[i];
                    if c == '\n' || c == '\r' {
                        out.push(' ');
                    } else {
                        out.push(c);
                    }
                    assert(sanitized(chars@).take(i + 1) == sanitized(chars@).take(i as int).push(
                        sanitized(chars@)[i as int],
                    ));
                    i += 1;
                }
                assert(sanitized(chars@).take(i as int) == sanitized(chars@));
                push_str(&mut out, "\n");
            },
            None => {},
        }
        from_chars(&out)
    }

    /// Reads the content of a lock file.
    pub fn parse(content: &str) -> (r: Result<Self, SemaphoreError>)
        ensures
            lock_outcome(r) == parsed_lock(content@),
    {
        let lines = split_lines(&to_chars(content));
        let ghost all = lines_of(content@);
        let mut found = Found { pid: None, timestamp: None, tag: None };
        let mut i: usize = 0;
        while i < lines.len()
            invariant
                i <= lines.len(),
                texts(lines@) == all,
                found@ == lock_fields(all, i as nat),
            decreases lines.len() - i,
        {
            assert(all[i as int] == lines@[i as int]@);
            found = take_lock_line(found, &lines[i]);
            i += 1;
        }
        let pid = match found.pid {
            Some(pid) => pid,
            None => {
                return Err(SemaphoreError::ParseError(text_of("missing pid")));
            },
        };
        let timestamp = match found.timestamp {
            Some(t) => t,
            None => {
                return Err(SemaphoreError::ParseError(text_of("missing timestamp")));
            },
        };
        let tag = match &found.tag {
            Some(t) => Some(from_chars(t)),
            None => None,
        };
        Ok(LockInfo { pid, timestamp, tag })
    }

    /// Whether the lock is stale at time `now`: it was taken more than
    /// `timeout` seconds ago.
    pub fn is_stale(&self, timeout: u64, now: u64) -> (r: bool)
        ensures
            r == stale(self.timestamp, timeout, now),
    {
        now.saturating_sub(self.timestamp) > timeout
    }
}

// ---------------------------------------------------------------------------
// The lock
// ---------------------------------------------------------------------------

/// The directory that a lock file lies in, as its caller found it.
pub struct ParentDir {
    /// The path of the directory.
    pub path: String,
    /// Whether the directory exists.
    pub exists: bool,
}

/// What an attempt to create the lock file gave.
pub enum CreateOutcome {
    /// The file was created and the lock information written.
    Created,
    /// The file was there already; its content, if it could be read.
    Exists { content: Option<String> },
    /// Creating or writing failed, with what the system reported.
    Failed { message: String },
}

/// What to do after an attempt to take the lock.
#[derive(Debug)]
pub enum AcquireStep {
    /// The lock is taken.
    Acquired(SemaphoreGuard),
    /// The lock is held; try again after so many milliseconds.
    Retry { after: u64 },
    /// Give up with this error.
    Failed(SemaphoreError),
}

/// The proof of holding a lock: it names the lock file, which is removed
/// when the lock is released.
#[derive(Debug)]
pub struct SemaphoreGuard {
    path: String,
}

impl SemaphoreGuard {
    /// The lock file that releasing removes.
    pub closed spec fn file(&self) -> Seq<char> {
        self.path@
    }

    /// The lock file that releasing removes.
    pub fn path(&self) -> (r: &str)
        ensures
            r@ == self.file(),
    {
        self.path.as_str()
    }
}

/// A lock kept as a file.
#[derive(Debug)]
pub struct Semaphore {
    path: String,
    config: SemaphoreConfig,
}

/// The holder and the time that the content of a lock file tells, if it can
/// be read as lock information.
pub open spec fn holder_of(content: Option<Seq<char>>) -> (Option<u32>, Option<u64>) {
    match content {
        Some(c) => match parsed_lock(c) {
            Ok(r) => (Some(r.pid), Some(r.timestamp)),
            Err(_) => (None, None),
        },
        None => (None, None),
    }
}

/// The view of optional text.
pub open spec fn text_view(t: Option<String>) -> Option<Seq<char>> {
    match t {
        Some(s) => Some(s@),
        None => None,
    }
}

/// The failure that an attempt ends in unless the file was created.
pub open spec fn attempt_failure(outcome: CreateOutcome) -> Option<LockFailure> {
    match outcome {
        CreateOutcome::Created => None,
        CreateOutcome::Exists { content } => Some(
            LockFailure::AlreadyLocked {
                holder_pid: holder_of(text_view(content)).0,
                locked_since: holder_of(text_view(content)).1,
            },
        ),
        CreateOutcome::Failed { message } => Some(LockFailure::IoError(message@)),
    }
}

impl Semaphore {
    /// The path of the lock file.
    pub closed spec fn file(&self) -> Seq<char> {
        self.path@
    }

    /// The configuration of the lock.
    pub closed spec fn settings(&self) -> SemaphoreConfig {
        self.config
    }

    /// A lock on the file at `path`, whose directory is `parent` if the path
    /// has one. An empty path is refused, and so is a directory that has a
    /// name and does not exist.
    pub fn new(path: &str, config: SemaphoreConfig, parent: Option<&ParentDir>) -> (r: Result<
        Self,
        SemaphoreError,
    >)
        ensures
            match r {
                Ok(s) => path@.len() > 0 && !(parent matches Some(p) && p.path@.len() > 0
                    && !p.exists) && s.file() == path@ && s.settings() == config,
                Err(e) => if path@.len() == 0 {
                    e@ == LockFailure::InvalidPath("path cannot be empty"@)
                } else {
                    parent matches Some(p) && p.path@.len() > 0 && !p.exists && e@
                        == LockFailure::InvalidPath(
                        "parent directory does not exist: "@ + p.path@,
                    )
                },
            },
    {
        let chars = to_chars(path);
        if chars.len() == 0 {
            return Err(SemaphoreError::InvalidPath(text_of("path cannot be empty")));
        }
        match parent {
            Some(p) => {
                let dir = to_chars(p.path.as_str());
                if dir.len() > 0 && !p.exists {
                    let mut m: Vec<char> = Vec::new();
                    push_str(&mut m, "parent directory does not exist: ");
                    assert(m@ == "parent directory does not exist: "@);
                    push_all(&mut m, &dir);
                    return Err(SemaphoreError::InvalidPath(from_chars(&m)));
                }
            },
            None => {},
        }
        Ok(Semaphore { path: from_chars(&chars), config })
    }

    /// A lock with the default configuration.
    pub fn with_defaults(path: &str, parent: Option<&ParentDir>) -> (r: Result<
        Self,
        SemaphoreError,
    >)
        ensures
            r is Ok <==> path@.len() > 0 && !(parent matches Some(p) && p.path@.len() > 0
                && !p.exists),
            r matches Ok(s) ==> s.file() == path@ && s.settings().stale_timeout == Some(3600u64)
                && s.settings().retry_interval == 100 && s.settings().acquire_timeout is None,
    {
        Self::new(path, SemaphoreConfig::default(), parent)
    }

    /// The path of the lock file.
    pub fn path(&self) -> (r: &str)
        ensures
            r@ == self.file(),
    {
        self.path.as_str()
    }

    /// Whether the lock is held, `file_exists` telling whether the lock file
    /// is there.
    pub fn is_locked(&self, file_exists: bool) -> (r: bool)
        ensures
            r == file_exists,
    {
        file_exists
    }

    /// The holder of the lock, `content` being what the lock file holds if
    /// it is there and can be read.
    pub fn lock_info(&self, content: Option<&str>) -> (r: Option<LockInfo>)
        ensures
            match content {
                Some(c) => match parsed_lock(c@) {
                    Ok(record) => r matches Some(i) && i@ == record,
                    Err(_) => r is None,
                },
                None => r is None,
            },
    {
        match content {
            Some(c) => match LockInfo::parse(c) {
                Ok(i) => Some(i),
                Err(_) => None,
            },
            None => None,
        }
    }

    /// Whether the lock file is to be removed before an attempt, `content`
    /// being what it holds if it is there and can be read: the holder's lock
    /// is stale by the configuration at time `now`.
    pub fn should_break(&self, content: Option<&str>, now: u64) -> (r: bool)
        ensures
            r == (self.settings().stale_timeout matches Some(timeout) && content matches Some(c)
                && parsed_lock(c@) matches Ok(record) && stale(record.timestamp, timeout, now)),
    {
        match self.config.stale_timeout {
            Some(timeout) => match self.lock_info(content) {
                Some(existing) => existing.is_stale(timeout, now),
                None => false,
            },
            None => false,
        }
    }

    /// What an attempt to take the lock ends in, from what creating the
    /// lock file gave.
    pub fn try_acquire(&self, outcome: CreateOutcome) -> (r: Result<SemaphoreGuard, SemaphoreError>)
        ensures
            match r {
                Ok(guard) => attempt_failure(outcome) is None && guard.file() == self.file(),
                Err(e) => attempt_failure(outcome) == Some(e@),
            },
    {
        match outcome {
            CreateOutcome::Created => Ok(SemaphoreGuard { path: self.path.clone() }),
            CreateOutcome::Exists { content } => {
                let info = match &content {
                    Some(c) => self.lock_info(Some(c.as_str())),
                    None => None,
                };
                match info {
                    Some(i) => Err(
                        SemaphoreError::AlreadyLocked {
                            holder_pid: Some(i.pid),
                            locked_since: Some(i.timestamp),
                        },
                    ),
                    None => Err(
                        SemaphoreError::AlreadyLocked { holder_pid: None, locked_since: None },
                    ),
                }
            },
            CreateOutcome::Failed { message } => Err(SemaphoreError::IoError(message)),
        }
    }

    /// What to do after an attempt while waiting for the lock, `elapsed`
    /// being the milliseconds waited so far and `timeout` the limit in
    /// milliseconds: a held lock is tried again after the retry interval
    /// unless the limit is reached; any other failure ends the waiting.
    pub fn acquire_timeout(&self, outcome: CreateOutcome, elapsed: u64, timeout: Option<u64>) -> (r:
        AcquireStep)
        ensures
            match r {
                AcquireStep::Acquired(guard) => attempt_failure(outcome) is None && guard.file()
                    == self.file(),
                AcquireStep::Retry { after } => attempt_failure(outcome) matches Some(
                    LockFailure::AlreadyLocked { .. },
                ) && !(timeout matches Some(limit) && elapsed >= limit) && after
                    == self.settings().retry_interval,
                AcquireStep::Failed(e) => match attempt_failure(outcome) {
                    Some(LockFailure::AlreadyLocked { .. }) => timeout matches Some(limit)
                        && elapsed >= limit && e@ == LockFailure::Timeout,
                    Some(f) => e@ == f,
                    None => false,
                },
            },
    {
        match self.try_acquire(outcome) {
            Ok(guard) => AcquireStep::Acquired(guard),
            Err(SemaphoreError::AlreadyLocked { .. }) => {
                match timeout {
                    Some(limit) => {
                        if elapsed >= limit {
                            return AcquireStep::Failed(SemaphoreError::Timeout);
                        }
                    },
                    None => {},
                }
                AcquireStep::Retry { after: self.config.retry_interval }
            },
            Err(e) => AcquireStep::Failed(e),
        }
    }

    /// What to do after an attempt while waiting for the lock, with the
    /// limit of the configuration.
    pub fn acquire(&self, outcome: CreateOutcome, elapsed: u64) -> (r: AcquireStep)
        ensures
            match r {
                AcquireStep::Acquired(guard) => attempt_failure(outcome) is None && guard.file()
                    == self.file(),
                AcquireStep::Retry { after } => attempt_failure(outcome) matches Some(
                    LockFailure::AlreadyLocked { .. },
                ) && !(self.settings().acquire_timeout matches Some(limit) && elapsed >= limit)
                    && after == self.settings().retry_interval,
                AcquireStep::Failed(e) => match attempt_failure(outcome) {
                    Some(LockFailure::AlreadyLocked { .. }) => self.settings().acquire_timeout
                        matches Some(limit) && elapsed >= limit && e@ == LockFailure::Timeout,
                    Some(f) => e@ == f,
                    None => false,
                },
            },
    {
        self.acquire_timeout(outcome, elapsed, self.config.acquire_timeout)
    }

    /// Whether there is a lock to release, `file_exists` telling whether
    /// the lock file is there. On success the caller removes the file.
    pub fn release(&self, file_exists: bool) -> (r: Result<(), SemaphoreError>)
        ensures
            match r {
                Ok(_) => file_exists,
                Err(e) => !file_exists && e@ == LockFailure::NotLocked,
            },
    {
        if !file_exists {
            return Err(SemaphoreError::NotLocked);
        }
        Ok(())
    }

    /// The file whose existence tells whether process `pid` runs.
    pub fn process_entry(pid: u32) -> (r: String)
        ensures
            r@ == "/proc/"@ + decimal(pid as nat),
    {
        let mut out: Vec<char> = Vec::new();
        push_str(&mut out, "/proc/");
        assert(out@ == "/proc/"@);
        push_decimal(&mut out, pid as u128);
        from_chars(&out)
    }

    /// Whether a process runs, `entry_found` telling whether its entry was
    /// found, or `None` where the platform has no entries to look for: then
    /// the process counts as running.
    pub fn is_process_running(entry_found: Option<bool>) -> (r: bool)
        ensures
            r == (match entry_found {
                Some(found) => found,
                None => true,
            }),
    {
        match entry_found {
            Some(found) => found,
            None => true,
        }
    }
}

} // verus!

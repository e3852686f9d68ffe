//! Reading back the content of a lock file.

use vstd::prelude::*;
use crate::lock::{
    equals_at, lock_fields, lock_text, parsed_lock, pid_value, sanitized, time_value,
    with_lock_line, LockFailure, LockFields, LockRecord,
};
use crate::text::{
    decimal, is_digit, is_whitespace, leading_space, lemma_decimal_digits,
    lemma_decimal_round_trip, lemma_line_end_is, lines_of, trailing_space, trim, trim_end,
    without_cr,
};

verus! {

/// A text without line feed, followed by a line feed, is the first line of
/// what it stands before.
proof fn lemma_first_line(l: Seq<char>, rest: Seq<char>)
    requires
        forall|i: int| 0 <= i < l.len() ==> #[trigger] l[i] != '\n',
    ensures
        lines_of(l + seq!['\n'] + rest) == seq![without_cr(l)] + lines_of(rest),
{
    let s = l + seq!['\n'] + rest;
    assert(s[l.len() as int] == '\n');
    assert forall|j: int| 0 <= j < l.len() implies #[trigger] s[j] != '\n' by {
        assert(s[j] == l[j]);
    }
    lemma_line_end_is(s, l.len());
    assert(s.take(l.len() as int) =~= l);
    assert(s.skip(l.len() as int + 1) =~= rest);
}

/// Behind a text that ends in no whitespace, the trailing whitespace is that
/// of what follows.
proof fn lemma_trailing_space_behind(pre: Seq<char>, v: Seq<char>)
    requires
        pre.len() > 0,
        !is_whitespace(pre.last()),
    ensures
        trailing_space(pre + v) == trailing_space(v),
        trim_end(pre + v) == pre + trim_end(v),
    decreases v.len(),
{
    let s = pre + v;
    if v.len() == 0 {
        assert(s =~= pre);
        assert(pre + trim_end(v) =~= pre);
        assert(pre.take(pre.len() as int) =~= pre);
    } else {
        assert(s.last() == v.last());
        if is_whitespace(v.last()) {
            assert(s.drop_last() =~= pre + v.drop_last());
            lemma_trailing_space_behind(pre, v.drop_last());
        }
        let k = trailing_space(v);
        lemma_trailing_bound(v);
        assert(s.take(s.len() - k) =~= pre + v.take(v.len() - k));
    }
}

proof fn lemma_trailing_bound(v: Seq<char>)
    ensures
        trailing_space(v) <= v.len(),
    decreases v.len(),
{
    if v.len() > 0 && is_whitespace(v.last()) {
        lemma_trailing_bound(v.drop_last());
    }
}

/// A key of letters.
spec fn is_key(key: Seq<char>) -> bool {
    key.len() > 0 && forall|i: int| 0 <= i < key.len() ==> 'a' <= #[trigger] key[i] <= 'z'
}

proof fn lemma_equals_at(t: Seq<char>, key: Seq<char>, from: int)
    requires
        is_key(key),
        0 <= from <= key.len(),
        key.len() < t.len(),
        t.subrange(0, key.len() as int) == key,
        t[key.len() as int] == '=',
    ensures
        equals_at(t, from) == key.len(),
    decreases key.len() - from,
{
    if from < key.len() {
        assert(t[from] == t.subrange(0, key.len() as int)[from]);
        assert('a' <= key[from] <= 'z');
        lemma_equals_at(t, key, from + 1);
    }
}

/// What a line `key=value` gives once it is trimmed: the key, and the value
/// without its trailing whitespace.
proof fn lemma_key_value_line(key: Seq<char>, v: Seq<char>)
    requires
        is_key(key),
    ensures
        trim(key + seq!['='] + v) == key + seq!['='] + trim_end(v),
        equals_at(trim(key + seq!['='] + v), 0) == key.len(),
        trim(key + seq!['='] + v).take(key.len() as int) == key,
        trim(key + seq!['='] + v).skip(key.len() as int + 1) == trim_end(v),
        key.len() < trim(key + seq!['='] + v).len(),
{
    let pre = key + seq!['='];
    let s = pre + v;
    assert(s[0] == key[0]);
    assert('a' <= key[0] <= 'z');
    assert(!is_whitespace(s[0]));
    assert(leading_space(s) == 0);
    assert(s.skip(0) =~= s);
    assert(pre.last() == '=');
    lemma_trailing_space_behind(pre, v);
    let t = trim(s);
    assert(t == pre + trim_end(v));
    assert(t.subrange(0, key.len() as int) =~= key);
    assert(t[key.len() as int] == '=');
    lemma_equals_at(t, key, 0);
    assert(t.take(key.len() as int) =~= key);
    assert(t.skip(key.len() as int + 1) =~= trim_end(v));
}

/// A decimal number has no whitespace at its end.
proof fn lemma_decimal_trimmed(n: nat)
    ensures
        trim_end(decimal(n)) == decimal(n),
        forall|i: int| 0 <= i < decimal(n).len() ==> #[trigger] decimal(n)[i] != '\n',
        decimal(n).len() > 0 && decimal(n).last() != '\r',
{
    lemma_decimal_digits(n);
    let d = decimal(n);
    assert(is_digit(d[d.len() - 1]));
    assert(d.last() == d[d.len() - 1]);
    assert(trailing_space(d) == 0);
    assert(d.take(d.len() as int) =~= d);
    assert forall|i: int| 0 <= i < d.len() implies #[trigger] d[i] != '\n' by {
        assert(is_digit(d[i]));
    }
}

/// The line of a field.
spec fn field_line(key: Seq<char>, v: Seq<char>) -> Seq<char> {
    key + seq!['='] + v
}

/// A line of a key and a text without line breaks is a line of its own.
proof fn lemma_field_line_is_line(key: Seq<char>, v: Seq<char>)
    requires
        is_key(key),
        forall|i: int| 0 <= i < v.len() ==> #[trigger] v[i] != '\n' && v[i] != '\r',
    ensures
        forall|i: int|
            0 <= i < field_line(key, v).len() ==> #[trigger] field_line(key, v)[i] != '\n',
        without_cr(field_line(key, v)) == field_line(key, v),
{
    let l = field_line(key, v);
    assert forall|i: int| 0 <= i < l.len() implies #[trigger] l[i] != '\n' && l[i] != '\r' by {
        if i < key.len() {
            assert(l[i] == key[i]);
        } else if i > key.len() {
            assert(l[i] == v[i - key.len() - 1]);
        }
    }
    assert(l.last() == l[l.len() - 1]);
}

proof fn lemma_decimal_is_plain(n: nat)
    ensures
        forall|i: int|
            0 <= i < decimal(n).len() ==> #[trigger] decimal(n)[i] != '\n' && decimal(n)[i] != '\r',
{
    lemma_decimal_digits(n);
    assert forall|i: int| 0 <= i < decimal(n).len() implies #[trigger] decimal(n)[i] != '\n'
        && decimal(n)[i] != '\r' by {
        assert(is_digit(decimal(n)[i]));
    }
}

proof fn lemma_keys()
    ensures
        is_key("pid"@),
        is_key("timestamp"@),
        is_key("tag"@),
        "pid"@ != "timestamp"@,
        "pid"@ != "tag"@,
        "timestamp"@ != "tag"@,
{
    reveal_strlit("pid");
    reveal_strlit("timestamp");
    reveal_strlit("tag");
    assert("pid"@[0] != "timestamp"@[0]);
    assert("pid"@[0] != "tag"@[0]);
    assert("timestamp"@.len() != "tag"@.len());
}

proof fn lemma_pid_line(f: LockFields, pid: u32)
    ensures
        with_lock_line(f, field_line("pid"@, decimal(pid as nat))) == (LockFields {
            pid: Some(pid),
            ..f
        }),
{
    lemma_keys();
    lemma_decimal_trimmed(pid as nat);
    lemma_decimal_round_trip(pid as nat, u32::MAX as nat);
    lemma_key_value_line("pid"@, decimal(pid as nat));
    assert(pid_value(decimal(pid as nat)) == Some(pid));
}

proof fn lemma_time_line(f: LockFields, timestamp: u64)
    ensures
        with_lock_line(f, field_line("timestamp"@, decimal(timestamp as nat))) == (LockFields {
            timestamp: Some(timestamp),
            ..f
        }),
{
    lemma_keys();
    lemma_decimal_trimmed(timestamp as nat);
    lemma_decimal_round_trip(timestamp as nat, u64::MAX as nat);
    lemma_key_value_line("timestamp"@, decimal(timestamp as nat));
    assert(time_value(decimal(timestamp as nat)) == Some(timestamp));
}

proof fn lemma_tag_line(f: LockFields, tag: Seq<char>)
    ensures
        with_lock_line(f, field_line("tag"@, tag)) == (LockFields {
            tag: Some(trim_end(tag)),
            ..f
        }),
{
    lemma_keys();
    lemma_key_value_line("tag"@, tag);
}

/// The lines of two or three lines that each end in a line feed.
proof fn lemma_lines(l1: Seq<char>, l2: Seq<char>, l3: Option<Seq<char>>)
    requires
        forall|i: int| 0 <= i < l1.len() ==> #[trigger] l1[i] != '\n',
        forall|i: int| 0 <= i < l2.len() ==> #[trigger] l2[i] != '\n',
        l3 matches Some(l) ==> forall|i: int| 0 <= i < l.len() ==> #[trigger] l[i] != '\n',
        without_cr(l1) == l1,
        without_cr(l2) == l2,
        l3 matches Some(l) ==> without_cr(l) == l,
    ensures
        l3 is None ==> lines_of(l1 + seq!['\n'] + l2 + seq!['\n']) == seq![l1, l2],
        l3 matches Some(l) ==> lines_of(l1 + seq!['\n'] + l2 + seq!['\n'] + l + seq!['\n'])
            == seq![l1, l2, l],
{
    let nothing = Seq::<char>::empty();
    match l3 {
        None => {
            let text = l1 + seq!['\n'] + l2 + seq!['\n'];
            assert(text =~= l1 + seq!['\n'] + (l2 + seq!['\n'] + nothing));
            lemma_first_line(l2, nothing);
            lemma_first_line(l1, l2 + seq!['\n'] + nothing);
            assert(lines_of(text) =~= seq![l1, l2]);
        },
        Some(l) => {
            let text = l1 + seq!['\n'] + l2 + seq!['\n'] + l + seq!['\n'];
            assert(text =~= l1 + seq!['\n'] + (l2 + seq!['\n'] + (l + seq!['\n'] + nothing)));
            lemma_first_line(l, nothing);
            lemma_first_line(l2, l + seq!['\n'] + nothing);
            lemma_first_line(l1, l2 + seq!['\n'] + (l + seq!['\n'] + nothing));
            assert(lines_of(text) =~= seq![l1, l2, l]);
        },
    }
}

/// The content of a lock file, line by line.
proof fn lemma_lock_text_lines(r: LockRecord)
    ensures
        lines_of(lock_text(r)) == (match r.tag {
            Some(t) => seq![
                field_line("pid"@, decimal(r.pid as nat)),
                field_line("timestamp"@, decimal(r.timestamp as nat)),
                field_line("tag"@, sanitized(t)),
            ],
            None => seq![
                field_line("pid"@, decimal(r.pid as nat)),
                field_line("timestamp"@, decimal(r.timestamp as nat)),
            ],
        }),
{
    reveal_strlit("pid=");
    reveal_strlit("\ntimestamp=");
    reveal_strlit("\n");
    reveal_strlit("tag=");
    reveal_strlit("pid");
    reveal_strlit("timestamp");
    reveal_strlit("tag");
    lemma_keys();
    let l1 = field_line("pid"@, decimal(r.pid as nat));
    let l2 = field_line("timestamp"@, decimal(r.timestamp as nat));
    lemma_decimal_is_plain(r.pid as nat);
    lemma_decimal_is_plain(r.timestamp as nat);
    lemma_field_line_is_line("pid"@, decimal(r.pid as nat));
    lemma_field_line_is_line("timestamp"@, decimal(r.timestamp as nat));
    assert("pid="@ =~= "pid"@ + seq!['=']);
    assert("\ntimestamp="@ =~= seq!['\n'] + "timestamp"@ + seq!['=']);
    assert("tag="@ =~= "tag"@ + seq!['=']);
    assert("\n"@ =~= seq!['\n']);
    let head = "pid="@ + decimal(r.pid as nat) + "\ntimestamp="@ + decimal(r.timestamp as nat)
        + "\n"@;
    assert(head =~= l1 + seq!['\n'] + l2 + seq!['\n']);
    match r.tag {
        None => {
            lemma_lines(l1, l2, None);
        },
        Some(t) => {
            let s = sanitized(t);
            let l3 = field_line("tag"@, s);
            lemma_field_line_is_line("tag"@, s);
            assert(head + "tag="@ + s + "\n"@ =~= l1 + seq!['\n'] + l2 + seq!['\n'] + l3
                + seq!['\n']);
            lemma_lines(l1, l2, Some(l3));
        },
    }
}

/// The tag as it is read back: without line breaks and without whitespace at
/// its end.
pub open spec fn tag_read_back(tag: Option<Seq<char>>) -> Option<Seq<char>> {
    match tag {
        Some(t) => Some(trim_end(sanitized(t))),
        None => None,
    }
}

/// Round trip: the content written for lock information reads back as the
/// same process and time, and as the tag on one line without whitespace at
/// its end. In particular no line break in a tag can pass for a field.
pub proof fn lemma_parse_of_serialize(r: LockRecord)
    ensures
        parsed_lock(lock_text(r)) == Ok::<LockRecord, LockFailure>(
            LockRecord { pid: r.pid, timestamp: r.timestamp, tag: tag_read_back(r.tag) },
        ),
{
    lemma_lock_text_lines(r);
    let lines = lines_of(lock_text(r));
    let none = LockFields { pid: None, timestamp: None, tag: None };
    let f1 = LockFields { pid: Some(r.pid), timestamp: None, tag: None };
    let f2 = LockFields { pid: Some(r.pid), timestamp: Some(r.timestamp), tag: None };
    lemma_pid_line(none, r.pid);
    lemma_time_line(f1, r.timestamp);
    assert(lock_fields(lines, 0) == none);
    assert(lock_fields(lines, 1) == f1);
    assert(lock_fields(lines, 2) == f2);
    match r.tag {
        None => {},
        Some(t) => {
            lemma_tag_line(f2, sanitized(t));
            assert(lock_fields(lines, 3) == LockFields {
                pid: Some(r.pid),
                timestamp: Some(r.timestamp),
                tag: Some(trim_end(sanitized(t))),
            });
        },
    }
}

} // verus!

//! Reading back what was written: a snapshot that can be stored comes out of
//! its file as it went in. Beside it, what a reader makes of the separator,
//! of a type word and of a digest.

use vstd::prelude::*;
use vstd::utf8::{
    decode_utf8, encode_utf8, encode_utf8_decode_utf8, encode_utf8_valid_utf8, is_ascii_chars,
    is_ascii_chars_encode_utf8, valid_utf8,
};
use crate::envelope::{
    colon_at, details_from, digest_or, envelope, header_text, is_digest, is_hex_digit, kind_or,
    line_len, no_fields, opened, read_outcome, scan, with_field, with_line, Header, Scan,
};
use crate::filetype::{content_type, FileType};
use crate::format::file_type_name;
use crate::snapshot::{
    consistent, fnv1a, hash_text, is_name_char, name_check, valid_name, Baseline, Details,
    Failure, MAX_CONTENT_SIZE, MAX_HEADER_LINES, MAX_HEADER_LINE_LENGTH,
};
use crate::text::{
    decimal, digit_char, has_at, hex, is_digit, is_whitespace, leading_space,
    lemma_decimal_digits, lemma_decimal_round_trip, trailing_space, trim, trim_start,
};

verus! {

/// The longest name that fits into a header line.
pub const MAX_NAME_LENGTH: usize = 1011;

/// Whether a snapshot can be stored and read back: its name is valid and
/// fits into a header line, its digest and size are those of its content,
/// and its content is within the limit.
pub open spec fn storable(b: Baseline) -> bool {
    &&& valid_name(b.details.name)
    &&& b.details.name.len() <= MAX_NAME_LENGTH
    &&& consistent(b)
    &&& b.content.len() <= MAX_CONTENT_SIZE
}

/// The bytes of a text made of ASCII characters.
spec fn ascii_bytes(s: Seq<char>) -> Seq<u8> {
    Seq::new(s.len(), |i: int| s[i] as u8)
}

proof fn lemma_ascii_encoding(s: Seq<char>)
    requires
        is_ascii_chars(s),
    ensures
        encode_utf8(s) == ascii_bytes(s),
{
    is_ascii_chars_encode_utf8(s);
    assert(encode_utf8(s) =~= ascii_bytes(s));
}

/// A character that may stand in a header value: ASCII, no whitespace, no
/// colon.
spec fn is_plain(c: char) -> bool {
    '!' <= c <= '~' && c != ':'
}

/// A text of plain characters that is not empty.
spec fn is_value(v: Seq<char>) -> bool {
    v.len() > 0 && forall|i: int| 0 <= i < v.len() ==> is_plain(#[trigger] v[i])
}

/// A header line: ASCII, at most 1024 characters, ending in the only line
/// feed it has.
spec fn is_line(l: Seq<char>) -> bool {
    &&& 1 <= l.len() <= MAX_HEADER_LINE_LENGTH
    &&& is_ascii_chars(l)
    &&& l.last() == '\n'
    &&& forall|i: int| 0 <= i < l.len() - 1 ==> #[trigger] l[i] != '\n'
}

/// The first `n` lines, one after the other.
spec fn flat(lines: Seq<Seq<char>>, n: nat) -> Seq<char>
    decreases n,
{
    if n == 0 || n > lines.len() {
        Seq::empty()
    } else {
        flat(lines, (n - 1) as nat) + lines[n - 1]
    }
}

/// The header after the lines from `k` on.
spec fn with_lines(h: Header, lines: Seq<Seq<char>>, k: nat) -> Header
    decreases lines.len() - k,
{
    if k >= lines.len() {
        h
    } else {
        with_lines(with_line(h, lines[k as int]), lines, k + 1)
    }
}

proof fn lemma_flat_index(lines: Seq<Seq<char>>, n: nat, k: nat, i: int)
    requires
        k < n <= lines.len(),
        0 <= i < lines[k as int].len(),
    ensures
        flat(lines, k).len() + lines[k as int].len() <= flat(lines, n).len(),
        flat(lines, n)[flat(lines, k).len() + i] == lines[k as int][i],
    decreases n,
{
    if k + 1 < n {
        lemma_flat_index(lines, (n - 1) as nat, k, i);
    }
}

proof fn lemma_line_len(bytes: Seq<u8>, pos: int, l: Seq<char>, k: int)
    requires
        is_line(l),
        0 <= pos,
        pos + l.len() <= bytes.len(),
        bytes.subrange(pos, pos + l.len()) == ascii_bytes(l),
        0 <= k < l.len(),
    ensures
        line_len(bytes, pos + k) == l.len() - k,
    decreases l.len() - k,
{
    let raw = bytes.subrange(pos, pos + l.len());
    assert(raw[k] == bytes[pos + k]);
    assert(raw[k] == l[k] as u8);
    assert('\0' <= l[k] <= '\u{7f}');
    if k < l.len() - 1 {
        assert(l[k] != '\n');
        lemma_line_len(bytes, pos, l, k + 1);
    } else {
        assert(l[k] == '\n');
    }
}

/// One line that is not the separator is read and taken into the header.
proof fn lemma_scan_line(bytes: Seq<u8>, pos: int, l: Seq<char>, count: nat, h: Header)
    requires
        is_line(l),
        0 <= pos,
        pos + l.len() <= bytes.len(),
        bytes.subrange(pos, pos + l.len()) == ascii_bytes(l),
        count < MAX_HEADER_LINES,
        trim(l) != "---"@,
    ensures
        scan(bytes, pos, count, h) == scan(bytes, pos + l.len(), count + 1, with_line(h, l)),
{
    lemma_line_len(bytes, pos, l, 0);
    lemma_ascii_encoding(l);
    encode_utf8_valid_utf8(l);
    encode_utf8_decode_utf8(l);
}

/// The separator line ends the header, however many lines came before it.
proof fn lemma_scan_separator(bytes: Seq<u8>, pos: int, count: nat, h: Header)
    requires
        0 <= pos,
        pos + 4 <= bytes.len(),
        bytes.subrange(pos, pos + 4) == ascii_bytes("---\n"@),
        bytes.len() - (pos + 4) <= MAX_CONTENT_SIZE,
    ensures
        scan(bytes, pos, count, h) == (Scan::Found { header: h, content_start: pos + 4 }),
{
    let l = "---\n"@;
    reveal_strlit("---\n");
    reveal_strlit("---");
    assert(is_line(l));
    lemma_line_len(bytes, pos, l, 0);
    lemma_ascii_encoding(l);
    encode_utf8_valid_utf8(l);
    encode_utf8_decode_utf8(l);
    lemma_trim_plain(Seq::empty(), "---"@);
    assert(Seq::<char>::empty() + "---"@ + seq!['\n'] =~= l);
    assert(Seq::<char>::empty() + "---"@ =~= "---"@);
}

/// A text of non-whitespace characters, followed by a line feed, trims to
/// itself.
proof fn lemma_trim_plain(pre: Seq<char>, body: Seq<char>)
    requires
        body.len() > 0,
        !is_whitespace(body.last()),
        pre.len() > 0 ==> !is_whitespace(pre[0]),
        pre.len() == 0 ==> !is_whitespace(body[0]),
    ensures
        trim(pre + body + seq!['\n']) == pre + body,
{
    let s = pre + body + seq!['\n'];
    assert(s[0] == (pre + body)[0]);
    assert(!is_whitespace(s[0]));
    assert(leading_space(s) == 0);
    assert(trim_start(s) == s) by {
        assert(s.skip(0) == s);
    }
    assert(s.last() == '\n');
    assert(is_whitespace('\n'));
    assert(s.drop_last() == pre + body);
    assert((pre + body).last() == body.last());
    assert(trailing_space(pre + body) == 0);
    assert(trailing_space(s) == 1);
    assert(s.take(s.len() - 1) == pre + body);
}

proof fn lemma_colon_at(t: Seq<char>, key: Seq<char>, from: int)
    requires
        0 <= from <= key.len(),
        key.len() + 2 <= t.len(),
        t.subrange(0, key.len() as int) == key,
        forall|i: int| 0 <= i < key.len() ==> #[trigger] key[i] != ':',
        t[key.len() as int] == ':',
        t[key.len() as int + 1] == ' ',
    ensures
        colon_at(t, from) == key.len(),
    decreases key.len() - from,
{
    if from < key.len() {
        assert(t[from] == t.subrange(0, key.len() as int)[from]);
        assert(key[from] != ':');
        lemma_colon_at(t, key, from + 1);
    }
}

/// A key made of letters.
spec fn is_key(key: Seq<char>) -> bool {
    key.len() > 0 && forall|i: int|
        0 <= i < key.len() ==> ('a' <= #[trigger] key[i] <= 'z' || 'A' <= key[i] <= 'Z')
}

/// The line of a field.
spec fn field_line(key: Seq<char>, v: Seq<char>) -> Seq<char> {
    seq!['#', ' '] + key + seq![':', ' '] + v + seq!['\n']
}

/// The line of a field is a line, is not the separator, and sets the field.
proof fn lemma_field_line(h: Header, key: Seq<char>, v: Seq<char>)
    requires
        is_key(key),
        is_value(v),
        key.len() + v.len() + 5 <= MAX_HEADER_LINE_LENGTH,
    ensures
        is_line(field_line(key, v)),
        trim(field_line(key, v)) != "---"@,
        with_line(h, field_line(key, v)) == with_field(h, key, v),
{
    let l = field_line(key, v);
    reveal_strlit("# ");
    reveal_strlit("---");
    assert(is_ascii_chars(l)) by {
        assert forall|i: int| 0 <= i < l.len() implies '\0' <= #[trigger] l[i] <= '\u{7f}' by {
            if i < 2 {
            } else if i < 2 + key.len() {
                assert(l[i] == key[i - 2]);
            } else if i < 4 + key.len() {
            } else if i < 4 + key.len() + v.len() {
                assert(l[i] == v[i - 4 - key.len()]);
                assert(is_plain(v[i - 4 - key.len()]));
            } else {
            }
        }
    }
    assert forall|i: int| 0 <= i < l.len() - 1 implies #[trigger] l[i] != '\n' by {
        if i < 2 {
        } else if i < 2 + key.len() {
            assert(l[i] == key[i - 2]);
        } else if i < 4 + key.len() {
        } else {
            assert(l[i] == v[i - 4 - key.len()]);
            assert(is_plain(v[i - 4 - key.len()]));
        }
    }
    assert(l.last() == '\n');
    // The separator test.
    let pre = seq!['#', ' '] + key + seq![':', ' '];
    assert(l == pre + v + seq!['\n']);
    assert(is_plain(v.last()));
    assert(pre[0] == '#');
    lemma_trim_plain(pre, v);
    assert(trim(l) == pre + v);
    assert((pre + v).len() > 3);
    assert("---"@.len() == 3);
    // What the line gives.
    assert(has_at(l, 0, "# "@)) by {
        assert(l.subrange(0, 2) =~= "# "@);
    }
    let rest = l.skip(2);
    let inner = key + seq![':', ' '];
    assert(rest =~= inner + v + seq!['\n']);
    assert(inner[0] == key[0]);
    lemma_trim_plain(inner, v);
    let t = trim(rest);
    assert(t == inner + v);
    assert(t.subrange(0, key.len() as int) =~= key);
    assert(t[key.len() as int] == ':');
    assert(t[key.len() as int + 1] == ' ');
    lemma_colon_at(t, key, 0);
    assert(t.take(key.len() as int) =~= key);
    assert(t.skip(key.len() as int + 2) =~= v);
}

/// Lines that are not the separator, followed by the separator and the
/// content, are read one after the other.
proof fn lemma_scan_lines(
    lines: Seq<Seq<char>>,
    k: nat,
    content: Seq<u8>,
    bytes: Seq<u8>,
    count: nat,
    h: Header,
)
    requires
        k <= lines.len(),
        forall|i: int| 0 <= i < lines.len() ==> is_line(#[trigger] lines[i]),
        forall|i: int| 0 <= i < lines.len() ==> trim(#[trigger] lines[i]) != "---"@,
        count + (lines.len() - k) <= MAX_HEADER_LINES,
        content.len() <= MAX_CONTENT_SIZE,
        bytes == ascii_bytes(flat(lines, lines.len()) + "---\n"@) + content,
    ensures
        scan(bytes, flat(lines, k).len() as int, count, h) == (Scan::Found {
            header: with_lines(h, lines, k),
            content_start: flat(lines, lines.len()).len() as int + 4,
        }),
    decreases lines.len() - k,
{
    let all = flat(lines, lines.len());
    let text = all + "---\n"@;
    reveal_strlit("---\n");
    let pos = flat(lines, k).len() as int;
    if k < lines.len() {
        let l = lines[k as int];
        assert(is_line(l));
        assert(trim(l) != "---"@);
        assert(pos + l.len() <= all.len()) by {
            lemma_flat_index(lines, lines.len(), k, 0);
        }
        assert(bytes.subrange(pos, pos + l.len()) =~= ascii_bytes(l)) by {
            assert forall|i: int| 0 <= i < l.len() implies bytes.subrange(pos, pos + l.len())[i]
                == #[trigger] ascii_bytes(l)[i] by {
                lemma_flat_index(lines, lines.len(), k, i);
                assert(bytes[pos + i] == ascii_bytes(text)[pos + i]);
                assert(text[pos + i] == all[pos + i]);
            }
        }
        lemma_scan_line(bytes, pos, l, count, h);
        assert(flat(lines, k + 1) == flat(lines, k) + l);
        lemma_scan_lines(lines, k + 1, content, bytes, count + 1, with_line(h, l));
    } else {
        assert(pos == all.len());
        assert(bytes.subrange(pos, pos + 4) =~= ascii_bytes("---\n"@)) by {
            assert forall|i: int| 0 <= i < 4 implies bytes.subrange(pos, pos + 4)[i]
                == #[trigger] ascii_bytes("---\n"@)[i] by {
                assert(bytes[pos + i] == ascii_bytes(text)[pos + i]);
                assert(text[pos + i] == "---\n"@[i]);
            }
        }
        lemma_scan_separator(bytes, pos, count, h);
    }
}

spec fn pow10(k: nat) -> nat
    decreases k,
{
    if k == 0 {
        1
    } else {
        10 * pow10((k - 1) as nat)
    }
}

spec fn pow16(k: nat) -> nat
    decreases k,
{
    if k == 0 {
        1
    } else {
        16 * pow16((k - 1) as nat)
    }
}

proof fn lemma_decimal_len(n: nat, k: nat)
    requires
        k >= 1,
        n < pow10(k),
    ensures
        decimal(n).len() <= k,
    decreases k,
{
    if n >= 10 {
        assert(pow10(1) == 10) by {
            assert(pow10(0) == 1);
        }
        assert(k >= 2);
        lemma_decimal_len(n / 10, (k - 1) as nat);
    }
}

proof fn lemma_hex_len(n: nat, w: nat)
    requires
        w >= 1,
        n < pow16(w),
    ensures
        hex(n, w).len() == w,
    decreases w,
{
    if n < 16 && w <= 1 {
    } else {
        assert(pow16(1) == 16) by {
            assert(pow16(0) == 1);
        }
        assert(w >= 2);
        lemma_hex_len(n / 16, (w - 1) as nat);
    }
}

proof fn lemma_hex_plain(n: nat, w: nat)
    ensures
        forall|i: int| 0 <= i < hex(n, w).len() ==> is_plain(#[trigger] hex(n, w)[i]),
        forall|i: int| 0 <= i < hex(n, w).len() ==> is_hex_digit(#[trigger] hex(n, w)[i]),
        hex(n, w).len() >= 1,
    decreases n + w,
{
    if n < 16 && w <= 1 {
        assert(is_plain(digit_char(n)));
        assert(is_hex_digit(digit_char(n)));
    } else {
        let rest: nat = if w > 0 {
            (w - 1) as nat
        } else {
            0
        };
        lemma_hex_plain(n / 16, rest);
        let head = hex(n / 16, rest);
        let s = hex(n, w);
        assert(s == head.push(digit_char(n % 16)));
        assert(is_plain(digit_char(n % 16)));
        assert(is_hex_digit(digit_char(n % 16)));
        assert forall|i: int| 0 <= i < s.len() implies is_plain(#[trigger] s[i]) by {
            if i < head.len() {
                assert(s[i] == head[i]);
            }
        }
        assert forall|i: int| 0 <= i < s.len() implies is_hex_digit(#[trigger] s[i]) by {
            if i < head.len() {
                assert(s[i] == head[i]);
            }
        }
    }
}

proof fn lemma_pow10_20()
    ensures
        pow10(20) == 100000000000000000000nat,
{
    assert(pow10(0) == 1);
    assert(pow10(1) == 10);
    assert(pow10(2) == 100);
    assert(pow10(3) == 1000);
    assert(pow10(4) == 10000);
    assert(pow10(5) == 100000);
    assert(pow10(6) == 1000000);
    assert(pow10(7) == 10000000);
    assert(pow10(8) == 100000000);
    assert(pow10(9) == 1000000000);
    assert(pow10(10) == 10000000000);
    assert(pow10(11) == 100000000000);
    assert(pow10(12) == 1000000000000);
    assert(pow10(13) == 10000000000000);
    assert(pow10(14) == 100000000000000);
    assert(pow10(15) == 1000000000000000);
    assert(pow10(16) == 10000000000000000);
    assert(pow10(17) == 100000000000000000);
    assert(pow10(18) == 1000000000000000000);
    assert(pow10(19) == 10000000000000000000);
}

proof fn lemma_pow16_16()
    ensures
        pow16(16) == 0x1_0000_0000_0000_0000nat,
{
    assert(pow16(0) == 1);
    assert(pow16(1) == 0x10);
    assert(pow16(2) == 0x100);
    assert(pow16(3) == 0x1000);
    assert(pow16(4) == 0x10000);
    assert(pow16(5) == 0x100000);
    assert(pow16(6) == 0x1000000);
    assert(pow16(7) == 0x10000000);
    assert(pow16(8) == 0x100000000);
    assert(pow16(9) == 0x1000000000);
    assert(pow16(10) == 0x10000000000);
    assert(pow16(11) == 0x100000000000);
    assert(pow16(12) == 0x1000000000000);
    assert(pow16(13) == 0x10000000000000);
    assert(pow16(14) == 0x100000000000000);
    assert(pow16(15) == 0x1000000000000000);
}

/// A decimal number of at most 64 bits is a value of at most twenty digits.
proof fn lemma_decimal_value(n: nat)
    requires
        n <= u64::MAX,
    ensures
        is_value(decimal(n)),
        decimal(n).len() <= 20,
{
    lemma_decimal_digits(n);
    lemma_pow10_20();
    lemma_decimal_len(n, 20);
    assert forall|i: int| 0 <= i < decimal(n).len() implies is_plain(#[trigger] decimal(n)[i]) by {
        assert(is_digit(decimal(n)[i]));
    }
}

/// The digest text is a value of sixteen characters.
proof fn lemma_hash_value(content: Seq<u8>)
    ensures
        is_value(hash_text(content)),
        hash_text(content).len() == 16,
        is_digest(hash_text(content)),
{
    lemma_pow16_16();
    lemma_hex_len(fnv1a(content) as nat, 16);
    lemma_hex_plain(fnv1a(content) as nat, 16);
}

/// The separator is no header line: where the line at `pos` is the
/// separator, what the reader gives does not depend on how many header lines
/// came before it.
pub proof fn lemma_separator_is_not_counted(
    bytes: Seq<u8>,
    pos: int,
    count: nat,
    other: nat,
    h: Header,
)
    requires
        0 <= pos < bytes.len(),
        valid_utf8(bytes.subrange(pos, pos + line_len(bytes, pos))),
        trim(decode_utf8(bytes.subrange(pos, pos + line_len(bytes, pos)))) == "---"@,
    ensures
        scan(bytes, pos, count, h) == scan(bytes, pos, other, h),
{
}

/// The digest of any content has the form of a digest, so a reader takes it
/// from a header as it stands, whatever content follows the header.
pub proof fn lemma_hash_is_digest(content: Seq<u8>, other: Seq<u8>)
    ensures
        is_digest(hash_text(content)),
        digest_or(Some(hash_text(content)), other) == hash_text(content),
{
    lemma_hash_value(content);
}

/// Each of the three type words names its type to a reader, whatever the
/// content is; any other word, like a missing field, leaves the type to the
/// content.
pub proof fn lemma_type_word_decides(t: FileType, word: Seq<char>, content: Seq<u8>)
    ensures
        kind_or(Some(file_type_name(t)), content) == t,
        word != "text"@ && word != "json"@ && word != "binary"@ ==> kind_or(Some(word), content)
            == content_type(content),
        kind_or(None, content) == content_type(content),
{
    lemma_type_words(t);
}

/// The six field lines of a header.
spec fn field_lines(d: Details) -> Seq<Seq<char>> {
    seq![
        field_line("Snapshot"@, d.name),
        field_line("Created"@, decimal(d.created_at as nat)),
        field_line("Updated"@, decimal(d.updated_at as nat)),
        field_line("Hash"@, d.content_hash),
        field_line("Size"@, decimal(d.size as nat)),
        field_line("Type"@, file_type_name(d.file_type)),
    ]
}

proof fn lemma_keys()
    ensures
        is_key("Snapshot"@),
        is_key("Created"@),
        is_key("Updated"@),
        is_key("Hash"@),
        is_key("Size"@),
        is_key("Type"@),
        "Snapshot"@.len() == 8,
        "Created"@.len() == 7,
        "Updated"@.len() == 7,
        "Hash"@.len() == 4,
        "Size"@.len() == 4,
        "Type"@.len() == 4,
        "Created"@ != "Updated"@,
        "Hash"@ != "Size"@,
        "Hash"@ != "Type"@,
        "Size"@ != "Type"@,
{
    reveal_strlit("Snapshot");
    reveal_strlit("Created");
    reveal_strlit("Updated");
    reveal_strlit("Hash");
    reveal_strlit("Size");
    reveal_strlit("Type");
    assert("Created"@[0] != "Updated"@[0]);
    assert("Hash"@[0] != "Size"@[0]);
    assert("Hash"@[0] != "Type"@[0]);
    assert("Size"@[0] != "Type"@[0]);
}

proof fn lemma_type_words(t: FileType)
    ensures
        is_value(file_type_name(t)),
        file_type_name(t).len() <= 6,
        forall|content: Seq<u8>| #[trigger] kind_or(Some(file_type_name(t)), content) == t,
{
    reveal_strlit("text");
    reveal_strlit("json");
    reveal_strlit("binary");
    assert("text"@[0] != "json"@[0]);
    assert("text"@.len() != "binary"@.len());
    assert("json"@.len() != "binary"@.len());
    let w = file_type_name(t);
    assert forall|i: int| 0 <= i < w.len() implies is_plain(#[trigger] w[i]) by {}
}

/// The header text is its six field lines and the separator.
proof fn lemma_header_lines(d: Details)
    ensures
        header_text(d) == flat(field_lines(d), 6) + "---\n"@,
{
    reveal_strlit("# Snapshot: ");
    reveal_strlit("# Created: ");
    reveal_strlit("# Updated: ");
    reveal_strlit("# Hash: ");
    reveal_strlit("# Size: ");
    reveal_strlit("# Type: ");
    reveal_strlit("Snapshot");
    reveal_strlit("Created");
    reveal_strlit("Updated");
    reveal_strlit("Hash");
    reveal_strlit("Size");
    reveal_strlit("Type");
    reveal_strlit("\n");
    let lines = field_lines(d);
    assert("# Snapshot: "@ =~= seq!['#', ' '] + "Snapshot"@ + seq![':', ' ']);
    assert("# Created: "@ =~= seq!['#', ' '] + "Created"@ + seq![':', ' ']);
    assert("# Updated: "@ =~= seq!['#', ' '] + "Updated"@ + seq![':', ' ']);
    assert("# Hash: "@ =~= seq!['#', ' '] + "Hash"@ + seq![':', ' ']);
    assert("# Size: "@ =~= seq!['#', ' '] + "Size"@ + seq![':', ' ']);
    assert("# Type: "@ =~= seq!['#', ' '] + "Type"@ + seq![':', ' ']);
    assert("\n"@ =~= seq!['\n']);
    assert(flat(lines, 0) == Seq::<char>::empty());
    assert(flat(lines, 1) =~= lines[0]);
    assert(flat(lines, 2) == flat(lines, 1) + lines[1]);
    assert(flat(lines, 3) == flat(lines, 2) + lines[2]);
    assert(flat(lines, 4) == flat(lines, 3) + lines[3]);
    assert(flat(lines, 5) == flat(lines, 4) + lines[4]);
    assert(flat(lines, 6) == flat(lines, 5) + lines[5]);
    let h1 = "# Snapshot: "@ + d.name + "\n"@;
    assert(h1 =~= lines[0]);
    let h2 = h1 + "# Created: "@ + decimal(d.created_at as nat) + "\n"@;
    assert(h2 =~= flat(lines, 1) + lines[1]);
    let h3 = h2 + "# Updated: "@ + decimal(d.updated_at as nat) + "\n"@;
    assert(h3 =~= flat(lines, 2) + lines[2]);
    let h4 = h3 + "# Hash: "@ + d.content_hash + "\n"@;
    assert(h4 =~= flat(lines, 3) + lines[3]);
    let h5 = h4 + "# Size: "@ + decimal(d.size as nat) + "\n"@;
    assert(h5 =~= flat(lines, 4) + lines[4]);
    let h6 = h5 + "# Type: "@ + file_type_name(d.file_type) + "\n"@;
    assert(h6 =~= flat(lines, 5) + lines[5]);
    assert(header_text(d) == h6 + "---\n"@);
}

/// Round trip: the file written for a storable snapshot, read back under any
/// lookup name, gives the snapshot again, metadata and content.
pub proof fn lemma_round_trip(name: Seq<char>, b: Baseline)
    requires
        storable(b),
    ensures
        opened(name, envelope(b)) == Ok::<Baseline, Failure>(b),
        name_check(name) is Ok ==> read_outcome(name, Some(envelope(b))) == Ok::<
            Baseline,
            Failure,
        >(b),
{
    let d = b.details;
    let lines = field_lines(d);
    lemma_keys();
    lemma_decimal_value(d.created_at as nat);
    lemma_decimal_value(d.updated_at as nat);
    lemma_decimal_value(d.size as nat);
    lemma_hash_value(b.content);
    lemma_type_words(d.file_type);
    assert(is_value(d.name)) by {
        assert forall|i: int| 0 <= i < d.name.len() implies is_plain(#[trigger] d.name[i]) by {
            assert(is_name_char(d.name[i]));
        }
    }
    let h0 = no_fields();
    lemma_field_line(h0, "Snapshot"@, d.name);
    let h1 = with_field(h0, "Snapshot"@, d.name);
    lemma_field_line(h1, "Created"@, decimal(d.created_at as nat));
    let h2 = with_field(h1, "Created"@, decimal(d.created_at as nat));
    lemma_field_line(h2, "Updated"@, decimal(d.updated_at as nat));
    let h3 = with_field(h2, "Updated"@, decimal(d.updated_at as nat));
    lemma_field_line(h3, "Hash"@, d.content_hash);
    let h4 = with_field(h3, "Hash"@, d.content_hash);
    lemma_field_line(h4, "Size"@, decimal(d.size as nat));
    let h5 = with_field(h4, "Size"@, decimal(d.size as nat));
    lemma_field_line(h5, "Type"@, file_type_name(d.file_type));
    let h6 = with_field(h5, "Type"@, file_type_name(d.file_type));
    assert(with_lines(h0, lines, 0) == h6) by {
        assert(with_lines(h6, lines, 6) == h6);
        assert(with_lines(h5, lines, 5) == with_lines(with_line(h5, lines[5]), lines, 6));
        assert(with_lines(h4, lines, 4) == with_lines(with_line(h4, lines[4]), lines, 5));
        assert(with_lines(h3, lines, 3) == with_lines(with_line(h3, lines[3]), lines, 4));
        assert(with_lines(h2, lines, 2) == with_lines(with_line(h2, lines[2]), lines, 3));
        assert(with_lines(h1, lines, 1) == with_lines(with_line(h1, lines[1]), lines, 2));
        assert(with_lines(h0, lines, 0) == with_lines(with_line(h0, lines[0]), lines, 1));
    }
    lemma_header_lines(d);
    let text = header_text(d);
    reveal_strlit("---\n");
    assert(is_ascii_chars(text)) by {
        assert forall|i: int| 0 <= i < text.len() implies '\0' <= #[trigger] text[i]
            <= '\u{7f}' by {
            lemma_text_ascii(lines, i);
        }
    }
    lemma_ascii_encoding(text);
    let bytes = envelope(b);
    assert(bytes == ascii_bytes(flat(lines, 6) + "---\n"@) + b.content);
    assert(flat(lines, 0).len() == 0);
    lemma_scan_lines(lines, 0, b.content, bytes, 0, h0);
    let start = flat(lines, 6).len() as int + 4;
    assert(text.len() == start);
    assert(bytes.skip(start) =~= b.content);
    lemma_decimal_round_trip(d.created_at as nat, u64::MAX as nat);
    lemma_decimal_round_trip(d.updated_at as nat, u64::MAX as nat);
    lemma_decimal_round_trip(d.size as nat, usize::MAX as nat);
    assert(kind_or(Some(file_type_name(d.file_type)), b.content) == d.file_type) by {
        lemma_type_words(d.file_type);
    }
    assert(details_from(name, h6, b.content) == d);
}

/// A character of the header is one of a line or of the separator.
proof fn lemma_text_ascii(lines: Seq<Seq<char>>, i: int)
    requires
        lines.len() == 6,
        forall|k: int| 0 <= k < 6 ==> is_line(#[trigger] lines[k]),
        0 <= i < (flat(lines, 6) + "---\n"@).len(),
    ensures
        '\0' <= (flat(lines, 6) + "---\n"@)[i] <= '\u{7f}',
{
    reveal_strlit("---\n");
    let all = flat(lines, 6);
    if i < all.len() {
        lemma_flat_ascii(lines, 6, i);
    }
}

proof fn lemma_flat_ascii(lines: Seq<Seq<char>>, n: nat, i: int)
    requires
        n <= lines.len(),
        forall|k: int| 0 <= k < lines.len() ==> is_line(#[trigger] lines[k]),
        0 <= i < flat(lines, n).len(),
    ensures
        '\0' <= flat(lines, n)[i] <= '\u{7f}',
    decreases n,
{
    if n > 0 {
        let head = flat(lines, (n - 1) as nat);
        if i < head.len() {
            lemma_flat_ascii(lines, (n - 1) as nat, i);
        } else {
            assert(is_line(lines[n - 1]));
            assert(flat(lines, n)[i] == lines[n - 1][i - head.len()]);
        }
    }
}

} // verus!

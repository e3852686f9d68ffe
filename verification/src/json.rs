//! A small JSON value model and its recursive-descent parser.

use vstd::prelude::*;
use crate::text::{
    from_chars, is_digit, is_text, push_all, push_str, slice_of, text_of, to_chars, trim, trimmed,
};

verus! {

/// A parsed value. Objects keep their entries in the order written, with
/// duplicate keys; a number keeps the text it was written as.
#[derive(Debug, PartialEq)]
pub enum JsonValue {
    Null,
    Bool(bool),
    Number(String),
    String(String),
    Array(Vec<JsonValue>),
    Object(Vec<(String, JsonValue)>),
}

/// The mathematical value of a `JsonEntry`.
pub struct EntryModel {
    pub key: Seq<char>,
    pub value: JsonModel,
}

/// The mathematical value of a `JsonValue`.
pub enum JsonModel {
    Null,
    Bool(bool),
    Number(Seq<char>),
    String(Seq<char>),
    Array(Seq<JsonModel>),
    Object(Seq<EntryModel>),
}

impl View for JsonValue {
    type V = JsonModel;

    open spec fn view(&self) -> JsonModel
        decreases self,
    {
        match self {
            JsonValue::Null => JsonModel::Null,
            JsonValue::Bool(b) => JsonModel::Bool(*b),
            JsonValue::Number(n) => JsonModel::Number(n@),
            JsonValue::String(s) => JsonModel::String(s@),
            JsonValue::Array(items) => JsonModel::Array(
                Seq::new(
                    items@.len(),
                    |i: int|
                        if 0 <= i < items@.len() {
                            items@[i].view()
                        } else {
                            JsonModel::Null
                        },
                ),
            ),
            JsonValue::Object(entries) => JsonModel::Object(
                Seq::new(
                    entries@.len(),
                    |i: int|
                        if 0 <= i < entries@.len() {
                            EntryModel { key: entries@[i].0@, value: entries@[i].1.view() }
                        } else {
                            EntryModel { key: Seq::empty(), value: JsonModel::Null }
                        },
                ),
            ),
        }
    }
}

/// The views of a sequence of values.
pub open spec fn models(items: Seq<JsonValue>) -> Seq<JsonModel> {
    Seq::new(items.len(), |i: int| items[i]@)
}

/// The views of a sequence of object entries.
pub open spec fn entry_models(entries: Seq<(String, JsonValue)>) -> Seq<EntryModel> {
    Seq::new(entries.len(), |i: int| EntryModel { key: entries[i].0@, value: entries[i].1@ })
}

/// What the view of an array and of an object is.
pub proof fn lemma_view_of_containers(v: JsonValue)
    ensures
        v matches JsonValue::Array(items) ==> v@ == JsonModel::Array(models(items@)),
        v matches JsonValue::Object(entries) ==> v@ == JsonModel::Object(entry_models(entries@)),
{
    match v {
        JsonValue::Array(items) => {
            assert(v@->Array_0 =~= models(items@));
        },
        JsonValue::Object(entries) => {
            assert(v@->Object_0 =~= entry_models(entries@));
        },
        _ => {},
    }
}

impl JsonValue {
    /// A value equal to this one.
    pub fn duplicate(&self) -> (r: JsonValue)
        ensures
            r@ == self@,
        decreases self,
    {
        match self {
            JsonValue::Null => JsonValue::Null,
            JsonValue::Bool(b) => JsonValue::Bool(*b),
            JsonValue::Number(n) => JsonValue::Number(n.clone()),
            JsonValue::String(s) => JsonValue::String(s.clone()),
            JsonValue::Array(items) => {
                let mut copy: Vec<JsonValue> = Vec::new();
                let mut i: usize = 0;
                while i < items.len()
                    invariant
                        i <= items.len(),
                        *self == JsonValue::Array(*items),
                        copy@.len() == i,
                        forall|k: int| 0 <= k < i ==> (#[trigger] copy@[k])@ == items@[k]@,
                    decreases items.len() - i,
                {
                    assert(decreases_to!(*self => self->Array_0));
                    assert(decreases_to!(items => items[i as int]));
                    copy.push(items[i].duplicate());
                    i += 1;
                }
                let r = JsonValue::Array(copy);
                proof {
                    lemma_view_of_containers(r);
                    lemma_view_of_containers(*self);
                    assert(models(copy@) =~= models(items@));
                }
                r
            },
            JsonValue::Object(entries) => {
                let mut copy: Vec<(String, JsonValue)> = Vec::new();
                let mut i: usize = 0;
                while i < entries.len()
                    invariant
                        i <= entries.len(),
                        *self == JsonValue::Object(*entries),
                        copy@.len() == i,
                        forall|k: int|
                            0 <= k < i ==> (#[trigger] copy@[k]).0@ == entries@[k].0@
                                && copy@[k].1@ == entries@[k].1@,
                    decreases entries.len() - i,
                {
                    assert(decreases_to!(*self => self->Object_0));
                    assert(decreases_to!(entries => entries[i as int]));
                    assert(decreases_to!(entries[i as int] => entries[i as int].1));
                    copy.push((entries[i].0.clone(), entries[i].1.duplicate()));
                    i += 1;
                }
                let r = JsonValue::Object(copy);
                proof {
                    lemma_view_of_containers(r);
                    lemma_view_of_containers(*self);
                    assert(entry_models(copy@) =~= entry_models(entries@));
                }
                r
            },
        }
    }
}

impl Clone for JsonValue {
    fn clone(&self) -> (r: Self)
        ensures
            r@ == self@,
    {
        self.duplicate()
    }
}

/// Why a text is no JSON value.
#[derive(Debug, Clone)]
pub struct JsonError {
    /// A short diagnostic.
    pub message: String,
}


impl JsonError {
    /// The one-line description of the error.
    pub fn to_string(&self) -> (r: String)
        ensures
            r@ == "JSON parse error: "@ + self.message@,
    {
        let mut out: Vec<char> = Vec::new();
        push_str(&mut out, "JSON parse error: ");
        assert(out@ == "JSON parse error: "@);
        push_str(&mut out, self.message.as_str());
        from_chars(&out)
    }
}

/// A parse failure with the given diagnostic.
fn error(message: &str) -> (e: JsonError)
    ensures
        e.message@ == message@,
{
    JsonError { message: text_of(message) }
}

/// A parse failure whose diagnostic is `prefix` followed by `detail`.
fn error_with(prefix: &str, detail: &Vec<char>) -> (e: JsonError)
    ensures
        e.message@ == prefix@ + detail@,
{
    let mut m: Vec<char> = Vec::new();
    push_str(&mut m, prefix);
    push_all(&mut m, detail);
    assert(m@ == prefix@ + detail@);
    JsonError { message: from_chars(&m) }
}

// ---------------------------------------------------------------------------
// The grammar, as functions of the text and a position
// ---------------------------------------------------------------------------

/// What parsing at a position gives: a value and the position after it, or a
/// diagnostic.
pub enum Parsed<T> {
    Done { value: T, next: int },
    Fail { message: Seq<char> },
}

/// The characters that may stand between tokens.
pub open spec fn is_json_space(c: char) -> bool {
    c == ' ' || c == '\n' || c == '\r' || c == '\t'
}

/// How many characters of `s` are left at `pos`.
pub open spec fn remaining(s: Seq<char>, pos: int) -> nat {
    if 0 <= pos < s.len() {
        (s.len() - pos) as nat
    } else {
        0
    }
}

/// The length of the run of space at `pos`.
pub open spec fn space_run(s: Seq<char>, pos: int) -> nat
    decreases remaining(s, pos),
{
    if 0 <= pos < s.len() && is_json_space(s[pos]) {
        1 + space_run(s, pos + 1)
    } else {
        0
    }
}

/// The first position at or after `pos` that holds no space.
pub open spec fn after_space(s: Seq<char>, pos: int) -> int {
    pos + space_run(s, pos)
}

/// The length of the run of lower-case letters at `pos`.
pub open spec fn word_run(s: Seq<char>, pos: int) -> nat
    decreases remaining(s, pos),
{
    if 0 <= pos < s.len() && 'a' <= s[pos] <= 'z' {
        1 + word_run(s, pos + 1)
    } else {
        0
    }
}

/// The characters a number may be made of.
pub open spec fn is_number_char(c: char) -> bool {
    is_digit(c) || c == '.' || c == 'e' || c == 'E' || c == '+' || c == '-'
}

/// The length of the run of number characters at `pos`.
pub open spec fn number_run(s: Seq<char>, pos: int) -> nat
    decreases remaining(s, pos),
{
    if 0 <= pos < s.len() && is_number_char(s[pos]) {
        1 + number_run(s, pos + 1)
    } else {
        0
    }
}

/// The length of the run of decimal digits at `pos`.
pub open spec fn digit_run(s: Seq<char>, pos: int) -> nat
    decreases remaining(s, pos),
{
    if 0 <= pos < s.len() && is_digit(s[pos]) {
        1 + digit_run(s, pos + 1)
    } else {
        0
    }
}

/// Whether `c` is a sign.
pub open spec fn is_sign(c: char) -> bool {
    c == '+' || c == '-'
}

/// Whether `s` is the text of a decimal floating-point number: an optional
/// sign; digits with at most one `.` among them and at least one digit; then
/// optionally `e` or `E`, an optional sign and at least one digit.
pub open spec fn is_number_text(s: Seq<char>) -> bool {
    let p0: int = if s.len() > 0 && is_sign(s[0]) { 1 } else { 0 };
    let whole = digit_run(s, p0);
    let p1 = p0 + whole;
    let dotted = p1 < s.len() && s[p1] == '.';
    let p2 = if dotted { p1 + 1 } else { p1 };
    let fraction = if dotted { digit_run(s, p2) } else { 0 };
    let p3 = p2 + fraction;
    &&& whole + fraction > 0
    &&& p3 == s.len() || {
        let p4 = p3 + 1;
        let p5 = if p4 < s.len() && is_sign(s[p4]) { p4 + 1 } else { p4 };
        &&& p3 < s.len()
        &&& s[p3] == 'e' || s[p3] == 'E'
        &&& digit_run(s, p5) > 0
        &&& p5 + digit_run(s, p5) == s.len()
    }
}

/// The character that `\` followed by `c` stands for.
pub open spec fn escaped(c: char) -> Option<char> {
    if c == 'n' {
        Some('\n')
    } else if c == 'r' {
        Some('\r')
    } else if c == 't' {
        Some('\t')
    } else if c == '\\' {
        Some('\\')
    } else if c == '"' {
        Some('"')
    } else {
        None
    }
}

/// The rest of a string after its opening quote, `acc` being what was read
/// of it so far.
pub open spec fn string_body(s: Seq<char>, pos: int, acc: Seq<char>) -> Parsed<Seq<char>>
    decreases remaining(s, pos),
{
    if !(0 <= pos < s.len()) {
        Parsed::Fail { message: "Unterminated string"@ }
    } else if s[pos] == '"' {
        Parsed::Done { value: acc, next: pos + 1 }
    } else if s[pos] == '\\' {
        if pos + 1 < s.len() && escaped(s[pos + 1]) is Some {
            string_body(s, pos + 2, acc.push(escaped(s[pos + 1])->0))
        } else {
            Parsed::Fail { message: "Invalid escape sequence"@ }
        }
    } else {
        string_body(s, pos + 1, acc.push(s[pos]))
    }
}

/// A double-quoted string at `pos`.
pub open spec fn string_at(s: Seq<char>, pos: int) -> Parsed<Seq<char>> {
    if 0 <= pos < s.len() && s[pos] == '"' {
        string_body(s, pos + 1, Seq::empty())
    } else {
        Parsed::Fail { message: "Expected '\"'"@ }
    }
}

/// `true` or `false` at `pos`.
pub open spec fn bool_at(s: Seq<char>, pos: int) -> Parsed<JsonModel> {
    let end = pos + word_run(s, pos);
    let word = s.subrange(pos, end);
    if word == "true"@ {
        Parsed::Done { value: JsonModel::Bool(true), next: end }
    } else if word == "false"@ {
        Parsed::Done { value: JsonModel::Bool(false), next: end }
    } else {
        Parsed::Fail { message: "Invalid boolean: "@ + word }
    }
}

/// `null` at `pos`.
pub open spec fn null_at(s: Seq<char>, pos: int) -> Parsed<JsonModel> {
    let end = pos + word_run(s, pos);
    let word = s.subrange(pos, end);
    if word == "null"@ {
        Parsed::Done { value: JsonModel::Null, next: end }
    } else {
        Parsed::Fail { message: "Invalid null: "@ + word }
    }
}

/// A number at `pos`: an optional `-`, then the longest run of number
/// characters, which together must be the text of a number.
pub open spec fn number_at(s: Seq<char>, pos: int) -> Parsed<JsonModel> {
    let start = if 0 <= pos < s.len() && s[pos] == '-' { pos + 1 } else { pos };
    let end = start + number_run(s, start);
    let text = s.subrange(pos, end);
    if is_number_text(text) {
        Parsed::Done { value: JsonModel::Number(text), next: end }
    } else {
        Parsed::Fail { message: "Invalid number: "@ + text }
    }
}

/// A value at `pos`, after any space.
pub open spec fn value_at(s: Seq<char>, pos: int) -> Parsed<JsonModel>
    decreases remaining(s, pos), 1nat,
{
    let p = after_space(s, pos);
    if !(0 <= pos <= p < s.len()) {
        Parsed::Fail { message: "Unexpected character"@ }
    } else if s[p] == '{' {
        object_at(s, p)
    } else if s[p] == '[' {
        array_at(s, p)
    } else if s[p] == '"' {
        match string_at(s, p) {
            Parsed::Done { value, next } => Parsed::Done { value: JsonModel::String(value), next },
            Parsed::Fail { message } => Parsed::Fail { message },
        }
    } else if s[p] == 't' || s[p] == 'f' {
        bool_at(s, p)
    } else if s[p] == 'n' {
        null_at(s, p)
    } else if s[p] == '-' || is_digit(s[p]) {
        number_at(s, p)
    } else {
        Parsed::Fail { message: "Unexpected character"@ }
    }
}

/// An array whose `[` stands at `pos`.
pub open spec fn array_at(s: Seq<char>, pos: int) -> Parsed<JsonModel>
    decreases remaining(s, pos), 0nat,
{
    let q = after_space(s, pos + 1);
    if !(0 <= pos < s.len() && pos < q) {
        Parsed::Fail { message: "Unexpected character"@ }
    } else if q < s.len() && s[q] == ']' {
        Parsed::Done { value: JsonModel::Array(Seq::empty()), next: q + 1 }
    } else {
        elements_from(s, q, Seq::empty())
    }
}

/// The elements of an array from `pos` on, up to its `]`; `acc` holds the
/// elements before them.
pub open spec fn elements_from(s: Seq<char>, pos: int, acc: Seq<JsonModel>) -> Parsed<JsonModel>
    decreases remaining(s, pos), 2nat,
{
    match value_at(s, pos) {
        Parsed::Fail { message } => Parsed::Fail { message },
        Parsed::Done { value, next } => {
            let q = after_space(s, next);
            if 0 <= pos <= q < s.len() && s[q] == ',' {
                elements_from(s, q + 1, acc.push(value))
            } else if 0 <= q < s.len() && s[q] == ']' {
                Parsed::Done { value: JsonModel::Array(acc.push(value)), next: q + 1 }
            } else {
                Parsed::Fail { message: "Expected ',' or ']'"@ }
            }
        },
    }
}

/// An object whose `{` stands at `pos`.
pub open spec fn object_at(s: Seq<char>, pos: int) -> Parsed<JsonModel>
    decreases remaining(s, pos), 0nat,
{
    let q = after_space(s, pos + 1);
    if !(0 <= pos < s.len() && pos < q) {
        Parsed::Fail { message: "Unexpected character"@ }
    } else if q < s.len() && s[q] == '}' {
        Parsed::Done { value: JsonModel::Object(Seq::empty()), next: q + 1 }
    } else {
        members_from(s, q, Seq::empty())
    }
}

/// The entries of an object from `pos` on, up to its `}`; `acc` holds the
/// entries before them.
pub open spec fn members_from(s: Seq<char>, pos: int, acc: Seq<EntryModel>) -> Parsed<JsonModel>
    decreases remaining(s, pos), 2nat,
{
    match string_at(s, after_space(s, pos)) {
        Parsed::Fail { message } => Parsed::Fail { message },
        Parsed::Done { value: key, next: after_key } => {
            let colon = after_space(s, after_key);
            if !(0 <= pos <= colon < s.len() && s[colon] == ':') {
                Parsed::Fail { message: "Expected ':'"@ }
            } else {
                match value_at(s, colon + 1) {
                    Parsed::Fail { message } => Parsed::Fail { message },
                    Parsed::Done { value, next } => {
                        let q = after_space(s, next);
                        let entries = acc.push(EntryModel { key, value });
                        if colon < q < s.len() && s[q] == ',' {
                            members_from(s, q + 1, entries)
                        } else if 0 <= q < s.len() && s[q] == '}' {
                            Parsed::Done { value: JsonModel::Object(entries), next: q + 1 }
                        } else {
                            Parsed::Fail { message: "Expected ',' or '}'"@ }
                        }
                    },
                }
            }
        },
    }
}

/// The value that `input` holds once the whitespace around it is trimmed, or
/// the diagnostic of the first error. Text after the value is not looked at.
pub open spec fn parsed(input: Seq<char>) -> Result<JsonModel, Seq<char>> {
    match value_at(trim(input), 0) {
        Parsed::Done { value, next } => Ok(value),
        Parsed::Fail { message } => Err(message),
    }
}

// ---------------------------------------------------------------------------
// The parser
// ---------------------------------------------------------------------------

/// What an exec result stands for in the grammar.
pub open spec fn value_outcome(r: Result<(JsonValue, usize), JsonError>) -> Parsed<JsonModel> {
    match r {
        Ok((value, next)) => Parsed::Done { value: value@, next: next as int },
        Err(e) => Parsed::Fail { message: e.message@ },
    }
}

/// What an exec string result stands for in the grammar.
pub open spec fn text_outcome(r: Result<(String, usize), JsonError>) -> Parsed<Seq<char>> {
    match r {
        Ok((value, next)) => Parsed::Done { value: value@, next: next as int },
        Err(e) => Parsed::Fail { message: e.message@ },
    }
}

/// Whether a result, if it is a success, ends after `pos` and within `len`.
pub open spec fn advances<T>(r: Result<(T, usize), JsonError>, pos: usize, len: usize) -> bool {
    r matches Ok((_, next)) ==> pos < next <= len
}

/// Skips the space at `pos`.
pub fn skip_whitespace(s: &Vec<char>, pos: usize) -> (p: usize)
    requires
        pos <= s.len(),
    ensures
        p == after_space(s@, pos as int),
        pos <= p <= s.len(),
{
    let mut p: usize = pos;
    while p < s.len() && (s[p] == ' ' || s[p] == '\n' || s[p] == '\r' || s[p] == '\t')
        invariant
            pos <= p <= s.len(),
            after_space(s@, pos as int) == after_space(s@, p as int),
        decreases s.len() - p,
    {
        p += 1;
    }
    p
}

/// The end of the run of lower-case letters at `pos`.
fn word_end(s: &Vec<char>, pos: usize) -> (p: usize)
    requires
        pos <= s.len(),
    ensures
        p == pos + word_run(s@, pos as int),
        pos <= p <= s.len(),
{
    let mut p: usize = pos;
    while p < s.len() && 'a' <= s[p] && s[p] <= 'z'
        invariant
            pos <= p <= s.len(),
            pos + word_run(s@, pos as int) == p + word_run(s@, p as int),
        decreases s.len() - p,
    {
        p += 1;
    }
    p
}

/// Decides `is_number_char`.
fn number_char(c: char) -> (r: bool)
    ensures
        r == is_number_char(c),
{
    ('0' <= c && c <= '9') || c == '.' || c == 'e' || c == 'E' || c == '+' || c == '-'
}

/// The end of the run of number characters at `pos`.
fn number_end(s: &Vec<char>, pos: usize) -> (p: usize)
    requires
        pos <= s.len(),
    ensures
        p == pos + number_run(s@, pos as int),
        pos <= p <= s.len(),
{
    let mut p: usize = pos;
    while p < s.len() && number_char(s[p])
        invariant
            pos <= p <= s.len(),
            pos + number_run(s@, pos as int) == p + number_run(s@, p as int),
        decreases s.len() - p,
    {
        p += 1;
    }
    p
}

/// The end of the run of digits at `pos`.
fn digit_end(s: &Vec<char>, pos: usize) -> (p: usize)
    requires
        pos <= s.len(),
    ensures
        p == pos + digit_run(s@, pos as int),
        pos <= p <= s.len(),
{
    let mut p: usize = pos;
    while p < s.len() && '0' <= s[p] && s[p] <= '9'
        invariant
            pos <= p <= s.len(),
            pos + digit_run(s@, pos as int) == p + digit_run(s@, p as int),
        decreases s.len() - p,
    {
        p += 1;
    }
    p
}

/// Decides `is_number_text`.
pub fn number_text(s: &Vec<char>) -> (r: bool)
    ensures
        r == is_number_text(s@),
{
    let p0: usize = if s.len() > 0 && (s[0] == '+' || s[0] == '-') {
        1
    } else {
        0
    };
    let p1 = digit_end(s, p0);
    let dotted = p1 < s.len() && s[p1] == '.';
    let p2: usize = if dotted {
        p1 + 1
    } else {
        p1
    };
    let p3: usize = if dotted {
        digit_end(s, p2)
    } else {
        p2
    };
    if (p1 - p0) + (p3 - p2) == 0 {
        return false;
    }
    if p3 == s.len() {
        return true;
    }
    if !(s[p3] == 'e' || s[p3] == 'E') {
        return false;
    }
    let p4: usize = p3 + 1;
    let p5: usize = if p4 < s.len() && (s[p4] == '+' || s[p4] == '-') {
        p4 + 1
    } else {
        p4
    };
    let p6 = digit_end(s, p5);
    p6 > p5 && p6 == s.len()
}

/// Reads the string at `pos`.
pub fn parse_string(s: &Vec<char>, pos: usize) -> (r: Result<(String, usize), JsonError>)
    requires
        pos <= s.len(),
    ensures
        text_outcome(r) == string_at(s@, pos as int),
        advances(r, pos, s.len()),
{
    if !(pos < s.len() && s[pos] == '"') {
        return Err(error("Expected '\"'"));
    }
    let mut acc: Vec<char> = Vec::new();
    let mut i: usize = pos + 1;
    loop
        invariant
            pos < i <= s.len(),
            string_at(s@, pos as int) == string_body(s@, i as int, acc@),
        decreases s.len() - i,
    {
        if i >= s.len() {
            return Err(error("Unterminated string"));
        }
        let c = s[i];
        if c == '"' {
            return Ok((from_chars(&acc), i + 1));
        } else if c == '\\' {
            if i + 1 >= s.len() {
                return Err(error("Invalid escape sequence"));
            }
            let e = s[i + 1];
            let plain: char = if e == 'n' {
                '\n'
            } else if e == 'r' {
                '\r'
            } else if e == 't' {
                '\t'
            } else if e == '\\' {
                '\\'
            } else if e == '"' {
                '"'
            } else {
                return Err(error("Invalid escape sequence"));
            };
            acc.push(plain);
            i += 2;
        } else {
            acc.push(c);
            i += 1;
        }
    }
}

/// Reads `true` or `false` at `pos`.
fn parse_bool(s: &Vec<char>, pos: usize) -> (r: Result<(JsonValue, usize), JsonError>)
    requires
        pos < s.len(),
        s@[pos as int] == 't' || s@[pos as int] == 'f',
    ensures
        value_outcome(r) == bool_at(s@, pos as int),
        advances(r, pos, s.len()),
{
    let end = word_end(s, pos);
    let word = slice_of(s, pos, end);
    if is_text(&word, "true") {
        Ok((JsonValue::Bool(true), end))
    } else if is_text(&word, "false") {
        Ok((JsonValue::Bool(false), end))
    } else {
        Err(error_with("Invalid boolean: ", &word))
    }
}

/// Reads `null` at `pos`.
fn parse_null(s: &Vec<char>, pos: usize) -> (r: Result<(JsonValue, usize), JsonError>)
    requires
        pos < s.len(),
        s@[pos as int] == 'n',
    ensures
        value_outcome(r) == null_at(s@, pos as int),
        advances(r, pos, s.len()),
{
    let end = word_end(s, pos);
    let word = slice_of(s, pos, end);
    if is_text(&word, "null") {
        Ok((JsonValue::Null, end))
    } else {
        Err(error_with("Invalid null: ", &word))
    }
}

/// Reads the number at `pos`.
fn parse_number(s: &Vec<char>, pos: usize) -> (r: Result<(JsonValue, usize), JsonError>)
    requires
        pos < s.len(),
        s@[pos as int] == '-' || is_digit(s@[pos as int]),
    ensures
        value_outcome(r) == number_at(s@, pos as int),
        advances(r, pos, s.len()),
{
    let start: usize = if s[pos] == '-' {
        pos + 1
    } else {
        pos
    };
    let end = number_end(s, start);
    let text = slice_of(s, pos, end);
    if number_text(&text) {
        Ok((JsonValue::Number(from_chars(&text)), end))
    } else {
        Err(error_with("Invalid number: ", &text))
    }
}

/// Reads the value at `pos`.
pub fn parse_value(s: &Vec<char>, pos: usize) -> (r: Result<(JsonValue, usize), JsonError>)
    requires
        pos <= s.len(),
    ensures
        value_outcome(r) == value_at(s@, pos as int),
        advances(r, pos, s.len()),
    decreases remaining(s@, pos as int), 1nat,
{
    let p = skip_whitespace(s, pos);
    if p >= s.len() {
        return Err(error("Unexpected character"));
    }
    let c = s[p];
    if c == '{' {
        parse_object(s, p)
    } else if c == '[' {
        parse_array(s, p)
    } else if c == '"' {
        match parse_string(s, p) {
            Ok((text, next)) => Ok((JsonValue::String(text), next)),
            Err(e) => Err(e),
        }
    } else if c == 't' || c == 'f' {
        parse_bool(s, p)
    } else if c == 'n' {
        parse_null(s, p)
    } else if c == '-' || ('0' <= c && c <= '9') {
        parse_number(s, p)
    } else {
        Err(error("Unexpected character"))
    }
}

/// Reads the array whose `[` stands at `pos`.
fn parse_array(s: &Vec<char>, pos: usize) -> (r: Result<(JsonValue, usize), JsonError>)
    requires
        pos < s.len(),
        s@[pos as int] == '[',
    ensures
        value_outcome(r) == array_at(s@, pos as int),
        advances(r, pos, s.len()),
    decreases remaining(s@, pos as int), 0nat,
{
    let q = skip_whitespace(s, pos + 1);
    if q < s.len() && s[q] == ']' {
        let r = JsonValue::Array(Vec::new());
        proof {
            lemma_view_of_containers(r);
            assert(models(Seq::<JsonValue>::empty()) =~= Seq::<JsonModel>::empty());
        }
        return Ok((r, q + 1));
    }
    let mut items: Vec<JsonValue> = Vec::new();
    let mut at: usize = q;
    assert(models(items@) =~= Seq::<JsonModel>::empty());
    loop
        invariant
            pos < at <= s.len(),
            pos < s.len(),
            array_at(s@, pos as int) == elements_from(s@, at as int, models(items@)),
        decreases s.len() - at,
    {
        let ghost before = models(items@);
        match parse_value(s, at) {
            Err(e) => {
                return Err(e);
            },
            Ok((value, next)) => {
                items.push(value);
                assert(models(items@) =~= before.push(value@));
                let q = skip_whitespace(s, next);
                if q < s.len() && s[q] == ',' {
                    at = q + 1;
                } else if q < s.len() && s[q] == ']' {
                    let r = JsonValue::Array(items);
                    proof {
                        lemma_view_of_containers(r);
                    }
                    return Ok((r, q + 1));
                } else {
                    return Err(error("Expected ',' or ']'"));
                }
            },
        }
    }
}

/// Reads the object whose `{` stands at `pos`.
fn parse_object(s: &Vec<char>, pos: usize) -> (r: Result<(JsonValue, usize), JsonError>)
    requires
        pos < s.len(),
        s@[pos as int] == '{',
    ensures
        value_outcome(r) == object_at(s@, pos as int),
        advances(r, pos, s.len()),
    decreases remaining(s@, pos as int), 0nat,
{
    let q = skip_whitespace(s, pos + 1);
    if q < s.len() && s[q] == '}' {
        let r = JsonValue::Object(Vec::new());
        proof {
            lemma_view_of_containers(r);
            assert(entry_models(Seq::<(String, JsonValue)>::empty()) =~= Seq::<
                EntryModel,
            >::empty());
        }
        return Ok((r, q + 1));
    }
    let mut entries: Vec<(String, JsonValue)> = Vec::new();
    let mut at: usize = q;
    assert(entry_models(entries@) =~= Seq::<EntryModel>::empty());
    loop
        invariant
            pos < at <= s.len(),
            pos < s.len(),
            object_at(s@, pos as int) == members_from(s@, at as int, entry_models(entries@)),
        decreases s.len() - at,
    {
        let ghost before = entry_models(entries@);
        let k = skip_whitespace(s, at);
        let (key, after_key) = match parse_string(s, k) {
            Err(e) => {
                return Err(e);
            },
            Ok(found) => found,
        };
        let colon = skip_whitespace(s, after_key);
        if !(colon < s.len() && s[colon] == ':') {
            return Err(error("Expected ':'"));
        }
        match parse_value(s, colon + 1) {
            Err(e) => {
                return Err(e);
            },
            Ok((value, next)) => {
                let ghost entry = EntryModel { key: key@, value: value@ };
                entries.push((key, value));
                assert(entry_models(entries@) =~= before.push(entry));
                let q = skip_whitespace(s, next);
                if q < s.len() && s[q] == ',' {
                    at = q + 1;
                } else if q < s.len() && s[q] == '}' {
                    let r = JsonValue::Object(entries);
                    proof {
                        lemma_view_of_containers(r);
                    }
                    return Ok((r, q + 1));
                } else {
                    return Err(error("Expected ',' or '}'"));
                }
            },
        }
    }
}

/// Parses the value that `input` holds. Whitespace around it is ignored, and
/// so is anything after the value.
pub fn parse_json(input: &str) -> (r: Result<JsonValue, JsonError>)
    ensures
        match r {
            Ok(value) => parsed(input@) == Ok::<JsonModel, Seq<char>>(value@),
            Err(e) => parsed(input@) == Err::<JsonModel, Seq<char>>(e.message@),
        },
{
    let s = trimmed(&to_chars(input));
    match parse_value(&s, 0) {
        Ok((value, next)) => Ok(value),
        Err(e) => Err(e),
    }
}

} // verus!

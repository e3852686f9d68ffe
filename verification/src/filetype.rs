//! Classification of content as text, JSON or binary, from an optional file
//! extension and from the bytes themselves.

use vstd::prelude::*;
use vstd::utf8::{decode_utf8, valid_utf8};
use crate::text::{decode_text, is_text, to_chars};

verus! {

/// Which comparison applies to a content.
#[derive(Debug, Clone, Copy, PartialEq, Eq, Structural)]
pub enum FileType {
    /// Compared line by line.
    Text,
    /// Compared as a tree of values.
    Json,
    /// Compared byte by byte.
    Binary,
}

/// The control characters: the code points of general category `Cc`.
pub open spec fn is_control_code(c: char) -> bool {
    (c as u32) <= 0x1f || 0x7f <= (c as u32) <= 0x9f
}

/// `char::is_control` tells whether the character has the general category
/// `Cc`: U+0000 to U+001F and U+007F to U+009F.
pub assume_specification[ char::is_control ](c: char) -> (r: bool)
    ensures
        r == is_control_code(c),
;

/// The lower-case form of a text, as `str::to_lowercase` computes it from
/// the Unicode case mappings.
pub uninterp spec fn lowercase(s: Seq<char>) -> Seq<char>;

/// `str::to_lowercase`: the result is a function of the characters alone.
#[verifier::external_body]
fn lowered(s: &str) -> (r: String)
    ensures
        r@ == lowercase(s@),
{
    s.to_lowercase()
}

/// The extensions that mark plain text.
pub open spec fn is_text_extension(e: Seq<char>) -> bool {
    ||| e == "txt"@
    ||| e == "md"@
    ||| e == "log"@
    ||| e == "rs"@
    ||| e == "ts"@
    ||| e == "js"@
    ||| e == "py"@
    ||| e == "c"@
    ||| e == "h"@
    ||| e == "cpp"@
    ||| e == "hpp"@
}

/// A character that counts as printable: any that is no control character,
/// and the line feed, the carriage return and the tab.
pub open spec fn is_printable(c: char) -> bool {
    !is_control_code(c) || c == '\n' || c == '\r' || c == '\t'
}

/// How many characters of `s` are printable.
pub open spec fn count_printable(s: Seq<char>) -> nat
    decreases s.len(),
{
    if s.len() == 0 {
        0
    } else {
        count_printable(s.drop_last()) + if is_printable(s.last()) { 1nat } else { 0nat }
    }
}

/// Whether `s` is not empty and at least 95 of 100 of its characters are
/// printable.
pub open spec fn mostly_printable(s: Seq<char>) -> bool {
    s.len() > 0 && count_printable(s) * 100 >= 95 * s.len()
}

/// The type that the bytes alone suggest: text where they are well-formed
/// UTF-8 that is mostly printable, binary otherwise.
pub open spec fn content_type(bytes: Seq<u8>) -> FileType {
    if valid_utf8(bytes) && mostly_printable(decode_utf8(bytes)) {
        FileType::Text
    } else {
        FileType::Binary
    }
}

/// The type of a content whose extension, in lower case, is `hint`: a known
/// extension decides, anything else leaves the decision to the bytes.
pub open spec fn hinted_type(bytes: Seq<u8>, hint: Option<Seq<char>>) -> FileType {
    match hint {
        Some(e) => if e == "json"@ {
            FileType::Json
        } else if is_text_extension(e) {
            FileType::Text
        } else {
            content_type(bytes)
        },
        None => content_type(bytes),
    }
}

/// The type of a content with the given extension, upper or lower case.
pub open spec fn file_type(bytes: Seq<u8>, extension: Option<Seq<char>>) -> FileType {
    hinted_type(
        bytes,
        match extension {
            Some(e) => Some(lowercase(e)),
            None => None,
        },
    )
}

/// The type that two contents are compared as when each was classified on
/// its own: JSON if either is JSON, else text if either is text, else binary.
pub open spec fn paired_type(first: FileType, second: FileType) -> FileType {
    if first == FileType::Json || second == FileType::Json {
        FileType::Json
    } else if first == FileType::Text || second == FileType::Text {
        FileType::Text
    } else {
        FileType::Binary
    }
}

/// Decides `is_text_extension`.
fn text_extension(e: &Vec<char>) -> (r: bool)
    ensures
        r == is_text_extension(e@),
{
    is_text(e, "txt") || is_text(e, "md") || is_text(e, "log") || is_text(e, "rs") || is_text(
        e,
        "ts",
    ) || is_text(e, "js") || is_text(e, "py") || is_text(e, "c") || is_text(e, "h") || is_text(
        e,
        "cpp",
    ) || is_text(e, "hpp")
}

/// Classifies bytes by what they hold.
pub fn detect_content_type(content: &[u8]) -> (r: FileType)
    ensures
        r == content_type(content@),
{
    match decode_text(content) {
        Ok(chars) => {
            let mut printable: usize = 0;
            let mut i: usize = 0;
            assert(chars@.take(0) == Seq::<char>::empty());
            while i < chars.len()
                invariant
                    i <= chars.len(),
                    printable <= i,
                    printable == count_printable(chars@.take(i as int)),
                decreases chars.len() - i,
            {
                assert(chars@.take(i + 1).drop_last() == chars@.take(i as int));
                let c = chars[i];
                if !c.is_control() || c == '\n' || c == '\r' || c == '\t' {
                    printable += 1;
                }
                i += 1;
            }
            assert(chars@.take(i as int) == chars@);
            if chars.len() > 0 && (printable as u128) * 100 >= 95 * (chars.len() as u128) {
                FileType::Text
            } else {
                FileType::Binary
            }
        },
        Err(_) => FileType::Binary,
    }
}

/// Classifies a content whose extension, already in lower case, is `hint`.
pub fn detect_with_hint(content: &[u8], hint: Option<&str>) -> (r: FileType)
    ensures
        r == hinted_type(
            content@,
            match hint {
                Some(e) => Some(e@),
                None => None,
            },
        ),
{
    match hint {
        Some(e) => {
            let chars = to_chars(e);
            if is_text(&chars, "json") {
                FileType::Json
            } else if text_extension(&chars) {
                FileType::Text
            } else {
                detect_content_type(content)
            }
        },
        None => detect_content_type(content),
    }
}

/// Classifies a content, given the extension of the file it came from if
/// there is one.
pub fn detect_file_type(content: &[u8], extension: Option<&str>) -> (r: FileType)
    ensures
        r == file_type(
            content@,
            match extension {
                Some(e) => Some(e@),
                None => None,
            },
        ),
{
    match extension {
        Some(e) => {
            let lower = lowered(e);
            detect_with_hint(content, Some(lower.as_str()))
        },
        None => detect_with_hint(content, None),
    }
}

/// The type to compare two contents as, from the type of each.
pub fn pair_file_types(first: FileType, second: FileType) -> (r: FileType)
    ensures
        r == paired_type(first, second),
{
    match (first, second) {
        (FileType::Json, _) => FileType::Json,
        (_, FileType::Json) => FileType::Json,
        (FileType::Text, _) => FileType::Text,
        (_, FileType::Text) => FileType::Text,
        _ => FileType::Binary,
    }
}

} // verus!

//! Calls into other crates, and what is believed of them without proof.

use crate::bytes::first_piece_len;
use os_str_bytes::OsStringBytes;
use vstd::prelude::*;
use vstd::utf8::{decode_utf8, valid_utf8};

verus! {

/// The error of `os_str_bytes` for bytes that the platform's strings cannot hold.
#[verifier::external_type_specification]
#[verifier::external_body]
pub struct ExEncodingError(os_str_bytes::EncodingError);

/// The part of `line` before its first space (0x20) and the part behind it, if neither is empty,
/// both are UTF-8 and the second holds no newline (0x0a).
pub open spec fn split_at_first_space(line: Seq<u8>) -> Option<(Seq<u8>, Seq<u8>)> {
    let n = first_piece_len(line, 0x20) as int;
    let head = line.take(n);
    let tail = line.skip(n + 1);
    if 0 < n && n + 1 < line.len() && valid_utf8(head) && valid_utf8(tail) && !tail.contains(
        0x0a,
    ) {
        Some((head, tail))
    } else {
        None
    }
}

/// The views of two captured groups.
pub open spec fn group_views(groups: Option<(Vec<u8>, Vec<u8>)>) -> Option<(Seq<u8>, Seq<u8>)> {
    match groups {
        Some((first, second)) => Some((first@, second@)),
        None => None,
    }
}

/// The two groups that `regex::bytes::Regex::captures` finds in `line`.
///
/// Claimed of `regex`: in this pattern `^` and `$` stand for the two ends of the line, `[^ ]` is
/// any UTF-8 character but the space and `.` any UTF-8 character but the newline. So the pattern
/// matches where [`split_at_first_space`] says, and its groups are the two parts.
#[verifier::external_body]
pub(crate) fn capture_two_groups(pattern: &str, line: &[u8]) -> (res: Option<(Vec<u8>, Vec<u8>)>)
    requires
        pattern@ == "^([^ ]+) (.+)$"@,
    ensures
        group_views(res) == split_at_first_space(line@),
{
    let regex = regex::bytes::Regex::new(pattern).unwrap();
    let captures = regex.captures(line)?;
    Some((captures[1].to_vec(), captures[2].to_vec()))
}

/// Passes bytes through a string of the platform, by `OsStringBytes::from_raw_vec` and
/// `OsStringBytes::into_raw_vec` of `os_str_bytes`.
///
/// Claimed of `os_str_bytes`: what comes back is what went in, and UTF-8 is never refused. Which
/// other bytes are refused is the platform's choice (none are on Unix), so nothing is said of
/// them.
#[verifier::external_body]
pub(crate) fn platform_string(bytes: Vec<u8>) -> (res: Result<
    Vec<u8>,
    os_str_bytes::EncodingError,
>)
    ensures
        res matches Ok(name) ==> name@ == bytes@,
        valid_utf8(bytes@) ==> res is Ok,
{
    let name = <std::path::PathBuf as OsStringBytes>::from_raw_vec(bytes)?;
    Ok(name.into_raw_vec())
}

/// `String::from_utf8_lossy`: the text that `bytes` encode, with a replacement character where
/// they are not UTF-8.
pub uninterp spec fn utf8_lossy(bytes: Seq<u8>) -> Seq<char>;

/// Decodes `bytes` by `String::from_utf8_lossy`.
///
/// Claimed of the standard library: the text depends on the bytes alone, and it is the text that
/// they encode where they are UTF-8.
#[verifier::external_body]
pub(crate) fn lossy_text(bytes: &[u8]) -> (res: String)
    ensures
        res@ == utf8_lossy(bytes@),
        valid_utf8(bytes@) ==> res@ == decode_utf8(bytes@),
{
    String::from_utf8_lossy(bytes).into_owned()
}

/// Whether the standard output is to be coloured, by `console::colors_enabled`. It depends on the
/// terminal and the environment, so nothing is said of the answer.
#[verifier::external_body]
pub(crate) fn colors_enabled() -> (res: bool) {
    console::colors_enabled()
}

/// A text as it is written in green, if `colors` is set: between the two escape sequences that
/// switch the colour on and off.
pub open spec fn green_text(text: Seq<char>, colors: bool) -> Seq<char> {
    if colors {
        "\x1b[32m"@ + text + "\x1b[0m"@
    } else {
        text
    }
}

/// Writes `text` in green if `colors` is set, by `console::style`, `StyledObject::green` and
/// `StyledObject::force_styling`.
///
/// Claimed of `console`: with styling forced on, the text stands between the escape sequences for
/// green and for the end of all styling; with styling forced off, it stands alone.
#[verifier::external_body]
pub(crate) fn style_green(text: &str, colors: bool) -> (res: String)
    ensures
        res@ == green_text(text@, colors),
{
    format!("{}", console::style(text).green().force_styling(colors))
}

/// The texts of a list of strings.
pub open spec fn texts(list: Seq<String>) -> Seq<Seq<char>> {
    Seq::new(list.len(), |i: int| list[i]@)
}

/// Whether `left` comes no later than `right` in the dictionary order of their characters.
pub open spec fn text_le(left: Seq<char>, right: Seq<char>) -> bool
    decreases left.len(),
{
    if left.len() == 0 {
        true
    } else if right.len() == 0 {
        false
    } else if left[0] == right[0] {
        text_le(left.drop_first(), right.drop_first())
    } else {
        (left[0] as u32) < (right[0] as u32)
    }
}

/// Sorts strings by `itertools::Itertools::sorted`.
///
/// Claimed of `itertools` and of the order of `String`: the result holds the same strings, and
/// they stand in the dictionary order of their characters.
#[verifier::external_body]
pub(crate) fn sort_strings(list: Vec<String>) -> (res: Vec<String>)
    ensures
        texts(res@).to_multiset() == texts(list@).to_multiset(),
        vstd::relations::sorted_by(
            texts(res@),
            |left: Seq<char>, right: Seq<char>| text_le(left, right),
        ),
{
    itertools::Itertools::sorted(list.into_iter()).collect()
}

} // verus!

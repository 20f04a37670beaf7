//! Header maps of the crate `http`, and what it accepts as names and values.
use http::HeaderMap;

use vstd::prelude::*;
use vstd::string::StringSliceAdditionalSpecFns;

#[allow(unused_imports)]
use crate::response::{is_name};
#[allow(unused_imports)]
use crate::text::lower;

verus! {

/// The header map of `http`.
#[verifier::external_type_specification]
#[verifier::external_body]
#[verifier::reject_recursive_types(T)]
pub struct ExHeaderMap<T>(http::HeaderMap<T>);

/// The header value of `http`.
#[verifier::external_type_specification]
#[verifier::external_body]
pub struct ExHeaderValue(http::HeaderValue);

/// The names, in lower case, and values of a map in the order in which it
/// gives them.
pub uninterp spec fn header_lines(map: HeaderMap) -> Seq<(Seq<u8>, Seq<u8>)>;

/// How many lines a map takes before it can refuse another name.
pub const MAX_HEADER_LINES: usize = 6553;

/// `bytes` with ASCII letters in lower case.
pub open spec fn lowered(bytes: Seq<u8>) -> Seq<u8> {
    bytes.map_values(|byte: u8| lower(byte))
}

/// Whether a byte is no control character, or a tab.
pub open spec fn value_byte(byte: u8) -> bool {
    32 <= byte && byte != 127 || byte == 9
}

/// Whether `value` can be a header's value.
pub open spec fn is_value(value: Seq<u8>) -> bool {
    forall|i: int| 0 <= i < value.len() ==> value_byte(#[trigger] value[i])
}

/// Whether a map can have a header of this name.
pub open spec fn is_map_name(name: Seq<u8>) -> bool {
    is_name(name) && name.len() <= 65535
}

/// Whether `lines` hold a line of this name.
pub open spec fn has_line(lines: Seq<(Seq<u8>, Seq<u8>)>, name: Seq<u8>) -> bool {
    exists|i: int| 0 <= i < lines.len() && (#[trigger] lines[i]).0 == name
}

/// The place behind the last line of this name, or behind all lines.
pub open spec fn place_behind(lines: Seq<(Seq<u8>, Seq<u8>)>, name: Seq<u8>) -> int
    decreases lines.len(),
{
    if lines.len() == 0 {
        0
    } else if lines.last().0 == name {
        lines.len() as int
    } else if has_line(lines, name) {
        place_behind(lines.drop_last(), name)
    } else {
        lines.len() as int
    }
}

/// `http::HeaderMap::new`: a map without headers.
#[verifier::external_body]
pub(crate) fn new_map() -> (map: HeaderMap)
    ensures
        header_lines(map) == Seq::<(Seq<u8>, Seq<u8>)>::empty(),
{
    HeaderMap::new()
}

/// `http::HeaderMap::insert` of a name that the map does not have yet: the line
/// comes last.
#[verifier::external_body]
pub(crate) fn insert_line(map: &mut HeaderMap, name: &'static str, value: &str)
    requires
        header_lines(*old(map)).len() < MAX_HEADER_LINES,
        is_map_name(name.spec_bytes()),
        is_value(value.spec_bytes()),
        !has_line(header_lines(*old(map)), lowered(name.spec_bytes())),
    ensures
        header_lines(*final(map)) == header_lines(*old(map)).push(
            (lowered(name.spec_bytes()), value.spec_bytes()),
        ),
{
    map.insert(name, http::HeaderValue::from_str(value).expect("value without control characters"));
}

/// `http::HeaderMap::append`: the line comes behind the lines of its name, or
/// last where there are none.
#[verifier::external_body]
pub(crate) fn append_line(map: &mut HeaderMap, name: &str, value: &str)
    requires
        header_lines(*old(map)).len() < MAX_HEADER_LINES,
        is_map_name(name.spec_bytes()),
        is_value(value.spec_bytes()),
    ensures
        header_lines(*final(map)) == header_lines(*old(map)).insert(
            place_behind(header_lines(*old(map)), lowered(name.spec_bytes())),
            (lowered(name.spec_bytes()), value.spec_bytes()),
        ),
{
    let name = http::HeaderName::from_bytes(name.as_bytes()).expect("token");
    map.append(name, http::HeaderValue::from_str(value).expect("value without control characters"));
}

/// The name and value of each of `lines`.
pub open spec fn line_models(lines: Seq<(&str, &[u8])>) -> Seq<(Seq<u8>, Seq<u8>)> {
    lines.map_values(|line: (&str, &[u8])| (line.0.spec_bytes(), line.1@))
}

/// `http::HeaderMap::iter`: the lines of the map.
#[verifier::external_body]
pub(crate) fn map_lines(map: &HeaderMap) -> (lines: Vec<(&str, &[u8])>)
    ensures
        line_models(lines@) == header_lines(*map),
{
    map.iter().map(|(name, value)| (name.as_str(), value.as_bytes())).collect()
}

/// `http::HeaderValue::from_str`: whether it accepts the text, which it does
/// where no byte but a tab is a control character.
#[verifier::external_body]
pub(crate) fn accepts_value(value: &str) -> (accepted: bool)
    ensures
        accepted == is_value(value.spec_bytes()),
{
    http::HeaderValue::from_str(value).is_ok()
}

/// `http::HeaderName::from_bytes`: whether it accepts the name, which it does
/// for one to 65535 token bytes.
#[verifier::external_body]
pub(crate) fn accepts_name(name: &[u8]) -> (accepted: bool)
    ensures
        accepted == is_map_name(name@),
{
    http::HeaderName::from_bytes(name).is_ok()
}

/// `http::Method::from_bytes`: whether it accepts the method, which it does for
/// one or more token bytes.
#[verifier::external_body]
pub(crate) fn accepts_method(method: &[u8]) -> (accepted: bool)
    ensures
        accepted == is_name(method@),
{
    http::Method::from_bytes(method).is_ok()
}

} // verus!

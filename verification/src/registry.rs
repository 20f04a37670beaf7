//! Conflict detection for automatically collected routes.
use vstd::prelude::*;
use vstd::set_lib::{lemma_int_range, lemma_subset_equality, set_int_range};
use vstd::string::StringSliceAdditionalSpecFns;
use vstd::utf8::*;

use crate::methods::method_list;
#[allow(unused_imports)]
use crate::methods::method_list_text;
#[allow(unused_imports)]
use crate::params::{component_text, law_escapes_are_read_once, percent_decoded, percent_escaped};
#[allow(unused_imports)]
use crate::route::{captures_of, route_captures};
use crate::router::RouteDescriptor;
#[allow(unused_imports)]
use crate::text::{
    hex_char, join, law_valid_text_is_kept, lemma_join_split, lemma_split_join, lemma_split_pieces,
    lossy, split, starts_with,
};
use crate::text::{same_text, starts_with_ascii, Pieces};

verus! {

/// Whether two template segments are the same up to the name of a parameter.
pub open spec fn same_shape(left: Seq<char>, right: Seq<char>) -> bool {
    ||| left == right
    ||| starts_with(left, ':') && starts_with(right, ':')
    ||| starts_with(left, '*') && starts_with(right, '*')
}

/// Whether two templates are the same up to the names of their parameters.
pub open spec fn equivalent_shapes(left: Seq<Seq<char>>, right: Seq<Seq<char>>) -> bool {
    left.len() == right.len() && forall|i: int|
        0 <= i < left.len() ==> #[trigger] same_shape(left[i], right[i])
}

/// Whether one path segment can match both of two template segments, neither
/// of which is a catch-all.
pub open spec fn segments_overlap(left: Seq<char>, right: Seq<char>) -> bool {
    if starts_with(left, ':') {
        starts_with(right, ':') || right.len() > 0
    } else if starts_with(right, ':') {
        left.len() > 0
    } else {
        left == right
    }
}

/// Whether the segments before the first catch-all of either template overlap
/// one by one, and the templates are equally long where there is none.
pub open spec fn overlapping(left: Seq<Seq<char>>, right: Seq<Seq<char>>) -> bool
    decreases left.len(),
{
    if left.len() > 0 && starts_with(left[0], '*') || right.len() > 0 && starts_with(
        right[0],
        '*',
    ) {
        true
    } else if left.len() == 0 || right.len() == 0 {
        left.len() == right.len()
    } else {
        segments_overlap(left[0], right[0]) && overlapping(left.skip(1), right.skip(1))
    }
}

pub open spec fn templates_overlap(left: Seq<char>, right: Seq<char>) -> bool {
    overlapping(split(left, '/'), split(right, '/'))
}

pub open spec fn templates_equivalent(left: Seq<char>, right: Seq<char>) -> bool {
    equivalent_shapes(split(left, '/'), split(right, '/'))
}

/// Whether two templates differ in nothing but the names of their parameters.
pub fn equivalent_shape(left: &str, right: &str) -> (equivalent: bool)
    ensures
        equivalent == templates_equivalent(left@, right@),
{
    let mut left_pieces = Pieces::new(left, 47);
    let mut right_pieces = Pieces::new(right, 47);
    let ghost all_left = split(left@, '/');
    let ghost all_right = split(right@, '/');
    let ghost mut done: int = 0;
    loop
        invariant
            0 <= done <= all_left.len(),
            done <= all_right.len(),
            all_left == split(left@, '/'),
            all_right == split(right@, '/'),
            left_pieces.separator() == '/',
            right_pieces.separator() == '/',
            left_pieces.pieces() == all_left.skip(done),
            right_pieces.pieces() == all_right.skip(done),
            forall|i: int| 0 <= i < done ==> #[trigger] same_shape(all_left[i], all_right[i]),
        decreases all_left.len() - done,
    {
        match (left_pieces.next(), right_pieces.next()) {
            (None, None) => {
                return true;
            },
            (Some(left_segment), Some(right_segment)) => {
                if !(same_text(left_segment, right_segment) || (starts_with_ascii(left_segment, 58)
                    && starts_with_ascii(right_segment, 58)) || (starts_with_ascii(left_segment, 42)
                    && starts_with_ascii(right_segment, 42))) {
                    assert(!same_shape(all_left[done], all_right[done]));
                    return false;
                }
                proof {
                    assert(same_shape(all_left[done], all_right[done]));
                    assert(all_left.skip(done).skip(1) =~= all_left.skip(done + 1));
                    assert(all_right.skip(done).skip(1) =~= all_right.skip(done + 1));
                    done = done + 1;
                }
            },
            _ => {
                return false;
            },
        }
    }
}

/// Whether some path can match both templates. A parameter takes one nonempty
/// segment; a final catch-all takes any rest, an absent one included.
pub fn patterns_overlap(left: &str, right: &str) -> (overlap: bool)
    ensures
        overlap == templates_overlap(left@, right@),
{
    let mut left_pieces = Pieces::new(left, 47);
    let mut right_pieces = Pieces::new(right, 47);
    loop
        invariant
            left_pieces.separator() == '/',
            right_pieces.separator() == '/',
            templates_overlap(left@, right@) == overlapping(
                left_pieces.pieces(),
                right_pieces.pieces(),
            ),
        decreases left_pieces.pieces().len(),
    {
        match (left_pieces.next(), right_pieces.next()) {
            (None, None) => {
                return true;
            },
            (Some(left_segment), None) => {
                return starts_with_ascii(left_segment, 42);
            },
            (None, Some(right_segment)) => {
                return starts_with_ascii(right_segment, 42);
            },
            (Some(left_segment), Some(right_segment)) => {
                if starts_with_ascii(left_segment, 42) || starts_with_ascii(right_segment, 42) {
                    return true;
                }
                let left_parameter = starts_with_ascii(left_segment, 58);
                let right_parameter = starts_with_ascii(right_segment, 58);
                if left_parameter && right_parameter {
                    continue ;
                }
                if left_parameter {
                    if right_segment.is_empty() {
                        return false;
                    }
                } else if right_parameter {
                    if left_segment.is_empty() {
                        return false;
                    }
                } else if !same_text(left_segment, right_segment) {
                    return false;
                }
            },
        }
    }
}

/// Overlap does not depend on the order of the templates.
pub proof fn law_overlap_is_symmetric(left: Seq<char>, right: Seq<char>)
    ensures
        templates_overlap(left, right) == templates_overlap(right, left),
{
    lemma_overlapping_symmetric(split(left, '/'), split(right, '/'));
}

proof fn lemma_overlapping_symmetric(left: Seq<Seq<char>>, right: Seq<Seq<char>>)
    ensures
        overlapping(left, right) == overlapping(right, left),
    decreases left.len(),
{
    if left.len() > 0 && right.len() > 0 {
        lemma_overlapping_symmetric(left.skip(1), right.skip(1));
    }
}

/// Having the same shape is an equivalence of templates.
pub proof fn law_shape_is_an_equivalence(a: Seq<char>, b: Seq<char>, c: Seq<char>)
    ensures
        templates_equivalent(a, a),
        templates_equivalent(a, b) == templates_equivalent(b, a),
        templates_equivalent(a, b) && templates_equivalent(b, c) ==> templates_equivalent(a, c),
{
    let (sa, sb, sc) = (split(a, '/'), split(b, '/'), split(c, '/'));
    assert forall|x: Seq<char>, y: Seq<char>| #[trigger] same_shape(x, y) == same_shape(y, x) by {}
    if templates_equivalent(a, b) {
        assert forall|i: int| 0 <= i < sb.len() implies #[trigger] same_shape(sb[i], sa[i]) by {
            assert(same_shape(sa[i], sb[i]));
        }
    }
    if templates_equivalent(b, a) {
        assert forall|i: int| 0 <= i < sa.len() implies #[trigger] same_shape(sa[i], sb[i]) by {
            assert(same_shape(sb[i], sa[i]));
        }
    }
    if templates_equivalent(a, b) && templates_equivalent(b, c) {
        assert forall|i: int| 0 <= i < sa.len() implies #[trigger] same_shape(sa[i], sc[i]) by {
            assert(same_shape(sa[i], sb[i]));
            assert(same_shape(sb[i], sc[i]));
        }
    }
}

/// Templates of the same shape overlap.
pub proof fn law_equivalent_templates_overlap(left: Seq<char>, right: Seq<char>)
    requires
        templates_equivalent(left, right),
    ensures
        templates_overlap(left, right),
{
    lemma_equivalent_overlap(split(left, '/'), split(right, '/'));
}

proof fn lemma_equivalent_overlap(left: Seq<Seq<char>>, right: Seq<Seq<char>>)
    requires
        equivalent_shapes(left, right),
    ensures
        overlapping(left, right),
    decreases left.len(),
{
    if left.len() > 0 {
        assert(same_shape(left[0], right[0]));
        assert forall|i: int| 0 <= i < left.skip(1).len() implies #[trigger] same_shape(
            left.skip(1)[i],
            right.skip(1)[i],
        ) by {
            assert(same_shape(left[i + 1], right[i + 1]));
        }
        lemma_equivalent_overlap(left.skip(1), right.skip(1));
    }
}

/// Two templates that match one path overlap.
pub proof fn law_matching_templates_overlap(path: Seq<char>, left: Seq<char>, right: Seq<char>)
    requires
        route_captures(path, left) is Some,
        route_captures(path, right) is Some,
    ensures
        templates_overlap(left, right),
{
    lemma_matching_overlap(split(path, '/'), split(left, '/'), split(right, '/'));
}

proof fn lemma_matching_overlap(
    path: Seq<Seq<char>>,
    left: Seq<Seq<char>>,
    right: Seq<Seq<char>>,
)
    requires
        captures_of(left, path) is Some,
        captures_of(right, path) is Some,
    ensures
        overlapping(left, right),
    decreases left.len(),
{
    if left.len() > 0 && right.len() > 0 && !starts_with(left[0], '*') && !starts_with(
        right[0],
        '*',
    ) {
        lemma_component_text(path[0]);
        lemma_matching_overlap(path.skip(1), left.skip(1), right.skip(1));
    }
}

/// A path segment that stands for `text`: the text itself, or all of its bytes
/// escaped where it holds a `%`.
spec fn written(text: Seq<char>) -> Seq<char> {
    if text.contains('%') {
        percent_escaped(encode_utf8(text)).map_values(|byte: u8| byte as char)
    } else {
        text
    }
}

/// A path segment that a template segment takes, if it is no catch-all.
spec fn sample_segment(segment: Seq<char>) -> Seq<char> {
    if starts_with(segment, ':') {
        seq!['a']
    } else {
        written(segment)
    }
}

/// A path that a template takes, with an empty rest for a catch-all.
spec fn sample_path(template: Seq<Seq<char>>) -> Seq<Seq<char>>
    decreases template.len(),
{
    if template.len() == 0 {
        Seq::empty()
    } else if starts_with(template[0], '*') {
        seq![Seq::empty()]
    } else {
        seq![sample_segment(template[0])] + sample_path(template.skip(1))
    }
}

/// A path that two overlapping templates take.
spec fn common_path(left: Seq<Seq<char>>, right: Seq<Seq<char>>) -> Seq<Seq<char>>
    decreases left.len(),
{
    if left.len() == 0 || right.len() == 0 {
        Seq::empty()
    } else if starts_with(left[0], '*') {
        sample_path(right)
    } else if starts_with(right[0], '*') {
        sample_path(left)
    } else {
        seq![
            if starts_with(left[0], ':') {
                sample_segment(right[0])
            } else {
                sample_segment(left[0])
            },
        ] + common_path(left.skip(1), right.skip(1))
    }
}

/// Whether template segments hold no slash, and only the last is a catch-all.
spec fn proper_template(template: Seq<Seq<char>>) -> bool {
    &&& forall|i: int| 0 <= i < template.len() ==> !(#[trigger] template[i]).contains('/')
    &&& forall|i: int|
        0 <= i < template.len() - 1 ==> !starts_with(#[trigger] template[i], '*')
}

proof fn lemma_proper_rest(template: Seq<Seq<char>>)
    requires
        template.len() > 0,
        proper_template(template),
    ensures
        proper_template(template.skip(1)),
{
    let rest = template.skip(1);
    assert forall|i: int| 0 <= i < rest.len() implies !(#[trigger] rest[i]).contains('/') by {
        assert(!template[i + 1].contains('/'));
    }
    assert forall|i: int| 0 <= i < rest.len() - 1 implies !starts_with(
        #[trigger] rest[i],
        '*',
    ) by {
        assert(!starts_with(template[i + 1], '*'));
    }
}

proof fn lemma_escaped_bytes(bytes: Seq<u8>)
    ensures
        forall|i: int|
            0 <= i < percent_escaped(bytes).len() ==> 37 <= #[trigger] percent_escaped(bytes)[i]
                <= 70 && percent_escaped(bytes)[i] != 47,
    decreases bytes.len(),
{
    if bytes.len() > 0 {
        let rest = percent_escaped(bytes.skip(1));
        lemma_escaped_bytes(bytes.skip(1));
        assert forall|i: int| 0 <= i < percent_escaped(bytes).len() implies 37
            <= #[trigger] percent_escaped(bytes)[i] <= 70 && percent_escaped(bytes)[i] != 47 by {
            if i >= 3 {
                assert(percent_escaped(bytes)[i] == rest[i - 3]);
            }
        }
    }
}

proof fn lemma_written(text: Seq<char>)
    requires
        !text.contains('/'),
    ensures
        component_text(written(text)) == text,
        !written(text).contains('/'),
{
    if text.contains('%') {
        let bytes = encode_utf8(text);
        let escaped = percent_escaped(bytes);
        let segment = written(text);
        lemma_escaped_bytes(bytes);
        encode_utf8_first_scalar(text);
        assert(escaped[0] == 37);
        assert forall|i: int| 0 <= i < segment.len() implies segment[i] != '/' && (
        #[trigger] segment[i] as u32) < 128 && segment[i] as u8 == escaped[i] by {
            assert(37 <= escaped[i] <= 70);
            assert(segment[i] == escaped[i] as char);
        }
        assert(is_ascii_chars(segment));
        is_ascii_chars_encode_utf8(segment);
        assert(encode_utf8(segment) =~= escaped);
        assert(segment[0] == '%');
        law_escapes_are_read_once(bytes);
        encode_utf8_valid_utf8(text);
        law_valid_text_is_kept(bytes);
        encode_utf8_decode_utf8(text);
    }
}

/// A template segment takes its sample, and so does a parameter.
proof fn lemma_sample_segment(segment: Seq<char>)
    requires
        !segment.contains('/'),
    ensures
        !sample_segment(segment).contains('/'),
        segment.len() > 0 ==> sample_segment(segment).len() > 0,
        !starts_with(segment, ':') ==> component_text(sample_segment(segment)) == segment,
{
    if !starts_with(segment, ':') {
        lemma_written(segment);
        lemma_component_text(written(segment));
    }
}

proof fn lemma_sample_path(template: Seq<Seq<char>>)
    requires
        proper_template(template),
    ensures
        captures_of(template, sample_path(template)) is Some,
        sample_path(template).len() >= 1 || template.len() == 0,
        forall|i: int|
            0 <= i < sample_path(template).len() ==> !(#[trigger] sample_path(
                template,
            )[i]).contains('/'),
    decreases template.len(),
{
    if template.len() > 0 && !starts_with(template[0], '*') {
        let rest = template.skip(1);
        lemma_proper_rest(template);
        lemma_sample_path(rest);
        lemma_sample_segment(template[0]);
        assert(sample_path(template).skip(1) =~= sample_path(rest));
        assert forall|i: int| 0 <= i < sample_path(template).len() implies !(
        #[trigger] sample_path(template)[i]).contains('/') by {
            if i > 0 {
                assert(!sample_path(rest)[i - 1].contains('/'));
            }
        }
    }
}

proof fn lemma_common_path(left: Seq<Seq<char>>, right: Seq<Seq<char>>)
    requires
        proper_template(left),
        proper_template(right),
        overlapping(left, right),
    ensures
        captures_of(left, common_path(left, right)) is Some,
        captures_of(right, common_path(left, right)) is Some,
        common_path(left, right).len() >= 1 || left.len() == 0 || right.len() == 0,
        forall|i: int|
            0 <= i < common_path(left, right).len() ==> !(#[trigger] common_path(
                left,
                right,
            )[i]).contains('/'),
    decreases left.len(),
{
    let path = common_path(left, right);
    if left.len() == 0 || right.len() == 0 {
    } else if starts_with(left[0], '*') {
        assert(left.len() == 1);
        lemma_sample_path(right);
    } else if starts_with(right[0], '*') {
        assert(right.len() == 1);
        lemma_sample_path(left);
    } else {
        let rest = common_path(left.skip(1), right.skip(1));
        lemma_proper_rest(left);
        lemma_proper_rest(right);
        lemma_common_path(left.skip(1), right.skip(1));
        lemma_sample_segment(left[0]);
        lemma_sample_segment(right[0]);
        assert(path.skip(1) =~= rest);
        assert forall|i: int| 0 <= i < path.len() implies !(#[trigger] path[i]).contains('/') by {
            if i > 0 {
                assert(!rest[i - 1].contains('/'));
            }
        }
    }
}

/// What a template that takes some path is like.
proof fn lemma_taken(template: Seq<Seq<char>>, path: Seq<Seq<char>>)
    requires
        captures_of(template, path) is Some,
    ensures
        forall|i: int|
            0 <= i < template.len() - 1 ==> !starts_with(#[trigger] template[i], '*'),
    decreases template.len(),
{
    if template.len() > 1 {
        let rest = template.skip(1);
        lemma_taken(rest, path.skip(1));
        assert forall|i: int| 0 <= i < template.len() - 1 implies !starts_with(
            #[trigger] template[i],
            '*',
        ) by {
            if i > 0 {
                assert(!starts_with(rest[i - 1], '*'));
            }
        }
    }
}

/// A template makes as many captures of one path as of another.
proof fn lemma_same_count(template: Seq<Seq<char>>, path: Seq<Seq<char>>, other: Seq<Seq<char>>)
    requires
        captures_of(template, path) is Some,
        captures_of(template, other) is Some,
    ensures
        captures_of(template, path)->0.len() == captures_of(template, other)->0.len(),
    decreases template.len(),
{
    if template.len() > 0 && !starts_with(template[0], '*') {
        lemma_component_text(path[0]);
        lemma_component_text(other[0]);
        lemma_same_count(template.skip(1), path.skip(1), other.skip(1));
    }
}

/// Overlap is no false alarm: of two templates that overlap and that each
/// match some path, both match one and the same path.
pub proof fn law_overlapping_templates_share_a_path(left: Seq<char>, right: Seq<char>)
    requires
        templates_overlap(left, right),
        exists|path: Seq<char>| route_captures(path, left) is Some,
        exists|path: Seq<char>| route_captures(path, right) is Some,
    ensures
        exists|path: Seq<char>|
            (#[trigger] route_captures(path, left)) is Some && route_captures(path, right) is Some,
{
    let (left_segments, right_segments) = (split(left, '/'), split(right, '/'));
    let left_path = choose|path: Seq<char>| route_captures(path, left) is Some;
    let right_path = choose|path: Seq<char>| route_captures(path, right) is Some;
    lemma_taken(left_segments, split(left_path, '/'));
    lemma_taken(right_segments, split(right_path, '/'));
    assert forall|i: int| 0 <= i < left_segments.len() implies !(
    #[trigger] left_segments[i]).contains('/') by {
        lemma_split_pieces(left, '/', i);
    }
    assert forall|i: int| 0 <= i < right_segments.len() implies !(
    #[trigger] right_segments[i]).contains('/') by {
        lemma_split_pieces(right, '/', i);
    }
    lemma_join_split(left, '/');
    lemma_join_split(right, '/');
    let segments = common_path(left_segments, right_segments);
    lemma_common_path(left_segments, right_segments);
    let path = join(segments, '/');
    lemma_split_join(segments, '/');
    lemma_same_count(left_segments, segments, split(left_path, '/'));
    lemma_same_count(right_segments, segments, split(right_path, '/'));
    assert(route_captures(path, left) is Some && route_captures(path, right) is Some);
}

/// A component is empty exactly where what it stands for is.
proof fn lemma_component_text(raw: Seq<char>)
    ensures
        component_text(raw).len() == 0 <==> raw.len() == 0,
{
    if raw.contains('%') {
        let bytes = percent_decoded(encode_utf8(raw));
        assert(raw.len() > 0);
        assert(encode_utf8(raw).len() > 0) by {
            encode_utf8_first_scalar(raw);
        }
        assert(bytes.len() > 0);
        assert(lossy(bytes).len() > 0);
    }
}

/// One collected group of routes.
#[derive(Clone, Copy, Debug)]
pub struct ApiRegistration {
    pub name: &'static str,
    pub routes: &'static [RouteDescriptor],
}

/// Two automatically collected routes would depend on registration order.
///
/// The collection is rejected before any of its handlers is built. Routes with
/// different methods or different priorities may coexist.
#[derive(Debug, PartialEq, Eq)]
pub struct RegistryError {
    pub first_api: &'static str,
    pub first_path: &'static str,
    pub second_api: &'static str,
    pub second_path: &'static str,
    /// Method bits shared by the conflicting routes.
    pub methods: u16,
}

/// Four hexadecimal digits.
pub open spec fn hex4(value: u16) -> Seq<char> {
    seq![
        hex_char((value / 4096) as int),
        hex_char((value / 256 % 16) as int),
        hex_char((value / 16 % 16) as int),
        hex_char((value % 16) as int),
    ]
}

fn hex_text(value: u16) -> (text: &'static str)
    requires
        value < 16,
    ensures
        text@ == seq![hex_char(value as int)],
{
    proof {
        reveal_strlit("0");
        reveal_strlit("1");
        reveal_strlit("2");
        reveal_strlit("3");
        reveal_strlit("4");
        reveal_strlit("5");
        reveal_strlit("6");
        reveal_strlit("7");
        reveal_strlit("8");
        reveal_strlit("9");
        reveal_strlit("a");
        reveal_strlit("b");
        reveal_strlit("c");
        reveal_strlit("d");
        reveal_strlit("e");
        reveal_strlit("f");
    }
    let text = match value {
        0 => "0",
        1 => "1",
        2 => "2",
        3 => "3",
        4 => "4",
        5 => "5",
        6 => "6",
        7 => "7",
        8 => "8",
        9 => "9",
        10 => "a",
        11 => "b",
        12 => "c",
        13 => "d",
        14 => "e",
        _ => "f",
    };
    assert(text@ =~= seq![hex_char(value as int)]);
    text
}

impl RegistryError {
    /// The message for an application's log.
    pub fn to_string(&self) -> (message: String)
        ensures
            message@ == "conflicting "@ + method_list_text(self.methods) + " routes (method bits 0x"@
                + hex4(self.methods) + "): "@ + self.first_api@ + " `"@ + self.first_path@
                + "` and "@ + self.second_api@ + " `"@ + self.second_path@ + "`"@,
    {
        let mut message = String::new();
        message.append("conflicting ");
        message.append(method_list(self.methods).as_str());
        message.append(" routes (method bits 0x");
        let ghost before = message@;
        message.append(hex_text(self.methods / 4096));
        message.append(hex_text(self.methods / 256 % 16));
        message.append(hex_text(self.methods / 16 % 16));
        message.append(hex_text(self.methods % 16));
        assert(message@ =~= before + hex4(self.methods));
        message.append("): ");
        message.append(self.first_api);
        message.append(" `");
        message.append(self.first_path);
        message.append("` and ");
        message.append(self.second_api);
        message.append(" `");
        message.append(self.second_path);
        message.append("`");
        assert(message@ =~= "conflicting "@ + method_list_text(self.methods)
            + " routes (method bits 0x"@ + hex4(self.methods) + "): "@ + self.first_api@ + " `"@
            + self.first_path@ + "` and "@ + self.second_api@ + " `"@ + self.second_path@ + "`"@);
        message
    }
}

/// Byte-wise lexicographic order.
pub open spec fn at_most(left: Seq<u8>, right: Seq<u8>) -> bool
    decreases left.len(),
{
    if left.len() == 0 {
        true
    } else if right.len() == 0 {
        false
    } else if left[0] != right[0] {
        left[0] < right[0]
    } else {
        at_most(left.skip(1), right.skip(1))
    }
}

pub proof fn lemma_at_most_total(left: Seq<u8>, right: Seq<u8>)
    ensures
        at_most(left, right) || at_most(right, left),
    decreases left.len(),
{
    if left.len() > 0 && right.len() > 0 && left[0] == right[0] {
        lemma_at_most_total(left.skip(1), right.skip(1));
    }
}

pub proof fn lemma_at_most_antisymmetric(left: Seq<u8>, right: Seq<u8>)
    requires
        at_most(left, right),
        at_most(right, left),
    ensures
        left == right,
    decreases left.len(),
{
    if left.len() > 0 && right.len() > 0 {
        lemma_at_most_antisymmetric(left.skip(1), right.skip(1));
        assert(left =~= seq![left[0]] + left.skip(1));
        assert(right =~= seq![right[0]] + right.skip(1));
    } else {
        assert(left =~= right);
    }
}

pub proof fn lemma_at_most_transitive(a: Seq<u8>, b: Seq<u8>, c: Seq<u8>)
    requires
        at_most(a, b),
        at_most(b, c),
    ensures
        at_most(a, c),
    decreases a.len(),
{
    if a.len() > 0 && b.len() > 0 && c.len() > 0 && a[0] == b[0] && b[0] == c[0] {
        lemma_at_most_transitive(a.skip(1), b.skip(1), c.skip(1));
    }
}

pub(crate) fn name_at_most(first: &str, second: &str) -> (ordered: bool)
    ensures
        ordered == at_most(first.spec_bytes(), second.spec_bytes()),
{
    let (left, right) = (first.as_bytes(), second.as_bytes());
    let mut i: usize = 0;
    assert(left@.skip(0) =~= left@);
    assert(right@.skip(0) =~= right@);
    loop
        invariant
            left@ == first.spec_bytes(),
            right@ == second.spec_bytes(),
            0 <= i <= left@.len(),
            i <= right@.len(),
            at_most(left@, right@) == at_most(left@.skip(i as int), right@.skip(i as int)),
        decreases left@.len() - i,
    {
        if i == left.len() {
            return true;
        }
        if i == right.len() {
            return false;
        }
        if left[i] != right[i] {
            return left[i] < right[i];
        }
        assert(left@.skip(i as int).skip(1) =~= left@.skip(i + 1));
        assert(right@.skip(i as int).skip(1) =~= right@.skip(i + 1));
        i += 1;
    }
}

/// Whether the group with index `first` comes before or with the one with
/// index `second`: by name, and by registration where the names are equal.
pub open spec fn group_order(groups: Seq<ApiRegistration>, first: int, second: int) -> bool {
    &&& at_most(groups[first].name.spec_bytes(), groups[second].name.spec_bytes())
    &&& at_most(groups[second].name.spec_bytes(), groups[first].name.spec_bytes()) ==> first
        <= second
}

/// Whether `order` lists the indices of the first `count` groups by name, equal
/// names in registration order.
pub open spec fn is_name_order(
    groups: Seq<ApiRegistration>,
    order: Seq<usize>,
    count: int,
) -> bool {
    &&& order.len() == count
    &&& forall|i: int| 0 <= i < order.len() ==> (#[trigger] order[i]) < count
    &&& forall|i: int, j: int| 0 <= i < j < order.len() ==> order[i] != order[j]
    &&& forall|i: int, j: int|
        0 <= i < j < order.len() ==> group_order(groups, #[trigger] order[i] as int, #[trigger] order[j] as int)
}

fn name_order(groups: &[ApiRegistration]) -> (order: Vec<usize>)
    ensures
        is_name_order(groups@, order@, groups@.len() as int),
{
    let mut order: Vec<usize> = Vec::new();
    let mut next: usize = 0;
    while next < groups.len()
        invariant
            0 <= next <= groups@.len(),
            is_name_order(groups@, order@, next as int),
        decreases groups@.len() - next,
    {
        let ghost before = order@;
        let mut at: usize = order.len();
        while at > 0 && !name_at_most(groups[order[at - 1]].name, groups[next].name)
            invariant
                0 <= at <= order@.len(),
                order@ == before,
                next < groups@.len(),
                is_name_order(groups@, before, next as int),
                forall|i: int|
                    at <= i < before.len() ==> !at_most(
                        groups@[#[trigger] before[i] as int].name.spec_bytes(),
                        groups@[next as int].name.spec_bytes(),
                    ),
            decreases at,
        {
            at -= 1;
        }
        order.insert(at, next);
        proof {
            assert forall|i: int, j: int| 0 <= i < j < order@.len() implies group_order(
                groups@,
                #[trigger] order@[i] as int,
                #[trigger] order@[j] as int,
            ) by {
                let names = |k: int| groups@[k].name.spec_bytes();
                if j == at as int {
                    assert(before[i] == order@[i]);
                    assert(before[at - 1] < next);
                    if i < at - 1 {
                        assert(group_order(groups@, before[i] as int, before[at - 1] as int));
                        lemma_at_most_transitive(
                            names(before[i] as int),
                            names(before[at - 1] as int),
                            names(next as int),
                        );
                    }
                } else if i == at as int {
                    assert(before[j - 1] == order@[j]);
                    lemma_at_most_total(names(before[j - 1] as int), names(next as int));
                } else {
                    let a = if i < at {
                        i
                    } else {
                        i - 1
                    };
                    let b = if j < at {
                        j
                    } else {
                        j - 1
                    };
                    assert(before[a] == order@[i]);
                    assert(before[b] == order@[j]);
                    assert(group_order(groups@, before[a] as int, before[b] as int));
                }
            }
            assert forall|i: int| 0 <= i < order@.len() implies (#[trigger] order@[i]) < next
                + 1 by {
                if i < at {
                    assert(before[i] == order@[i]);
                } else if i > at {
                    assert(before[i - 1] == order@[i]);
                }
            }
            assert forall|i: int, j: int| 0 <= i < j < order@.len() implies order@[i]
                != order@[j] by {
                if j == at as int {
                    assert(before[i] == order@[i]);
                } else if i == at as int {
                    assert(before[j - 1] == order@[j]);
                } else {
                    let a = if i < at {
                        i
                    } else {
                        i - 1
                    };
                    let b = if j < at {
                        j
                    } else {
                        j - 1
                    };
                    assert(before[a] == order@[i]);
                    assert(before[b] == order@[j]);
                }
            }
        }
        next += 1;
    }
    order
}

/// The routes of the first `count` groups of `order`, with their group's name.
pub open spec fn listed(
    groups: Seq<ApiRegistration>,
    order: Seq<usize>,
    count: int,
) -> Seq<(&'static str, RouteDescriptor)>
    decreases count,
{
    if count <= 0 {
        Seq::empty()
    } else {
        let group = groups[order[count - 1] as int];
        listed(groups, order, count - 1) + named(group, group.routes@.len() as int)
    }
}

/// The first `count` routes of a group, with its name.
pub open spec fn named(
    group: ApiRegistration,
    count: int,
) -> Seq<(&'static str, RouteDescriptor)> {
    Seq::new(count as nat, |i: int| (group.name, group.routes@[i]))
}

/// Whether two routes leave the choice between them to registration order.
pub open spec fn conflicting(left: RouteDescriptor, right: RouteDescriptor) -> bool {
    &&& left.methods & right.methods != 0
    &&& templates_equivalent(left.path@, right.path@) || (left.priority == right.priority
        && templates_overlap(left.path@, right.path@))
}

/// Whether no two of `routes` conflict.
pub open spec fn unambiguous(routes: Seq<(&'static str, RouteDescriptor)>) -> bool {
    forall|i: int, j: int|
        0 <= i < j < routes.len() ==> !conflicting(
            (#[trigger] routes[j]).1,
            (#[trigger] routes[i]).1,
        )
}

/// Whether the routes at `first` and `second` are the conflict that comes first.
pub open spec fn first_conflict(
    routes: Seq<(&'static str, RouteDescriptor)>,
    first: int,
    second: int,
) -> bool {
    &&& 0 <= first < second < routes.len()
    &&& conflicting(routes[second].1, routes[first].1)
    &&& unambiguous(routes.take(second))
    &&& forall|i: int| 0 <= i < first ==> !conflicting(routes[second].1, (#[trigger] routes[i]).1)
}

/// Whether `error` names the routes at `first` and `second`.
pub open spec fn reports(
    error: RegistryError,
    routes: Seq<(&'static str, RouteDescriptor)>,
    first: int,
    second: int,
) -> bool {
    &&& error.first_api == routes[first].0
    &&& error.first_path == routes[first].1.path
    &&& error.second_api == routes[second].0
    &&& error.second_path == routes[second].1.path
    &&& error.methods == routes[second].1.methods & routes[first].1.methods
}

fn conflict(left: &RouteDescriptor, right: &RouteDescriptor) -> (found: bool)
    ensures
        found == conflicting(*left, *right),
{
    left.methods & right.methods != 0 && (equivalent_shape(left.path, right.path) || (left.priority
        == right.priority && patterns_overlap(left.path, right.path)))
}

/// Checks a collection for conflicts and gives the order in which its groups
/// are built: by name, equal names in the order in which they are given.
pub fn collect(groups: &[ApiRegistration]) -> (order: Result<Vec<usize>, RegistryError>)
    ensures
        match order {
            Ok(order) => {
                &&& is_name_order(groups@, order@, groups@.len() as int)
                &&& unambiguous(listed(groups@, order@, groups@.len() as int))
            },
            Err(error) => exists|order: Seq<usize>, first: int, second: int|
                {
                    &&& is_name_order(groups@, order, groups@.len() as int)
                    &&& #[trigger] first_conflict(
                        listed(groups@, order, groups@.len() as int),
                        first,
                        second,
                    )
                    &&& reports(
                        error,
                        listed(groups@, order, groups@.len() as int),
                        first,
                        second,
                    )
                },
        },
{
    let order = name_order(groups);
    let ghost all = listed(groups@, order@, groups@.len() as int);
    let mut routes: Vec<(&'static str, RouteDescriptor)> = Vec::new();
    let mut i: usize = 0;
    while i < order.len()
        invariant
            is_name_order(groups@, order@, groups@.len() as int),
            0 <= i <= order@.len() == groups@.len(),
            all == listed(groups@, order@, groups@.len() as int),
            routes@ == listed(groups@, order@, i as int),
            unambiguous(routes@),
        decreases order@.len() - i,
    {
        let group = groups[order[i]];
        let ghost before = routes@;
        proof {
            lemma_listed_prefix(groups@, order@, i + 1, groups@.len() as int);
        }
        let mut j: usize = 0;
        while j < group.routes.len()
            invariant
                is_name_order(groups@, order@, groups@.len() as int),
                0 <= i < order@.len() == groups@.len(),
                0 <= j <= group.routes@.len(),
                group == groups@[order@[i as int] as int],
                all == listed(groups@, order@, groups@.len() as int),
                before == listed(groups@, order@, i as int),
                routes@ == before + named(group, j as int),
                listed(groups@, order@, i + 1).len() <= all.len(),
                listed(groups@, order@, i + 1) == all.take(
                    listed(groups@, order@, i + 1).len() as int,
                ),
                unambiguous(routes@),
            decreases group.routes@.len() - j,
        {
            let route = group.routes[j];
            let ghost place = routes@.len() as int;
            proof {
                let upto = listed(groups@, order@, i + 1);
                assert(upto[place] == (group.name, route));
                assert(routes@ =~= upto.take(place));
                assert(routes@ =~= all.take(place));
                assert(all[place] == upto[place]);
            }
            let mut k: usize = 0;
            while k < routes.len()
                invariant
                    is_name_order(groups@, order@, groups@.len() as int),
                    0 <= k <= routes@.len() == place,
                    place < all.len(),
                    all == listed(groups@, order@, groups@.len() as int),
                    routes@ == all.take(place),
                    all[place] == (group.name, route),
                    unambiguous(routes@),
                    forall|m: int|
                        0 <= m < k ==> !conflicting(route, (#[trigger] routes@[m]).1),
                decreases routes@.len() - k,
            {
                let other = routes[k];
                if conflict(&route, &other.1) {
                    let error = RegistryError {
                        first_api: other.0,
                        first_path: other.1.path,
                        second_api: group.name,
                        second_path: route.path,
                        methods: route.methods & other.1.methods,
                    };
                    proof {
                        assert(routes@[k as int] == all[k as int]);
                        assert forall|m: int| 0 <= m < k implies !conflicting(
                            all[place].1,
                            (#[trigger] all[m]).1,
                        ) by {
                            assert(routes@[m] == all[m]);
                        }
                        assert(first_conflict(all, k as int, place));
                        assert(reports(error, all, k as int, place));
                    }
                    return Err(error);
                }
                k += 1;
            }
            proof {
                let pushed = routes@.push((group.name, route));
                assert forall|a: int, b: int| 0 <= a < b < pushed.len() implies !conflicting(
                    (#[trigger] pushed[b]).1,
                    (#[trigger] pushed[a]).1,
                ) by {
                    if b < place {
                        assert(routes@[a] == pushed[a] && routes@[b] == pushed[b]);
                    } else {
                        assert(routes@[a] == pushed[a]);
                    }
                }
            }
            routes.push((group.name, route));
            j += 1;
            assert(routes@ =~= before + named(group, j as int));
        }
        i += 1;
    }
    Ok(order)
}

proof fn lemma_listed_prefix(
    groups: Seq<ApiRegistration>,
    order: Seq<usize>,
    part: int,
    count: int,
)
    requires
        0 <= part <= count,
    ensures
        listed(groups, order, part).len() <= listed(groups, order, count).len(),
        listed(groups, order, part) == listed(groups, order, count).take(
            listed(groups, order, part).len() as int,
        ),
    decreases count,
{
    if part < count {
        lemma_listed_prefix(groups, order, part, count - 1);
        let shorter = listed(groups, order, count - 1);
        let longer = listed(groups, order, count);
        assert(longer.take(shorter.len() as int) =~= shorter);
        assert(listed(groups, order, part) =~= longer.take(
            listed(groups, order, part).len() as int,
        ));
    } else {
        assert(listed(groups, order, part) =~= listed(groups, order, count).take(
            listed(groups, order, part).len() as int,
        ));
    }
}

/// In a collection without conflicts, two routes that match one path and share
/// a method differ in priority: which of them is taken does not depend on the
/// order of registration.
pub proof fn law_accepted_routes_are_decided_by_priority(
    routes: Seq<(&'static str, RouteDescriptor)>,
    first: int,
    second: int,
    path: Seq<char>,
)
    requires
        unambiguous(routes),
        0 <= first < routes.len(),
        0 <= second < routes.len(),
        first != second,
        routes[first].1.methods & routes[second].1.methods != 0,
        route_captures(path, routes[first].1.path@) is Some,
        route_captures(path, routes[second].1.path@) is Some,
    ensures
        routes[first].1.priority != routes[second].1.priority,
{
    let (a, b) = (routes[first].1, routes[second].1);
    law_matching_templates_overlap(path, a.path@, b.path@);
    law_overlap_is_symmetric(a.path@, b.path@);
    let (m, n) = (a.methods, b.methods);
    assert(m & n == n & m) by (bit_vector);
    if first < second {
        assert(!conflicting(routes[second].1, routes[first].1));
    } else {
        assert(!conflicting(routes[first].1, routes[second].1));
    }
}

/// Distinct indices below `count`, as many as `count`, hold every one of them.
proof fn lemma_holds_every_index(order: Seq<usize>, count: int, value: usize) -> (at: int)
    requires
        order.len() == count,
        forall|i: int| 0 <= i < order.len() ==> (#[trigger] order[i]) < count,
        forall|i: int, j: int| 0 <= i < j < order.len() ==> order[i] != order[j],
        value < count,
    ensures
        0 <= at < order.len(),
        order[at] == value,
{
    let ints = order.map_values(|x: usize| x as int);
    assert(ints.no_duplicates());
    ints.unique_seq_to_set();
    lemma_int_range(0, count);
    assert forall|x: int| ints.to_set().contains(x) implies set_int_range(0, count).contains(x) by {
        let i = choose|i: int| 0 <= i < ints.len() && ints[i] == x;
        assert(order[i] < count);
    }
    vstd::seq_lib::seq_to_set_is_finite(ints);
    lemma_subset_equality(ints.to_set(), set_int_range(0, count));
    assert(ints.to_set().contains(value as int));
    let at = choose|i: int| 0 <= i < ints.len() && ints[i] == value as int;
    at
}

proof fn lemma_order_prefix(
    groups: Seq<ApiRegistration>,
    left: Seq<usize>,
    right: Seq<usize>,
    count: int,
    length: int,
)
    requires
        0 <= length <= count,
        is_name_order(groups, left, count),
        is_name_order(groups, right, count),
    ensures
        left.take(length) == right.take(length),
    decreases length,
{
    if length > 0 {
        lemma_order_prefix(groups, left, right, count, length - 1);
        let at = length - 1;
        assert forall|i: int| 0 <= i < at implies left[i] == right[i] by {
            assert(left.take(at)[i] == right.take(at)[i]);
        }
        if left[at] != right[at] {
            let i = lemma_holds_every_index(right, count, left[at]);
            let j = lemma_holds_every_index(left, count, right[at]);
            if i < at {
                assert(left[i] == left[at]);
            }
            if j < at {
                assert(right[j] == right[at]);
            }
            assert(group_order(groups, right[at] as int, right[i] as int));
            assert(group_order(groups, left[at] as int, left[j] as int));
        }
        assert(left.take(length) =~= left.take(at).push(left[at]));
        assert(right.take(length) =~= right.take(at).push(right[at]));
    }
}

/// The order in which groups are built is determined by their names and, for
/// equal names, by the order in which they are given.
pub proof fn law_name_order_is_unique(
    groups: Seq<ApiRegistration>,
    left: Seq<usize>,
    right: Seq<usize>,
    count: int,
)
    requires
        0 <= count <= groups.len(),
        is_name_order(groups, left, count),
        is_name_order(groups, right, count),
    ensures
        left == right,
{
    lemma_order_prefix(groups, left, right, count, count);
    assert(left.take(count) =~= left);
    assert(right.take(count) =~= right);
}

/// A handler that is made from a part of the application's state.
pub trait FromState<S>: Sized {
    fn from_state(state: &S) -> Self;
}

} // verus!

//! Route templates as they are declared.
use vstd::prelude::*;
use vstd::string::StringSliceAdditionalSpecFns;
use vstd::utf8::*;

use crate::macros::SyntaxError;
#[allow(unused_imports)]
use crate::macros::checked;
#[allow(unused_imports)]
use crate::params::texts;
#[allow(unused_imports)]
use crate::route::{captures_of, route_captures};
use crate::text::{glue_strings, same_text, split_once, starts_with_ascii, Pieces};
#[allow(unused_imports)]
use crate::text::{first_of, glued, lemma_first_of, lemma_join_split, split, starts_with, string_texts};

verus! {

/// Whether a template segment captures a part of the path.
pub open spec fn is_capture(segment: Seq<char>) -> bool {
    starts_with(segment, ':') || starts_with(segment, '*')
}

/// The names that template segments capture under, in their order.
pub open spec fn capture_names(segments: Seq<Seq<char>>) -> Seq<Seq<char>>
    decreases segments.len(),
{
    if segments.len() == 0 {
        Seq::empty()
    } else if is_capture(segments.last()) {
        capture_names(segments.drop_last()).push(segments.last().skip(1))
    } else {
        capture_names(segments.drop_last())
    }
}

/// How many segments stand for themselves.
pub open spec fn literal_count(segments: Seq<Seq<char>>) -> nat
    decreases segments.len(),
{
    if segments.len() == 0 {
        0
    } else if is_capture(segments.last()) {
        literal_count(segments.drop_last())
    } else {
        literal_count(segments.drop_last()) + 1
    }
}

/// Whether a segment takes all that is left of the path.
pub open spec fn has_catch_all(segments: Seq<Seq<char>>) -> bool {
    exists|i: int| 0 <= i < segments.len() && starts_with(#[trigger] segments[i], '*')
}

/// Whether a segment in front of the last one takes all that is left.
pub open spec fn misplaced_catch_all(segments: Seq<Seq<char>>) -> bool {
    exists|i: int| 0 <= i < segments.len() - 1 && starts_with(#[trigger] segments[i], '*')
}

/// The segments of a template.
pub fn segments_of(path: &str) -> (segments: Vec<&str>)
    ensures
        texts(segments@) == split(path@, '/'),
{
    let mut segments: Vec<&str> = Vec::new();
    let mut pieces = Pieces::new(path, 47);
    let ghost all = split(path@, '/');
    proof {
        assert(47u8 as char == '/');
        assert(all.skip(0) =~= all);
        assert(all.take(0) =~= texts(segments@));
    }
    let mut more = true;
    while more
        invariant
            all == split(path@, '/'),
            segments@.len() <= all.len(),
            texts(segments@) == all.take(segments@.len() as int),
            pieces.pieces() == all.skip(segments@.len() as int),
            pieces.separator() == '/',
            !more ==> segments@.len() == all.len(),
        decreases all.len() - segments@.len(), (if more { 1int } else { 0int }),
    {
        match pieces.next() {
            Some(piece) => {
                let ghost count = segments@.len() as int;
                segments.push(piece);
                proof {
                    assert(all.skip(count).skip(1) =~= all.skip(count + 1));
                    assert(texts(segments@) =~= all.take(count + 1));
                }
            },
            None => {
                more = false;
            },
        }
    }
    assert(all.take(all.len() as int) =~= all);
    segments
}

/// What follows the first character of a text that starts with this one.
pub(crate) fn behind<'a>(text: &'a str, first: u8) -> (rest: &'a str)
    requires
        first < 128,
        starts_with(text@, first as char),
    ensures
        rest@ == text@.skip(1),
{
    proof {
        lemma_first_of(text@, first as char);
        assert(first_of(text@, first as char) == 0);
    }
    match split_once(text, first) {
        Some((_, rest)) => rest,
        None => text,
    }
}

/// What `syn::parse_str::<Ident>` says of a text: whether it is a Rust
/// identifier, and none of the reserved words.
pub uninterp spec fn identifier(text: Seq<char>) -> bool;

/// `syn::parse_str::<Ident>`: whether a text is a Rust identifier.
#[verifier::external_body]
fn is_identifier(text: &str) -> (valid: bool)
    ensures
        valid == identifier(text@),
{
    syn::parse_str::<syn::Ident>(text).is_ok()
}

/// The first fault of capture names, given which of them are identifiers.
pub open spec fn capture_fault(names: Seq<Seq<char>>, valid: Seq<bool>, at: int) -> Option<
    Seq<char>,
>
    decreases names.len() - at,
{
    if at < 0 || at >= names.len() {
        None
    } else if names[at].len() == 0 || !valid[at] {
        Some("path captures must use Rust identifier names, e.g. :user_id"@)
    } else if names.take(at).contains(names[at]) {
        Some("a route may not repeat a path capture name"@)
    } else {
        capture_fault(names, valid, at + 1)
    }
}

/// The captures of a template, or what is wrong with them, given which of the
/// names are identifiers.
pub open spec fn checked_captures(path: Seq<char>, valid: Seq<bool>) -> Result<
    Seq<Seq<char>>,
    Seq<char>,
> {
    let segments = split(path, '/');
    let names = capture_names(segments);
    match capture_fault(names, valid, 0) {
        Some(fault) => Err(fault),
        None => if misplaced_catch_all(segments) {
            Err("a catch-all capture must be the last path segment"@)
        } else if names.len() > 8 {
            Err("routes support at most eight path captures"@)
        } else {
            Ok(names)
        },
    }
}

/// Which of the names are identifiers.
pub open spec fn identifiers(names: Seq<Seq<char>>) -> Seq<bool> {
    names.map_values(|name: Seq<char>| identifier(name))
}

/// The captures of a template, or what is wrong with them.
pub open spec fn template_captures(path: Seq<char>) -> Result<Seq<Seq<char>>, Seq<char>> {
    checked_captures(path, identifiers(capture_names(split(path, '/'))))
}

/// The outcome of a check of texts, over what is in it.
pub open spec fn texts_or_message(outcome: Result<Vec<String>, SyntaxError>) -> Result<
    Seq<Seq<char>>,
    Seq<char>,
> {
    match outcome {
        Ok(texts) => Ok(string_texts(texts@)),
        Err(error) => Err(error@),
    }
}

/// The names that a template captures under, unchecked.
pub fn captured_names<'a>(path: &'a str) -> (names: Vec<&'a str>)
    ensures
        texts(names@) == capture_names(split(path@, '/')),
{
    let segments = segments_of(path);
    let ghost all = split(path@, '/');
    let mut names: Vec<&str> = Vec::new();
    let mut i: usize = 0;
    proof {
        assert(texts(names@) =~= capture_names(all.take(0)));
    }
    while i < segments.len()
        invariant
            0 <= i <= segments@.len(),
            texts(segments@) == all,
            texts(names@) == capture_names(all.take(i as int)),
        decreases segments@.len() - i,
    {
        let segment = segments[i];
        proof {
            assert(all[i as int] == segment@);
            assert(all.take(i + 1).drop_last() =~= all.take(i as int));
            assert(58u8 as char == ':' && 42u8 as char == '*');
        }
        let ghost before = names@;
        if starts_with_ascii(segment, 58) {
            names.push(behind(segment, 58));
            assert(texts(names@) =~= texts(before).push(segment@.skip(1)));
        } else if starts_with_ascii(segment, 42) {
            names.push(behind(segment, 42));
            assert(texts(names@) =~= texts(before).push(segment@.skip(1)));
        }
        i += 1;
    }
    assert(all.take(i as int) =~= all);
    names
}

fn catch_all_at(segments: &Vec<&str>, count: usize) -> (found: bool)
    requires
        count <= segments@.len(),
    ensures
        found == exists|i: int|
            0 <= i < count && starts_with(#[trigger] texts(segments@)[i], '*'),
{
    let mut i: usize = 0;
    while i < count
        invariant
            0 <= i <= count <= segments@.len(),
            forall|j: int| 0 <= j < i ==> !starts_with(#[trigger] texts(segments@)[j], '*'),
        decreases count - i,
    {
        proof {
            assert(texts(segments@)[i as int] == segments@[i as int]@);
            assert(42u8 as char == '*');
        }
        if starts_with_ascii(segments[i], 42) {
            return true;
        }
        i += 1;
    }
    false
}

/// Checks the captures of a template, given which of the names are identifiers.
pub fn accept_captures(path: &str, valid: &Vec<bool>) -> (captures: Result<
    Vec<String>,
    SyntaxError,
>)
    requires
        valid@.len() == capture_names(split(path@, '/')).len(),
    ensures
        texts_or_message(captures) == checked_captures(path@, valid@),
{
    let names = captured_names(path);
    let ghost all = capture_names(split(path@, '/'));
    let mut captures: Vec<String> = Vec::new();
    let mut i: usize = 0;
    proof {
        assert(string_texts(captures@) =~= all.take(0));
    }
    while i < names.len()
        invariant
            0 <= i <= names@.len(),
            texts(names@) == all,
            all == capture_names(split(path@, '/')),
            valid@.len() == all.len(),
            string_texts(captures@) == all.take(i as int),
            capture_fault(all, valid@, 0) == capture_fault(all, valid@, i as int),
        decreases names@.len() - i,
    {
        let name = names[i];
        assert(all[i as int] == name@);
        if name.is_empty() || !valid[i] {
            return Err(
                SyntaxError::of("path captures must use Rust identifier names, e.g. :user_id"),
            );
        }
        if holds_text(&captures, name) {
            return Err(SyntaxError::of("a route may not repeat a path capture name"));
        }
        let ghost before = captures@;
        captures.push(name.to_owned());
        i += 1;
        assert(string_texts(captures@) =~= string_texts(before).push(name@));
        assert(string_texts(captures@) =~= all.take(i as int));
    }
    assert(all.take(i as int) =~= all);
    let segments = segments_of(path);
    proof {
        lemma_join_split(path@, '/');
        assert(texts(segments@).len() == segments@.len());
    }
    if catch_all_at(&segments, segments.len() - 1) {
        return Err(SyntaxError::of("a catch-all capture must be the last path segment"));
    }
    if captures.len() > 8 {
        return Err(SyntaxError::of("routes support at most eight path captures"));
    }
    Ok(captures)
}

/// Whether one of the texts is this one.
pub fn holds_text(texts: &Vec<String>, text: &str) -> (found: bool)
    ensures
        found == string_texts(texts@).contains(text@),
{
    let mut i: usize = 0;
    while i < texts.len()
        invariant
            0 <= i <= texts@.len(),
            forall|j: int| 0 <= j < i ==> string_texts(texts@)[j] != text@,
        decreases texts@.len() - i,
    {
        assert(string_texts(texts@)[i as int] == texts@[i as int]@);
        if same_text(texts[i].as_str(), text) {
            return true;
        }
        i += 1;
    }
    false
}

/// The names under which a template captures parts of a path, in route order.
pub fn parse_captures(path: &str) -> (captures: Result<Vec<String>, SyntaxError>)
    ensures
        texts_or_message(captures) == template_captures(path@),
{
    let names = captured_names(path);
    let ghost all = capture_names(split(path@, '/'));
    let mut valid: Vec<bool> = Vec::new();
    let mut i: usize = 0;
    while i < names.len()
        invariant
            0 <= i <= names@.len(),
            texts(names@) == all,
            valid@ == identifiers(all).take(i as int),
        decreases names@.len() - i,
    {
        assert(all[i as int] == names@[i as int]@);
        valid.push(is_identifier(names[i]));
        i += 1;
        assert(valid@ =~= identifiers(all).take(i as int));
    }
    assert(valid@ =~= identifiers(all));
    accept_captures(path, &valid)
}

/// Whether a prefix can stand in front of templates.
pub open spec fn prefix_fault(prefix: Seq<char>) -> Result<(), Seq<char>> {
    if prefix.len() == 0 || prefix == "/"@ {
        Ok(())
    } else if !starts_with(prefix, '/') || prefix.last() == '/' {
        Err("api prefix must be empty or start with / and have no trailing /"@)
    } else {
        Ok(())
    }
}

/// Whether a text ends with an ASCII character.
pub fn ends_with_ascii(text: &str, c: u8) -> (ends: bool)
    requires
        c < 128,
    ensures
        ends == (text@.len() > 0 && text@.last() == c as char),
{
    let bytes = text.as_bytes();
    if bytes.len() == 0 {
        proof {
            encode_utf8_decode_utf8(text@);
            if text@.len() > 0 {
                encode_utf8_first_scalar(text@);
            }
        }
        return false;
    }
    proof {
        lemma_last_byte(text@, c as char);
    }
    bytes[bytes.len() - 1] == c
}

/// An ASCII character ends a text exactly where its byte ends the encoding.
proof fn lemma_last_byte(text: Seq<char>, c: char)
    requires
        c as u32 <= 127,
        encode_utf8(text).len() > 0,
    ensures
        (text.len() > 0 && text.last() == c) <==> encode_utf8(text).last() == c as u8,
    decreases text.len(),
{
    if text.len() == 0 {
        assert(encode_utf8(text) =~= Seq::<u8>::empty());
    } else if text.len() == 1 {
        let one = seq![text[0]];
        assert(text =~= one);
        crate::api_metrics::logging::lemma_encode_one(text[0]);
        crate::text::lemma_scalar_bytes(text[0], c);
        let bytes = encode_scalar(text[0] as u32);
        if text[0] != c && bytes.last() == c as u8 {
            assert(bytes.contains(bytes.last()));
        }
    } else {
        let rest = text.drop_first();
        encode_utf8_first_scalar(rest);
        assert(encode_utf8(rest).len() > 0);
        lemma_last_byte(rest, c);
        assert(encode_utf8(text) =~= encode_scalar(text[0] as u32) + encode_utf8(rest));
        assert(rest.last() == text.last());
    }
}

pub fn validate_prefix(prefix: &str) -> (outcome: Result<(), SyntaxError>)
    ensures
        checked(outcome) == prefix_fault(prefix@),
{
    if prefix.is_empty() || same_text(prefix, "/") {
        return Ok(());
    }
    assert(47u8 as char == '/');
    if !starts_with_ascii(prefix, 47) || ends_with_ascii(prefix, 47) {
        return Err(
            SyntaxError::of("api prefix must be empty or start with / and have no trailing /"),
        );
    }
    Ok(())
}

/// The prefix that stands for the root is the empty one.
pub open spec fn normalized_prefix(prefix: Seq<char>) -> Seq<char> {
    if prefix == "/"@ {
        Seq::empty()
    } else {
        prefix
    }
}

pub fn normalize_prefix(prefix: String) -> (normalized: String)
    ensures
        normalized@ == normalized_prefix(prefix@),
{
    if same_text(prefix.as_str(), "/") {
        String::new()
    } else {
        prefix
    }
}

/// Whether a template can stand behind a prefix.
pub open spec fn endpoint_path_fault(path: Seq<char>) -> Result<(), Seq<char>> {
    if !starts_with(path, '/') {
        Err("endpoint paths must start with /"@)
    } else if path.len() > 1 && path.last() == '/' {
        Err("endpoint paths must not have a trailing /"@)
    } else {
        Ok(())
    }
}

pub fn validate_endpoint_path(path: &str) -> (outcome: Result<(), SyntaxError>)
    ensures
        checked(outcome) == endpoint_path_fault(path@),
{
    assert(47u8 as char == '/');
    if !starts_with_ascii(path, 47) {
        return Err(SyntaxError::of("endpoint paths must start with /"));
    }
    proof {
        reveal_strlit("/");
        if path@.len() == 1 {
            assert(path@ =~= "/"@);
        }
    }
    if !same_text(path, "/") && ends_with_ascii(path, 47) {
        return Err(SyntaxError::of("endpoint paths must not have a trailing /"));
    }
    Ok(())
}

/// A template behind a prefix.
pub open spec fn joined_path(prefix: Seq<char>, path: Seq<char>) -> Seq<char> {
    if prefix.len() == 0 {
        path
    } else if path == "/"@ {
        prefix
    } else {
        prefix + path
    }
}

pub fn join_path(prefix: &str, path: &str) -> (joined: String)
    ensures
        joined@ == joined_path(prefix@, path@),
{
    if prefix.is_empty() {
        path.to_owned()
    } else if same_text(path, "/") {
        prefix.to_owned()
    } else {
        prefix.to_owned().concat(path)
    }
}

/// A segment without the name it captures under.
pub open spec fn segment_shape(segment: Seq<char>) -> Seq<char> {
    if starts_with(segment, '*') {
        "*"@
    } else if starts_with(segment, ':') {
        ":"@
    } else {
        segment
    }
}

/// A template without the names it captures under.
pub open spec fn shape_of(path: Seq<char>) -> Seq<char> {
    glued(split(path, '/').map_values(|segment: Seq<char>| segment_shape(segment)), "/"@)
}

pub fn route_shape(path: &str) -> (shape: String)
    ensures
        shape@ == shape_of(path@),
{
    let segments = segments_of(path);
    let ghost shapes = split(path@, '/').map_values(|segment: Seq<char>| segment_shape(segment));
    let mut parts: Vec<String> = Vec::new();
    let mut i: usize = 0;
    while i < segments.len()
        invariant
            0 <= i <= segments@.len(),
            texts(segments@) == split(path@, '/'),
            shapes == split(path@, '/').map_values(|segment: Seq<char>| segment_shape(segment)),
            string_texts(parts@) == shapes.take(i as int),
        decreases segments@.len() - i,
    {
        let segment = segments[i];
        proof {
            assert(split(path@, '/')[i as int] == segment@);
            assert(58u8 as char == ':' && 42u8 as char == '*');
        }
        let ghost before = parts@;
        if starts_with_ascii(segment, 42) {
            parts.push("*".to_owned());
        } else if starts_with_ascii(segment, 58) {
            parts.push(":".to_owned());
        } else {
            parts.push(segment.to_owned());
        }
        i += 1;
        assert(string_texts(parts@) =~= string_texts(before).push(segment_shape(segment@)));
        assert(string_texts(parts@) =~= shapes.take(i as int));
    }
    assert(shapes.take(i as int) =~= shapes);
    glue_strings(&parts, "/")
}

/// How many literal segments a template has.
pub fn literal_segments(path: &str) -> (count: usize)
    ensures
        count == literal_count(split(path@, '/')),
        count <= split(path@, '/').len(),
{
    let segments = segments_of(path);
    let ghost all = split(path@, '/');
    let mut count: usize = 0;
    let mut i: usize = 0;
    while i < segments.len()
        invariant
            0 <= i <= segments@.len(),
            texts(segments@) == all,
            count == literal_count(all.take(i as int)),
            count <= i,
        decreases segments@.len() - i,
    {
        let segment = segments[i];
        proof {
            assert(all[i as int] == segment@);
            assert(all.take(i + 1).drop_last() =~= all.take(i as int));
            assert(58u8 as char == ':' && 42u8 as char == '*');
        }
        if !starts_with_ascii(segment, 58) && !starts_with_ascii(segment, 42) {
            count += 1;
        }
        i += 1;
    }
    assert(all.take(i as int) =~= all);
    count
}

/// Whether a template takes all that is left of a path.
pub fn catches_all(path: &str) -> (found: bool)
    ensures
        found == has_catch_all(split(path@, '/')),
{
    let segments = segments_of(path);
    assert(texts(segments@).len() == segments@.len());
    catch_all_at(&segments, segments.len())
}

/// By how much a template comes before others: those without a catch-all come
/// first, then those with more literal segments, then the longer ones.
pub open spec fn template_priority(path: Seq<char>) -> nat {
    let segments = split(path, '/');
    (if has_catch_all(segments) {
        0
    } else {
        16_777_216nat
    }) + literal_count(segments) * 1024 + segments.len()
}

pub fn route_priority(path: &str) -> (priority: usize)
    requires
        16_777_216 + split(path@, '/').len() * 1025 <= usize::MAX,
    ensures
        priority == template_priority(path@),
{
    let segments = segments_of(path);
    let literals: usize = literal_segments(path);
    assert(texts(segments@).len() == segments@.len());
    let base: usize = if catches_all(path) {
        0
    } else {
        16_777_216
    };
    base + literals * 1024 + segments.len()
}


proof fn lemma_literal_bound(segments: Seq<Seq<char>>)
    ensures
        literal_count(segments) <= segments.len(),
        has_catch_all(segments) ==> literal_count(segments) < segments.len(),
    decreases segments.len(),
{
    if segments.len() > 0 {
        let before = segments.drop_last();
        lemma_literal_bound(before);
        if has_catch_all(segments) && !is_capture(segments.last()) {
            let i = choose|i: int| 0 <= i < segments.len() && starts_with(#[trigger] segments[i], '*');
            assert(before[i] == segments[i]);
        }
    }
}

/// How long the paths are that a template matches.
proof fn lemma_match_length(template: Seq<Seq<char>>, path: Seq<Seq<char>>)
    requires
        captures_of(template, path) is Some,
    ensures
        !has_catch_all(template) ==> template.len() == path.len(),
        template.len() <= path.len() + 1,
    decreases template.len(),
{
    if template.len() > 0 {
        if starts_with(template[0], '*') {
            assert(has_catch_all(template));
        } else {
            let rest = template.skip(1);
            lemma_match_length(rest, path.skip(1));
            if has_catch_all(rest) {
                let i = choose|i: int| 0 <= i < rest.len() && starts_with(#[trigger] rest[i], '*');
                assert(template[i + 1] == rest[i]);
            }
        }
    }
}

/// Where a template without captures matches a path, no other template that
/// matches it comes before it.
pub proof fn law_literal_templates_come_first(path: Seq<char>, literal: Seq<char>, other: Seq<char>)
    requires
        route_captures(path, literal) is Some,
        route_captures(path, other) is Some,
        literal_count(split(literal, '/')) == split(literal, '/').len(),
    ensures
        template_priority(other) <= template_priority(literal),
{
    let segments = split(path, '/');
    lemma_literal_bound(split(literal, '/'));
    lemma_literal_bound(split(other, '/'));
    lemma_match_length(split(literal, '/'), segments);
    lemma_match_length(split(other, '/'), segments);
}

/// A template without a catch-all comes before every one with a catch-all that
/// matches the same path, where the path has fewer than sixteen thousand segments.
pub proof fn law_catch_alls_come_last(path: Seq<char>, bounded: Seq<char>, open: Seq<char>)
    requires
        route_captures(path, bounded) is Some,
        route_captures(path, open) is Some,
        !has_catch_all(split(bounded, '/')),
        has_catch_all(split(open, '/')),
        split(path, '/').len() < 16_384,
    ensures
        template_priority(open) < template_priority(bounded),
{
    let segments = split(path, '/');
    lemma_literal_bound(split(open, '/'));
    lemma_match_length(split(bounded, '/'), segments);
    lemma_match_length(split(open, '/'), segments);
}

/// Of two templates without a catch-all that match the same path, the one with
/// more literal segments comes first, and with equally many neither does.
pub proof fn law_more_literals_come_first(path: Seq<char>, first: Seq<char>, second: Seq<char>)
    requires
        route_captures(path, first) is Some,
        route_captures(path, second) is Some,
        !has_catch_all(split(first, '/')),
        !has_catch_all(split(second, '/')),
    ensures
        template_priority(first) > template_priority(second) <==> literal_count(split(first, '/'))
            > literal_count(split(second, '/')),
{
    let segments = split(path, '/');
    lemma_match_length(split(first, '/'), segments);
    lemma_match_length(split(second, '/'), segments);
}

} // verus!

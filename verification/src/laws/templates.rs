//! Laws of templates as they are declared: captures, prefixes, shapes and
//! priorities.
use vstd::prelude::*;

#[allow(unused_imports)]
use crate::laws::texts::law_separators_part_texts;
#[allow(unused_imports)]
use crate::macros::paths::{
    capture_fault, capture_names, checked_captures, endpoint_path_fault, has_catch_all, identifier,
    identifiers, is_capture, joined_path, literal_count, misplaced_catch_all, normalized_prefix,
    prefix_fault, segment_shape, shape_of, template_captures, template_priority,
};
#[allow(unused_imports)]
use crate::registry::{same_shape, templates_equivalent};
#[allow(unused_imports)]
use crate::text::{
    first_of, glued, join, lemma_first_of, lemma_join_split, lemma_split_join, lemma_split_pieces,
    split, starts_with,
};

verus! {

/// Captures are the segments behind a colon or a star, in their order, and all
/// other segments are literals.
pub proof fn law_captures_stand_behind_a_sign(
    segments: Seq<Seq<char>>,
    more: Seq<Seq<char>>,
    name: Seq<char>,
    literal: Seq<char>,
)
    requires
        literal.len() > 0 ==> literal[0] != ':' && literal[0] != '*',
    ensures
        capture_names(segments + more) == capture_names(segments) + capture_names(more),
        capture_names(seq![seq![':'] + name]) == seq![name],
        capture_names(seq![seq!['*'] + name]) == seq![name],
        capture_names(seq![literal]) == Seq::<Seq<char>>::empty(),
        literal_count(segments + more) == literal_count(segments) + literal_count(more),
        literal_count(seq![seq![':'] + name]) == 0,
        literal_count(seq![seq!['*'] + name]) == 0,
        literal_count(seq![literal]) == 1,
        literal_count(Seq::empty()) == 0,
    decreases more.len(),
{
    let none = Seq::<Seq<char>>::empty();
    assert((seq![':'] + name).skip(1) =~= name);
    assert((seq!['*'] + name).skip(1) =~= name);
    assert((seq![':'] + name)[0] == ':' && (seq!['*'] + name)[0] == '*');
    assert(seq![seq![':'] + name].drop_last() =~= none);
    assert(seq![seq!['*'] + name].drop_last() =~= none);
    assert(seq![literal].drop_last() =~= none);
    assert(capture_names(none) =~= none);
    assert(literal_count(none) == 0);
    assert(none.push(name) =~= seq![name]);
    if more.len() > 0 {
        law_captures_stand_behind_a_sign(segments, more.drop_last(), name, literal);
        assert((segments + more).drop_last() =~= segments + more.drop_last());
        assert((segments + more).last() == more.last());
        assert(capture_names(segments + more) =~= capture_names(segments) + capture_names(more));
    } else {
        assert(segments + more =~= segments);
    }
}

/// Whether a name can be captured under, given those before it.
pub open spec fn is_proper_name(names: Seq<Seq<char>>, valid: Seq<bool>, at: int) -> bool {
    names[at].len() > 0 && valid[at] && forall|j: int| 0 <= j < at ==> #[trigger] names[j]
        != names[at]
}

proof fn lemma_fault(names: Seq<Seq<char>>, valid: Seq<bool>, at: int, bad: int)
    requires
        0 <= at <= bad <= names.len(),
        forall|i: int| at <= i < bad ==> #[trigger] is_proper_name(names, valid, i),
        bad < names.len() ==> !is_proper_name(names, valid, bad),
    ensures
        bad == names.len() ==> capture_fault(names, valid, at) is None,
        bad < names.len() ==> capture_fault(names, valid, at) == Some(
            if names[bad].len() == 0 || !valid[bad] {
                "path captures must use Rust identifier names, e.g. :user_id"@
            } else {
                "a route may not repeat a path capture name"@
            },
        ),
    decreases bad - at,
{
    if at < names.len() {
        if names.take(at).contains(names[at]) {
            let j = choose|j: int| 0 <= j < at && names.take(at)[j] == names[at];
            assert(names[j] == names[at]);
        }
        if at < bad {
            assert(is_proper_name(names, valid, at));
            lemma_fault(names, valid, at + 1, bad);
        } else if names[bad].len() > 0 && valid[bad] {
            let j = choose|j: int| 0 <= j < bad && names[j] == names[bad];
            assert(names.take(at)[j] == names[at]);
        }
    }
}

/// A template is declared with at most eight captures, each of them under an
/// identifier of its own, and with a catch-all at its end only. What is wrong
/// with it otherwise is said of the first name that is at fault, and then of
/// the whole.
pub proof fn law_templates_have_proper_captures(path: Seq<char>, valid: Seq<bool>, bad: int)
    requires
        valid.len() == capture_names(split(path, '/')).len(),
        0 <= bad <= valid.len(),
        forall|i: int|
            0 <= i < bad ==> #[trigger] is_proper_name(capture_names(split(path, '/')), valid, i),
        bad < valid.len() ==> !is_proper_name(capture_names(split(path, '/')), valid, bad),
    ensures
        ({
            let segments = split(path, '/');
            let names = capture_names(segments);
            let early = exists|i: int|
                0 <= i < segments.len() - 1 && (#[trigger] segments[i]).len() > 0 && segments[i][0]
                    == '*';
            checked_captures(path, valid) == (if bad < names.len() {
                Err::<Seq<Seq<char>>, Seq<char>>(
                    if names[bad].len() == 0 || !valid[bad] {
                        "path captures must use Rust identifier names, e.g. :user_id"@
                    } else {
                        "a route may not repeat a path capture name"@
                    },
                )
            } else if early {
                Err("a catch-all capture must be the last path segment"@)
            } else if names.len() >= 9 {
                Err("routes support at most eight path captures"@)
            } else {
                Ok(names)
            })
        }),
{
    let segments = split(path, '/');
    let names = capture_names(segments);
    lemma_fault(names, valid, 0, bad);
    if misplaced_catch_all(segments) {
        let i = choose|i: int|
            0 <= i < segments.len() - 1 && starts_with(#[trigger] segments[i], '*');
        assert(segments[i].len() > 0 && segments[i][0] == '*');
    }
    if exists|i: int|
        0 <= i < segments.len() - 1 && (#[trigger] segments[i]).len() > 0 && segments[i][0]
            == '*' {
        let i = choose|i: int|
            0 <= i < segments.len() - 1 && (#[trigger] segments[i]).len() > 0 && segments[i][0]
                == '*';
        assert(starts_with(segments[i], '*'));
    }
}

/// Captured names are checked to be identifiers, every one of them.
pub proof fn law_captured_names_are_identifiers(path: Seq<char>, index: int)
    requires
        template_captures(path) is Ok,
        0 <= index < template_captures(path)->Ok_0.len(),
    ensures
        identifier(template_captures(path)->Ok_0[index]),
        template_captures(path)->Ok_0 == capture_names(split(path, '/')),
{
    let names = capture_names(split(path, '/'));
    let valid = identifiers(names);
    lemma_no_fault(names, valid, 0, index);
    assert(valid[index] == identifier(names[index]));
}

proof fn lemma_no_fault(names: Seq<Seq<char>>, valid: Seq<bool>, at: int, index: int)
    requires
        0 <= at <= index < names.len(),
        capture_fault(names, valid, at) is None,
    ensures
        valid[index],
    decreases index - at,
{
    if at < index {
        lemma_no_fault(names, valid, at + 1, index);
    }
}

/// A prefix is nothing, the root, or a path with a slash before it and none
/// behind it; the root is as good as nothing.
pub proof fn law_prefixes_have_no_slash_behind(prefix: Seq<char>, inner: Seq<char>)
    ensures
        prefix_fault(Seq::empty()) is Ok,
        prefix_fault(seq!['/']) is Ok,
        inner.len() > 0 && inner.last() != '/' ==> prefix_fault(seq!['/'] + inner) is Ok,
        inner.len() > 0 && inner.last() == '/' ==> prefix_fault(inner) is Ok ==> inner =~= seq![
            '/',
        ],
        inner.len() > 0 && inner[0] != '/' ==> prefix_fault(inner) == Err::<(), Seq<char>>(
            "api prefix must be empty or start with / and have no trailing /"@,
        ),
        prefix_fault(seq!['/'] + inner) is Err ==> prefix_fault(seq!['/'] + inner) == Err::<
            (),
            Seq<char>,
        >("api prefix must be empty or start with / and have no trailing /"@),
        normalized_prefix(seq!['/']) == Seq::<char>::empty(),
        prefix != seq!['/'] ==> normalized_prefix(prefix) == prefix,
{
    reveal_strlit("/");
    assert("/"@ =~= seq!['/']);
    let whole = seq!['/'] + inner;
    assert(whole[0] == '/');
    if inner.len() > 0 {
        assert(whole.last() == inner.last());
        assert(whole.len() > 1);
    } else {
        assert(whole =~= seq!['/']);
    }
}

/// The path of an endpoint starts with a slash and, but for the root, has none
/// behind it.
pub proof fn law_endpoint_paths_start_with_a_slash(path: Seq<char>, inner: Seq<char>)
    ensures
        endpoint_path_fault(seq!['/']) is Ok,
        inner.len() > 0 && inner.last() != '/' ==> endpoint_path_fault(seq!['/'] + inner) is Ok,
        inner.len() > 0 && inner.last() == '/' ==> endpoint_path_fault(seq!['/'] + inner) == Err::<
            (),
            Seq<char>,
        >("endpoint paths must not have a trailing /"@),
        path.len() == 0 || path[0] != '/' ==> endpoint_path_fault(path) == Err::<(), Seq<char>>(
            "endpoint paths must start with /"@,
        ),
{
    let whole = seq!['/'] + inner;
    assert(whole[0] == '/');
    if inner.len() > 0 {
        assert(whole.last() == inner.last());
    }
}

/// A path behind a prefix is a path again, with the segments of the prefix and
/// then its own; the root is the prefix itself.
pub proof fn law_paths_go_on_behind_a_prefix(prefix: Seq<char>, path: Seq<char>)
    requires
        prefix_fault(prefix) is Ok,
        endpoint_path_fault(path) is Ok,
    ensures
        ({
            let before = normalized_prefix(prefix);
            let whole = joined_path(before, path);
            &&& endpoint_path_fault(whole) is Ok
            &&& path != seq!['/'] && before.len() > 0 ==> split(whole, '/') == split(before, '/')
                + split(path, '/').skip(1)
            &&& path == seq!['/'] && before.len() > 0 ==> whole == before
            &&& before.len() == 0 ==> whole == path
        }),
{
    reveal_strlit("/");
    assert("/"@ =~= seq!['/']);
    let before = normalized_prefix(prefix);
    let whole = joined_path(before, path);
    if before.len() > 0 {
        assert(before[0] == '/');
        assert(before.last() != '/');
        if path != seq!['/'] {
            assert(whole[0] == '/');
            assert(whole.last() == path.last());
            if path.len() == 1 {
                assert(path =~= seq!['/']);
            }
            let rest = path.skip(1);
            assert(whole =~= before + seq!['/'] + rest);
            law_separators_part_texts(before, rest, '/');
            assert(path =~= Seq::<char>::empty() + seq!['/'] + rest);
            law_separators_part_texts(Seq::<char>::empty(), rest, '/');
            lemma_first_of(Seq::<char>::empty(), '/');
            assert(split(Seq::<char>::empty(), '/') =~= seq![Seq::<char>::empty()]);
            assert(split(path, '/').skip(1) =~= split(rest, '/'));
        }
    }
}

proof fn lemma_glued_is_joined(pieces: Seq<Seq<char>>)
    requires
        pieces.len() > 0,
    ensures
        glued(pieces, "/"@) == join(pieces, '/'),
    decreases pieces.len(),
{
    reveal_strlit("/");
    assert("/"@ =~= seq!['/']);
    if pieces.len() > 1 {
        let front = pieces.drop_last();
        lemma_glued_is_joined(front);
        let last = seq![pieces.last()];
        assert(pieces =~= front + last);
        crate::laws::texts::law_pieces_are_joined_by_separators(front, last, '/');
        reveal_with_fuel(join, 2);
        assert(join(last, '/') =~= pieces.last());
    } else {
        reveal_with_fuel(join, 2);
        assert(join(pieces, '/') =~= pieces[0]);
    }
}

spec fn shapes(path: Seq<char>) -> Seq<Seq<char>> {
    split(path, '/').map_values(|segment: Seq<char>| segment_shape(segment))
}

proof fn lemma_shapes(path: Seq<char>)
    ensures
        split(shape_of(path), '/') == shapes(path),
{
    reveal_strlit("*");
    reveal_strlit(":");
    let pieces = shapes(path);
    lemma_join_split(path, '/');
    lemma_glued_is_joined(pieces);
    assert forall|i: int| 0 <= i < pieces.len() implies !(#[trigger] pieces[i]).contains('/') by {
        lemma_split_pieces(path, '/', i);
        assert("*"@ =~= seq!['*'] && ":"@ =~= seq![':']);
    }
    lemma_split_join(pieces, '/');
}

/// The shape of a template is a template of that shape, and two templates have
/// one shape where they differ in the names of captures alone.
pub proof fn law_shapes_forget_the_names(left: Seq<char>, right: Seq<char>)
    ensures
        templates_equivalent(left, shape_of(left)),
        shape_of(left) == shape_of(right) <==> templates_equivalent(left, right),
        forall|i: int|
            0 <= i < split(shape_of(left), '/').len() && is_capture(
                #[trigger] split(shape_of(left), '/')[i],
            ) ==> split(shape_of(left), '/')[i].len() == 1,
{
    reveal_strlit("*");
    reveal_strlit(":");
    assert("*"@ =~= seq!['*'] && ":"@ =~= seq![':']);
    lemma_shapes(left);
    lemma_shapes(right);
    let (l, r) = (split(left, '/'), split(right, '/'));
    if templates_equivalent(left, right) {
        assert forall|i: int| 0 <= i < l.len() implies shapes(left)[i] == shapes(right)[i] by {
            assert(same_shape(l[i], r[i]));
        }
        assert(shapes(left) =~= shapes(right));
    }
    if shape_of(left) == shape_of(right) {
        assert(shapes(left) == shapes(right));
        assert(l.len() == shapes(left).len() && r.len() == shapes(right).len());
        assert forall|i: int| 0 <= i < l.len() implies same_shape(#[trigger] l[i], r[i]) by {
            assert(shapes(left)[i] == segment_shape(l[i]));
            assert(shapes(right)[i] == segment_shape(r[i]));
            assert(segment_shape(l[i]) == segment_shape(r[i]));
            assert("*"@[0] == '*' && ":"@[0] == ':');
        }
    }
    let s = split(shape_of(left), '/');
    assert forall|i: int| 0 <= i < l.len() implies same_shape(#[trigger] l[i], s[i]) by {
        assert(s[i] == segment_shape(l[i]));
    }
    assert forall|i: int| 0 <= i < s.len() && is_capture(#[trigger] s[i]) implies s[i].len()
        == 1 by {
        assert(s[i] == segment_shape(l[i]));
    }
}

/// The priority of a template counts its segments, each literal as much as
/// 1024 of them, and that it has no catch-all as much as 16384 literals.
pub proof fn law_priorities_count_segments(path: Seq<char>)
    ensures
        template_priority(path) % 1024 == split(path, '/').len() % 1024,
        template_priority(path) >= 16_777_216 <== forall|i: int|
            0 <= i < split(path, '/').len() ==> !starts_with(#[trigger] split(path, '/')[i], '*'),
        (exists|i: int|
            0 <= i < split(path, '/').len() && starts_with(#[trigger] split(path, '/')[i], '*'))
            ==> template_priority(path) == 1024 * literal_count(split(path, '/')) + split(
            path,
            '/',
        ).len(),
        (forall|i: int|
            0 <= i < split(path, '/').len() ==> !starts_with(#[trigger] split(path, '/')[i], '*'))
            ==> template_priority(path) == 16_777_216 + 1024 * literal_count(split(path, '/'))
            + split(path, '/').len(),
{
}

} // verus!

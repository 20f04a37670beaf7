//! Matching of request paths against route templates.
use std::borrow::Cow;

use vstd::prelude::*;

#[allow(unused_imports)]
use crate::params::component_text;
use crate::params::{cow_text, decode_component};
#[allow(unused_imports)]
use crate::text::{
    join, lemma_split_holds_no_more, lemma_split_pieces, split, starts_with,
};
use crate::text::{same_text, starts_with_ascii, Pieces};

verus! {

/// How many captures a match can hold.
pub const MAX_CAPTURES: usize = 8;

/// The captures of the path segments `path` under the template segments
/// `template`, where they match.
///
/// `:name` takes one nonempty segment and a final `*name` takes all that is
/// left, nothing included. Any other template segment stands for itself.
/// Segments are decoded after they were told apart.
pub open spec fn captures_of(
    template: Seq<Seq<char>>,
    path: Seq<Seq<char>>,
) -> Option<Seq<Seq<char>>>
    decreases template.len(),
{
    if template.len() == 0 {
        if path.len() == 0 {
            Some(Seq::empty())
        } else {
            None
        }
    } else if starts_with(template[0], '*') {
        if template.len() == 1 {
            Some(seq![component_text(join(path, '/'))])
        } else {
            None
        }
    } else if path.len() == 0 {
        None
    } else if starts_with(template[0], ':') && path[0].len() > 0 {
        with_captures(
            seq![component_text(path[0])],
            captures_of(template.skip(1), path.skip(1)),
        )
    } else if component_text(path[0]) == template[0] {
        captures_of(template.skip(1), path.skip(1))
    } else {
        None
    }
}

/// `rest` behind captures that were made before it.
pub open spec fn with_captures(
    done: Seq<Seq<char>>,
    rest: Option<Seq<Seq<char>>>,
) -> Option<Seq<Seq<char>>> {
    match rest {
        Some(rest) => Some(done + rest),
        None => None,
    }
}

/// The captures of `path` under `template`; at most [`MAX_CAPTURES`].
pub open spec fn route_captures(path: Seq<char>, template: Seq<char>) -> Option<Seq<Seq<char>>> {
    match captures_of(split(template, '/'), split(path, '/')) {
        Some(captures) => if captures.len() <= MAX_CAPTURES {
            Some(captures)
        } else {
            None
        },
        None => None,
    }
}

/// Captures that borrow from the path.
#[derive(Clone, Copy, Debug)]
pub struct RouteMatch<'a> {
    captures: [Option<&'a str>; 8],
    len: usize,
}

impl<'a> RouteMatch<'a> {
    #[verifier::type_invariant]
    spec fn bounded(self) -> bool {
        self.len <= MAX_CAPTURES
    }

    /// The capture slots that are in use.
    pub closed spec fn slots(self) -> Seq<Option<&'a str>> {
        self.captures@.take(self.len as int)
    }

    pub fn from_captures(captures: [Option<&'a str>; 8], len: usize) -> (matched: Self)
        requires
            len <= MAX_CAPTURES,
        ensures
            matched.slots() == captures@.take(len as int),
    {
        RouteMatch { captures, len }
    }

    /// The capture with this index, if there is one.
    pub fn capture(&self, index: usize) -> (capture: Option<&'a str>)
        ensures
            capture == (if index < self.slots().len() {
                self.slots()[index as int]
            } else {
                None
            }),
    {
        proof {
            use_type_invariant(self);
        }
        if index < self.len {
            self.captures[index]
        } else {
            None
        }
    }
}

/// Captures that own their text where decoding changed it.
#[derive(Debug)]
pub struct DecodedRouteMatch<'a> {
    captures: [Option<Cow<'a, str>>; 8],
    len: usize,
}

impl<'a> DecodedRouteMatch<'a> {
    #[verifier::type_invariant]
    spec fn filled(self) -> bool {
        &&& self.len <= MAX_CAPTURES
        &&& forall|i: int| 0 <= i < self.len ==> #[trigger] self.captures@[i] is Some
    }

    /// The decoded captures in their order.
    pub closed spec fn captures(self) -> Seq<Seq<char>> {
        capture_texts(self.captures@, self.len as int)
    }

    /// The capture with this index, if there is one.
    pub fn capture(&self, index: usize) -> (capture: Option<&str>)
        ensures
            match capture {
                Some(text) => index < self.captures().len() && text@ == self.captures()[index as int],
                None => index >= self.captures().len(),
            },
    {
        proof {
            use_type_invariant(self);
        }
        if index < self.len {
            match &self.captures[index] {
                Some(text) => Some(cow_text(text)),
                None => None,
            }
        } else {
            None
        }
    }
}

spec fn capture_texts(slots: Seq<Option<Cow<'_, str>>>, len: int) -> Seq<Seq<char>> {
    Seq::new(len as nat, |i: int| slots[i]->0@)
}

/// Matches a raw path against a template of literal, `:capture` and final
/// `*catch_all` segments. Raw `/` bytes part the segments; percent decoding is
/// applied within each of them afterwards.
pub fn match_route<'a>(path: &'a str, template: &str) -> (matched: Option<DecodedRouteMatch<'a>>)
    ensures
        match matched {
            Some(matched) => route_captures(path@, template@) == Some(matched.captures()),
            None => route_captures(path@, template@) is None,
        },
{
    let mut captures: [Option<Cow<'a, str>>; 8] = [None, None, None, None, None, None, None, None];
    let mut len: usize = 0;
    let mut path_segments = Pieces::new(path, 47);
    let mut template_segments = Pieces::new(template, 47);
    let ghost all = captures_of(split(template@, '/'), split(path@, '/'));
    assert(with_captures(capture_texts(captures@, 0), all) == all) by {
        if let Some(rest) = all {
            assert(capture_texts(captures@, 0) + rest =~= rest);
        }
    }
    loop
        invariant
            len <= MAX_CAPTURES,
            forall|i: int| 0 <= i < len ==> #[trigger] captures@[i] is Some,
            path_segments.separator() == '/',
            template_segments.separator() == '/',
            all == captures_of(split(template@, '/'), split(path@, '/')),
            all == with_captures(
                capture_texts(captures@, len as int),
                captures_of(template_segments.pieces(), path_segments.pieces()),
            ),
        decreases template_segments.pieces().len(),
    {
        let ghost done = capture_texts(captures@, len as int);
        let ghost template_left = template_segments.pieces();
        let ghost path_left = path_segments.pieces();
        let remainder = path_segments.remainder();
        let expected = match template_segments.next() {
            Some(expected) => expected,
            None => {
                assert(done + Seq::<Seq<char>>::empty() =~= done);
                return match path_segments.next() {
                    Some(_) => None,
                    None => Some(DecodedRouteMatch { captures, len }),
                };
            },
        };
        if starts_with_ascii(expected, 42) {
            if len == MAX_CAPTURES || template_segments.next().is_some() {
                return None;
            }
            captures[len] = Some(decode_component(remainder));
            len += 1;
            assert(capture_texts(captures@, len as int) =~= done.push(
                component_text(join(path_left, '/')),
            ));
            assert(done.push(component_text(join(path_left, '/'))) =~= done
                + seq![component_text(join(path_left, '/'))]);
            return Some(DecodedRouteMatch { captures, len });
        }
        let segment = match path_segments.next() {
            Some(segment) => segment,
            None => {
                return None;
            },
        };
        if starts_with_ascii(expected, 58) && !segment.is_empty() {
            if len == MAX_CAPTURES {
                return None;
            }
            captures[len] = Some(decode_component(segment));
            len += 1;
            proof {
                let text = component_text(segment@);
                assert(capture_texts(captures@, len as int) =~= done + seq![text]);
                if let Some(rest) = captures_of(template_left.skip(1), path_left.skip(1)) {
                    assert(done + (seq![text] + rest) =~= done + seq![text] + rest);
                }
            }
        } else if !same_text(cow_text(&decode_component(segment)), expected) {
            return None;
        }
    }
}

/// How many of the first `index` segments of a template are captures.
pub open spec fn captures_before(template: Seq<Seq<char>>, index: int) -> int
    decreases index,
{
    if index <= 0 {
        0
    } else if starts_with(template[0], ':') {
        1 + captures_before(template.skip(1), index - 1)
    } else {
        captures_before(template.skip(1), index - 1)
    }
}

proof fn lemma_segment(
    template: Seq<Seq<char>>,
    path: Seq<Seq<char>>,
    captures: Seq<Seq<char>>,
    index: int,
)
    requires
        captures_of(template, path) == Some(captures),
        forall|i: int| 0 <= i < template.len() ==> !starts_with(#[trigger] template[i], '*'),
        0 <= index < template.len(),
    ensures
        path.len() == template.len(),
        0 <= captures_before(template, index) <= captures.len(),
        if starts_with(template[index], ':') {
            &&& captures_before(template, index) < captures.len()
            &&& captures[captures_before(template, index)] == component_text(path[index])
            &&& path[index].len() > 0
        } else {
            component_text(path[index]) == template[index]
        },
    decreases template.len(),
{
    let rest = captures_of(template.skip(1), path.skip(1))->Some_0;
    assert(!starts_with(template[0], '*'));
    assert(starts_with(template[0], ':') && path[0].len() == 0 ==> component_text(path[0])
        == path[0]);
    if template.len() > 1 {
        assert forall|i: int| 0 <= i < template.skip(1).len() implies !starts_with(
            #[trigger] template.skip(1)[i],
            '*',
        ) by {
            assert(!starts_with(template[i + 1], '*'));
        }
        lemma_segment(
            template.skip(1),
            path.skip(1),
            rest,
            if index > 0 {
                index - 1
            } else {
                0
            },
        );
    } else {
        assert(template.skip(1).len() == 0);
    }
}

/// Raw slashes alone part a path. Under a template without a catch-all, every
/// segment of the path stands at its own segment of the template: a capture
/// holds the whole segment, decoded, and a slash that was written `%2F` stays
/// in it.
pub proof fn law_captures_stay_within_their_segment(
    path: Seq<char>,
    template: Seq<char>,
    captures: Seq<Seq<char>>,
    index: int,
)
    requires
        route_captures(path, template) == Some(captures),
        forall|i: int|
            0 <= i < split(template, '/').len() ==> !starts_with(
                #[trigger] split(template, '/')[i],
                '*',
            ),
        0 <= index < split(template, '/').len(),
    ensures
        split(path, '/').len() == split(template, '/').len(),
        !split(path, '/')[index].contains('/'),
        if starts_with(split(template, '/')[index], ':') {
            let place = captures_before(split(template, '/'), index);
            &&& 0 <= place < captures.len()
            &&& captures[place] == component_text(split(path, '/')[index])
            &&& split(path, '/')[index].len() > 0
        } else {
            component_text(split(path, '/')[index]) == split(template, '/')[index]
        },
{
    lemma_segment(split(template, '/'), split(path, '/'), captures, index);
    lemma_split_pieces(path, '/', index);
}

/// A path that is written without escapes matches the template that it spells,
/// where that has neither captures nor catch-alls.
pub proof fn law_literal_paths_match_themselves(path: Seq<char>)
    requires
        !path.contains('%'),
        forall|i: int|
            0 <= i < split(path, '/').len() ==> !starts_with(#[trigger] split(path, '/')[i], '*')
                && !starts_with(split(path, '/')[i], ':'),
    ensures
        route_captures(path, path) == Some(Seq::<Seq<char>>::empty()),
{
    assert forall|i: int| 0 <= i < split(path, '/').len() implies !(
    #[trigger] split(path, '/')[i]).contains('%') by {
        lemma_split_holds_no_more(path, '/', i, '%');
    }
    lemma_literals(split(path, '/'));
}

proof fn lemma_literals(segments: Seq<Seq<char>>)
    requires
        forall|i: int|
            0 <= i < segments.len() ==> !starts_with(#[trigger] segments[i], '*') && !starts_with(
                segments[i],
                ':',
            ) && !segments[i].contains('%'),
    ensures
        captures_of(segments, segments) == Some(Seq::<Seq<char>>::empty()),
    decreases segments.len(),
{
    if segments.len() > 0 {
        assert(!starts_with(segments[0], '*'));
        let rest = segments.skip(1);
        assert forall|i: int| 0 <= i < rest.len() implies !starts_with(#[trigger] rest[i], '*')
            && !starts_with(rest[i], ':') && !rest[i].contains('%') by {
            assert(rest[i] == segments[i + 1]);
        }
        lemma_literals(rest);
    }
}

} // verus!

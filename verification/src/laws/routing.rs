//! Laws of routes: methods, templates, tables and the choice between routes.
use vstd::prelude::*;
use vstd::string::StringSliceAdditionalSpecFns;
use vstd::utf8::*;

#[allow(unused_imports)]
use crate::methods::{
    bit_at, bit_of, has_method, method_at, method_list_text, method_names,
};
#[allow(unused_imports)]
use crate::params::component_text;
#[allow(unused_imports)]
use crate::registry::{
    at_most, conflicting, equivalent_shapes, group_order, hex4, is_name_order,
    law_equivalent_templates_overlap, law_matching_templates_overlap,
    law_overlapping_templates_share_a_path, listed, named, same_shape, templates_equivalent,
    templates_overlap, unambiguous,
};
use crate::registry::ApiRegistration;
#[allow(unused_imports)]
use crate::response::{
    block_error, encoded_line, encoded_lines, law_proper_headers_are_kept,
    lemma_proper_lines_pass, proper_line, BodyModel, ResponseModel,
};
#[allow(unused_imports)]
use crate::route::{captures_of, route_captures, with_captures};
#[allow(unused_imports)]
use crate::router::{
    accepts, allowed_methods, applies, is_most_specific, is_resolved, is_selected, precedes,
    rebased, registered, takes_over, target_of, unmatched_response, weighed, weighed_all,
};
use crate::router::{
    Choice, LegacyOffer, PreparedRoute, RegisteredRoute, RouteDescriptor, RouteTarget, Table,
};
#[allow(unused_imports)]
use crate::text::{glued, hex_char, join, split, starts_with};

verus! {

/// The standard methods in alphabetical order.
pub open spec fn standard_methods() -> Seq<Seq<char>> {
    seq!["DELETE"@, "GET"@, "HEAD"@, "OPTIONS"@, "PATCH"@, "POST"@, "PUT"@]
}

proof fn lemma_methods_differ()
    ensures
        forall|i: int, j: int|
            0 <= i < 7 && 0 <= j < 7 && i != j ==> #[trigger] standard_methods()[i]
                != #[trigger] standard_methods()[j],
{
    reveal_strlit("DELETE");
    reveal_strlit("GET");
    reveal_strlit("HEAD");
    reveal_strlit("OPTIONS");
    reveal_strlit("PATCH");
    reveal_strlit("POST");
    reveal_strlit("PUT");
    let all = standard_methods();
    assert(all[0].len() == 6 && all[1].len() == 3 && all[2].len() == 4 && all[3].len() == 7
        && all[4].len() == 5 && all[5].len() == 4 && all[6].len() == 3);
    assert(all[1][0] == 'G' && all[6][0] == 'P' && all[2][0] == 'H' && all[5][0] == 'P');
}

/// Every standard method has a bit of its own, in alphabetical order, and no
/// other name has one.
pub proof fn law_methods_have_their_own_bits(name: Seq<char>, i: int, j: int)
    requires
        0 <= i < 7,
        0 <= j < 7,
    ensures
        method_at(i) == standard_methods()[i],
        bit_of(standard_methods()[i]) == bit_at(i),
        bit_at(i) & bit_at(j) != 0 <==> i == j,
        has_method(bit_of(standard_methods()[i]), j) <==> i == j,
        !standard_methods().contains(name) ==> bit_of(name) == 0,
        bit_at(0) == 1,
        i > 0 ==> bit_at(i) == 2 * bit_at(i - 1),
{
    lemma_methods_differ();
    let all = standard_methods();
    assert(all[0] == "DELETE"@ && all[1] == "GET"@ && all[2] == "HEAD"@ && all[3] == "OPTIONS"@
        && all[4] == "PATCH"@ && all[5] == "POST"@ && all[6] == "PUT"@);
    let (a, b) = (bit_at(i), bit_at(j));
    assert((a == 1 || a == 2 || a == 4 || a == 8 || a == 16 || a == 32 || a == 64) && (b == 1 || b
        == 2 || b == 4 || b == 8 || b == 16 || b == 32 || b == 64) ==> ((a & b != 0) == (a == b)))
        by (bit_vector);
}

/// Which of the first `count` standard methods a set holds, in order.
spec fn held(methods: u16, count: int) -> Seq<int>
    decreases count,
{
    if count <= 0 {
        Seq::empty()
    } else if has_method(methods, count - 1) {
        held(methods, count - 1).push(count - 1)
    } else {
        held(methods, count - 1)
    }
}

proof fn lemma_held(methods: u16, count: int)
    requires
        0 <= count <= 7,
    ensures
        lists_methods(methods, method_names(methods, count), held(methods, count), count),
    decreases count,
{
    if count > 0 {
        lemma_held(methods, count - 1);
        let before = held(methods, count - 1);
        let at = held(methods, count);
        law_methods_have_their_own_bits(Seq::empty(), count - 1, 0);
        assert forall|i: int| 0 <= i < count implies (at.contains(i) <==> #[trigger] has_method(
            methods,
            i,
        )) by {
            if i < count - 1 {
                assert(before.contains(i) <==> has_method(methods, i));
                if before.contains(i) {
                    let k = choose|k: int| 0 <= k < before.len() && before[k] == i;
                    assert(at[k] == i);
                }
                if at.contains(i) {
                    let k = choose|k: int| 0 <= k < at.len() && at[k] == i;
                    assert(before[k] == i);
                }
            } else if has_method(methods, i) {
                assert(at[before.len() as int] == i);
            } else if at.contains(i) {
                let k = choose|k: int| 0 <= k < at.len() && at[k] == i;
                assert(before[k] < count - 1);
            }
        }
    }
}

/// Whether `names` are those of the methods in a set, `at` being their places
/// among the standard methods.
pub open spec fn lists_methods(
    methods: u16,
    names: Seq<Seq<char>>,
    at: Seq<int>,
    count: int,
) -> bool {
    &&& names.len() == at.len()
    &&& forall|k: int|
        0 <= k < at.len() ==> 0 <= #[trigger] at[k] < count && names[k]
            == standard_methods()[at[k]]
    &&& forall|k: int, l: int| 0 <= k < l < at.len() ==> #[trigger] at[k] < #[trigger] at[l]
    &&& forall|i: int| 0 <= i < count ==> (at.contains(i) <==> #[trigger] has_method(methods, i))
}

/// The methods of a set are listed in alphabetical order, each of them once,
/// with a comma and a space between each two.
pub proof fn law_methods_are_listed_in_order(methods: u16)
    ensures
        exists|names: Seq<Seq<char>>, at: Seq<int>| #[trigger]
            lists_methods(methods, names, at, 7) && method_list_text(methods) == glued(
                names,
                ", "@,
            ),
{
    lemma_held(methods, 7);
}

/// A request that no route answers is not found where no template matches, and
/// otherwise told the methods that it could have used.
pub proof fn law_unmatched_requests_are_told_the_methods(methods: u16)
    requires
        method_list_text(methods).len() < 1000,
    ensures
        methods == 0 ==> unmatched_response(methods) == ResponseModel::empty(404),
        methods != 0 ==> {
            let answer = unmatched_response(methods);
            &&& answer.status == 405
            &&& answer.body == BodyModel::Whole(Seq::empty())
            &&& answer.headers == "allow: ".spec_bytes() + encode_utf8(method_list_text(methods))
                + seq![13u8, 10u8]
            &&& !answer.close
        },
{
    if methods != 0 {
        reveal_strlit("allow");
        reveal_strlit("allow: ");
        is_ascii_chars_encode_utf8("allow: "@);
        is_ascii_chars_encode_utf8("allow"@);
        crate::reply::lemma_fixed_name("allow");
        crate::router::lemma_methods_plain(methods, 7);
        let text = method_list_text(methods);
        crate::reply::lemma_plain_value(text);
        let value = encode_utf8(text);
        assert forall|i: int| 0 <= i < text.len() implies (#[trigger] text[i] as u32) < 128 by {
            assert(' ' <= text[i] <= '~');
        }
        is_ascii_chars_encode_utf8(text);
        let line = ("allow".spec_bytes(), value);
        let lines = seq![line];
        assert forall|i: int| 0 <= i < value.len() implies value[i] != 13 && value[i] != 10 by {
            assert(crate::headers::value_byte(value[i]));
        }
        assert(proper_line(line));
        lemma_proper_lines_pass(lines);
        assert(lines.drop_last() =~= Seq::<(Seq<u8>, Seq<u8>)>::empty());
        assert(encoded_lines(lines.drop_last()) =~= Seq::<u8>::empty());
        assert("allow: ".spec_bytes() =~= "allow".spec_bytes() + seq![58u8, 32]);
        assert(encoded_lines(lines) =~= "allow: ".spec_bytes() + value + seq![13u8, 10u8]);
        assert(Seq::<u8>::empty() + encoded_lines(lines) =~= encoded_lines(lines));
        assert(value.len() < 1000);
    }
}

/// A template takes a path segment by segment. A literal takes the segment that
/// stands for it, a parameter any segment that is not empty, and captures it
/// decoded. A last catch-all captures all that is left, also nothing. A
/// template without one takes no path that is longer or shorter.
pub proof fn law_templates_take_paths_segment_by_segment(
    first: Seq<char>,
    template: Seq<Seq<char>>,
    segment: Seq<char>,
    path: Seq<Seq<char>>,
)
    ensures
        !starts_with(first, ':') && !starts_with(first, '*') ==> captures_of(
            seq![first] + template,
            seq![segment] + path,
        ) == (if component_text(segment) == first {
            captures_of(template, path)
        } else {
            None
        }),
        starts_with(first, ':') && segment.len() > 0 ==> captures_of(
            seq![first] + template,
            seq![segment] + path,
        ) == (match captures_of(template, path) {
            Some(captures) => Some(seq![component_text(segment)] + captures),
            None => None,
        }),
        starts_with(first, ':') && segment.len() == 0 ==> captures_of(
            seq![first] + template,
            seq![segment] + path,
        ) is None,
        starts_with(first, '*') ==> captures_of(seq![first], path) == Some(
            seq![component_text(join(path, '/'))],
        ),
        starts_with(first, '*') && template.len() > 0 ==> captures_of(
            seq![first] + template,
            path,
        ) is None,
        !starts_with(first, '*') ==> captures_of(seq![first] + template, Seq::empty()) is None,
        captures_of(Seq::empty(), seq![segment] + path) is None,
        captures_of(Seq::empty(), Seq::empty()) == Some(Seq::<Seq<char>>::empty()),
{
    let longer = seq![first] + template;
    let deeper = seq![segment] + path;
    assert(longer.skip(1) =~= template);
    assert(deeper.skip(1) =~= path);
    assert(longer[0] == first && deeper[0] == segment);
    if segment.len() == 0 {
        assert(component_text(segment) == segment);
    }
}

/// A path is matched by its segments between slashes, and has at most eight
/// captures.
pub proof fn law_matches_have_at_most_eight_captures(path: Seq<char>, template: Seq<char>)
    ensures
        route_captures(path, template) == (match captures_of(
            split(template, '/'),
            split(path, '/'),
        ) {
            Some(captures) if captures.len() <= 8 => Some(captures),
            _ => None,
        }),
{
}

/// The route that answers a request takes its path and its method, and of all
/// that do it has the highest priority, or is the first of several with that
/// one. Where none does, the request is counted by the first of the routes that
/// take its path, and the methods of those routes are allowed.
pub proof fn law_the_best_route_answers(
    routes: Seq<RegisteredRoute>,
    path: Seq<char>,
    method: Seq<char>,
    prepared: PreparedRoute<'_>,
)
    requires
        is_resolved(routes, path, method, prepared),
    ensures
        prepared.target matches Some(target) ==> exists|i: int|
            {
                &&& 0 <= i < routes.len()
                &&& target.handler == (#[trigger] routes[i]).handler
                &&& target.endpoint == Some(routes[i].endpoint)
                &&& target.priority == routes[i].descriptor.priority
                &&& target.api_log == routes[i].descriptor.api_log
                &&& prepared.captures is Some
                &&& route_captures(path, routes[i].descriptor.path@) == Some(
                    prepared.captures->0.captures(),
                )
                &&& routes[i].descriptor.methods & bit_of(method) != 0
                &&& prepared.metrics == Some(target)
                &&& forall|j: int|
                    0 <= j < routes.len() && route_captures(
                        path,
                        (#[trigger] routes[j]).descriptor.path@,
                    ) is Some && routes[j].descriptor.methods & bit_of(method) != 0 ==> (
                    routes[j].descriptor.priority < target.priority
                        || routes[j].descriptor.priority == target.priority && i <= j)
            },
        prepared.target is None ==> {
            &&& prepared.captures is None
            &&& forall|j: int|
                0 <= j < routes.len() && route_captures(
                    path,
                    (#[trigger] routes[j]).descriptor.path@,
                ) is Some ==> routes[j].descriptor.methods & bit_of(method) == 0
            &&& prepared.metrics is None ==> forall|j: int|
                0 <= j < routes.len() ==> route_captures(
                    path,
                    (#[trigger] routes[j]).descriptor.path@,
                ) is None
            &&& prepared.metrics matches Some(counted) ==> exists|i: int|
                {
                    &&& 0 <= i < routes.len()
                    &&& counted.handler == (#[trigger] routes[i]).handler
                    &&& counted.endpoint == Some(routes[i].endpoint)
                    &&& route_captures(path, routes[i].descriptor.path@) is Some
                    &&& forall|j: int|
                        0 <= j < routes.len() && route_captures(
                            path,
                            (#[trigger] routes[j]).descriptor.path@,
                        ) is Some ==> (routes[j].descriptor.priority
                            < routes[i].descriptor.priority || routes[j].descriptor.priority
                            == routes[i].descriptor.priority && i <= j)
                }
        },
        forall|bit: u16|
            (#[trigger] (prepared.allowed & bit)) != 0 <==> exists|j: int|
                0 <= j < routes.len() && route_captures(
                    path,
                    (#[trigger] routes[j]).descriptor.path@,
                ) is Some && routes[j].descriptor.methods & bit != 0,
{
    if let Some(target) = prepared.target {
        let chosen = choose|chosen: int|
            {
                &&& #[trigger] is_selected(
                    routes,
                    routes.len() as int,
                    path,
                    bit_of(method),
                    chosen,
                )
                &&& target == target_of(routes[chosen])
                &&& prepared.captures matches Some(captures) && route_captures(
                    path,
                    routes[chosen].descriptor.path@,
                ) == Some(captures.captures())
                &&& prepared.metrics == Some(target)
            };
        assert forall|j: int|
            0 <= j < routes.len() && route_captures(
                path,
                (#[trigger] routes[j]).descriptor.path@,
            ) is Some && routes[j].descriptor.methods & bit_of(method) != 0 implies (
        routes[j].descriptor.priority < target.priority || routes[j].descriptor.priority
            == target.priority && chosen <= j) by {
            assert(accepts(routes[j], path, bit_of(method)));
            assert(precedes(routes, chosen, j));
        }
        assert(target.handler == routes[chosen].handler);
    } else {
        assert forall|j: int|
            0 <= j < routes.len() && route_captures(
                path,
                (#[trigger] routes[j]).descriptor.path@,
            ) is Some implies routes[j].descriptor.methods & bit_of(method) == 0 by {
            assert(!accepts(routes[j], path, bit_of(method)));
        }
        if let Some(counted) = prepared.metrics {
            let chosen = choose|chosen: int|
                #[trigger] is_most_specific(routes, routes.len() as int, path, chosen) && counted
                    == target_of(routes[chosen]);
            assert forall|j: int|
                0 <= j < routes.len() && route_captures(
                    path,
                    (#[trigger] routes[j]).descriptor.path@,
                ) is Some implies (routes[j].descriptor.priority
                < routes[chosen].descriptor.priority || routes[j].descriptor.priority
                == routes[chosen].descriptor.priority && chosen <= j) by {
                assert(applies(routes[j], path));
                assert(precedes(routes, chosen, j));
            }
            assert(counted.handler == routes[chosen].handler);
        } else {
            assert forall|j: int| 0 <= j < routes.len() implies route_captures(
                path,
                (#[trigger] routes[j]).descriptor.path@,
            ) is None by {
                assert(!applies(routes[j], path));
            }
        }
    }
    assert forall|bit: u16|
        (#[trigger] (prepared.allowed & bit)) != 0 <==> exists|j: int|
            0 <= j < routes.len() && route_captures(
                path,
                (#[trigger] routes[j]).descriptor.path@,
            ) is Some && routes[j].descriptor.methods & bit != 0 by {
        crate::router::law_allowed_methods_are_those_of_matching_routes(
            routes,
            routes.len() as int,
            path,
            bit,
        );
        if exists|j: int| 0 <= j < routes.len() && accepts(#[trigger] routes[j], path, bit) {
            let j = choose|j: int|
                0 <= j < routes.len() && accepts(#[trigger] routes[j], path, bit);
            assert(route_captures(path, routes[j].descriptor.path@) is Some);
        }
        if exists|j: int|
            0 <= j < routes.len() && route_captures(
                path,
                (#[trigger] routes[j]).descriptor.path@,
            ) is Some && routes[j].descriptor.methods & bit != 0 {
            let j = choose|j: int|
                0 <= j < routes.len() && route_captures(
                    path,
                    (#[trigger] routes[j]).descriptor.path@,
                ) is Some && routes[j].descriptor.methods & bit != 0;
            assert(accepts(routes[j], path, bit));
        }
    }
}

/// A handler without routes of its own answers where it offers more than the
/// present choice: a higher priority, or the same and an earlier place. What it
/// does not answer it can still be counted for, and its methods are allowed.
pub proof fn law_the_best_offer_answers(choice: Choice, handler: usize, offer: LegacyOffer)
    ensures
        ({
            let better = offer.priority is Some && (choice.target is None || offer.priority->0
                > choice.target->0.priority || offer.priority->0 == choice.target->0.priority
                && handler < choice.target->0.handler);
            let after = weighed(choice, handler, offer);
            &&& after.allowed == choice.allowed | offer.methods
            &&& better ==> after.target == Some(
                RouteTarget { handler, endpoint: None, priority: offer.priority->0, api_log: true },
            )
            &&& better ==> after.metrics == (if offer.metrics is Some {
                after.target
            } else {
                None
            })
            &&& !better ==> after.target == choice.target
            &&& !better && (offer.metrics is None || choice.target is Some) ==> after.metrics
                == choice.metrics
            &&& !better && choice.target is None && offer.metrics is Some ==> after.metrics == (
            if choice.metrics is None || offer.metrics->0 > choice.metrics->0.priority
                || offer.metrics->0 == choice.metrics->0.priority && handler
                < choice.metrics->0.handler {
                Some(
                    RouteTarget {
                        handler,
                        endpoint: None,
                        priority: offer.metrics->0,
                        api_log: true,
                    },
                )
            } else {
                choice.metrics
            })
        }),
{
}

/// Offers are weighed one behind the other.
pub proof fn law_offers_are_weighed_in_order(
    choice: Choice,
    handlers: Seq<usize>,
    offers: Seq<LegacyOffer>,
    count: int,
)
    requires
        0 <= count < offers.len(),
        handlers.len() == offers.len(),
    ensures
        weighed_all(choice, handlers, offers, count + 1) == weighed(
            weighed_all(choice, handlers, offers, count),
            handlers[count],
            offers[count],
        ),
        weighed_all(choice, handlers, offers, 0) == choice,
{
}

/// A handler is added behind the others, with its routes under its own number,
/// each with its place among them; one without routes is marked.
pub proof fn law_handlers_keep_their_routes<H>(
    table: Table<H>,
    handler: H,
    descriptors: Seq<RouteDescriptor>,
    index: int,
)
    requires
        table.handlers.len() < usize::MAX,
        descriptors.len() <= usize::MAX,
        0 <= index < descriptors.len(),
    ensures
        ({
            let after = table.with_handler(handler, descriptors);
            let route = after.routes[table.routes.len() + index];
            &&& after.handlers == table.handlers.push(handler)
            &&& after.routes.len() == table.routes.len() + descriptors.len()
            &&& after.routes.take(table.routes.len() as int) == table.routes
            &&& after.handlers[route.handler as int] == handler
            &&& route.handler == table.handlers.len()
            &&& route.endpoint == index
            &&& route.descriptor == descriptors[index]
            &&& after.legacy == table.legacy
            &&& table.with_handler(handler, Seq::empty()).legacy == table.legacy.push(
                table.handlers.len() as usize,
            )
            &&& table.with_handler(handler, Seq::empty()).routes == table.routes
        }),
{
    let after = table.with_handler(handler, descriptors);
    assert(after.routes.take(table.routes.len() as int) =~= table.routes);
    assert(table.with_handler(handler, Seq::empty()).routes =~= table.routes);
}

/// Merging puts a table behind another; its routes and marks keep their own
/// handlers.
pub proof fn law_merged_routes_keep_their_handlers<H>(left: Table<H>, right: Table<H>, index: int)
    requires
        left.well_formed(),
        right.well_formed(),
        left.handlers.len() + right.handlers.len() <= usize::MAX,
        0 <= index < right.routes.len(),
    ensures
        ({
            let all = left.merged(right);
            let route = all.routes[left.routes.len() + index];
            &&& all.handlers == left.handlers + right.handlers
            &&& all.routes.len() == left.routes.len() + right.routes.len()
            &&& all.routes.take(left.routes.len() as int) == left.routes
            &&& all.handlers[route.handler as int]
                == right.handlers[right.routes[index].handler as int]
            &&& route.endpoint == right.routes[index].endpoint
            &&& route.descriptor == right.routes[index].descriptor
            &&& all.legacy.len() == left.legacy.len() + right.legacy.len()
            &&& all.legacy.take(left.legacy.len() as int) == left.legacy
            &&& forall|k: int|
                0 <= k < right.legacy.len() ==> all.handlers[all.legacy[left.legacy.len()
                    + k] as int] == right.handlers[#[trigger] right.legacy[k] as int]
        }),
{
    let all = left.merged(right);
    assert(right.routes[index].handler < right.handlers.len());
    assert(all.routes.take(left.routes.len() as int) =~= left.routes);
    assert(all.legacy.take(left.legacy.len() as int) =~= left.legacy);
    assert forall|k: int| 0 <= k < right.legacy.len() implies all.handlers[all.legacy[left.legacy.len()
        + k] as int] == right.handlers[#[trigger] right.legacy[k] as int] by {
        assert(right.legacy[k] < right.handlers.len());
    }
}

/// Names are ordered byte by byte, a beginning before what it begins.
pub proof fn law_names_are_ordered_byte_by_byte(
    common: Seq<u8>,
    left: Seq<u8>,
    right: Seq<u8>,
)
    ensures
        at_most(common, common + right),
        right.len() > 0 ==> !at_most(common + right, common),
        left.len() > 0 && right.len() > 0 && left[0] != right[0] ==> (at_most(
            common + left,
            common + right,
        ) <==> left[0] < right[0]),
    decreases common.len(),
{
    if common.len() > 0 {
        law_names_are_ordered_byte_by_byte(common.skip(1), left, right);
        assert((common + left).skip(1) =~= common.skip(1) + left);
        assert((common + right).skip(1) =~= common.skip(1) + right);
    } else {
        assert(common + left =~= left);
        assert(common + right =~= right);
    }
}

/// Two templates have the same shape where they are written alike but for the
/// names of what they capture.
pub proof fn law_shapes_ignore_the_names_of_captures(left: Seq<char>, right: Seq<char>)
    ensures
        templates_equivalent(left, right) <==> {
            &&& split(left, '/').len() == split(right, '/').len()
            &&& forall|i: int|
                0 <= i < split(left, '/').len() ==> {
                    let (a, b) = (#[trigger] split(left, '/')[i], split(right, '/')[i]);
                    ||| a == b
                    ||| a.len() > 0 && b.len() > 0 && a[0] == ':' && b[0] == ':'
                    ||| a.len() > 0 && b.len() > 0 && a[0] == '*' && b[0] == '*'
                }
        },
{
    let (l, r) = (split(left, '/'), split(right, '/'));
    if templates_equivalent(left, right) {
        assert forall|i: int| 0 <= i < l.len() implies {
            let (a, b) = (#[trigger] l[i], r[i]);
            ||| a == b
            ||| a.len() > 0 && b.len() > 0 && a[0] == ':' && b[0] == ':'
            ||| a.len() > 0 && b.len() > 0 && a[0] == '*' && b[0] == '*'
        } by {
            assert(same_shape(l[i], r[i]));
        }
    }
}

/// Two routes conflict where some method is common to both and nothing but
/// their order tells which of them answers: their templates have one shape, or
/// their priorities are equal and some path is taken by both.
pub proof fn law_conflicting_routes_are_told_apart_by_nothing(
    left: RouteDescriptor,
    right: RouteDescriptor,
)
    requires
        exists|path: Seq<char>| route_captures(path, left.path@) is Some,
        exists|path: Seq<char>| route_captures(path, right.path@) is Some,
    ensures
        conflicting(left, right) <==> left.methods & right.methods != 0 && (templates_equivalent(
            left.path@,
            right.path@,
        ) || left.priority == right.priority && exists|path: Seq<char>|
            (#[trigger] route_captures(path, left.path@)) is Some && route_captures(
                path,
                right.path@,
            ) is Some),
        conflicting(left, right) == conflicting(right, left),
{
    if templates_overlap(left.path@, right.path@) {
        law_overlapping_templates_share_a_path(left.path@, right.path@);
    }
    if exists|path: Seq<char>|
        (#[trigger] route_captures(path, left.path@)) is Some && route_captures(
            path,
            right.path@,
        ) is Some {
        let path = choose|path: Seq<char>|
            (#[trigger] route_captures(path, left.path@)) is Some && route_captures(
                path,
                right.path@,
            ) is Some;
        law_matching_templates_overlap(path, left.path@, right.path@);
    }
    crate::registry::law_overlap_is_symmetric(left.path@, right.path@);
    crate::registry::law_shape_is_an_equivalence(left.path@, right.path@, right.path@);
    let (m, n) = (left.methods, right.methods);
    assert(m & n == n & m) by (bit_vector);
}

/// Groups are built by name, those of one name as they were given.
pub proof fn law_groups_are_built_by_name(
    groups: Seq<ApiRegistration>,
    order: Seq<usize>,
    first: int,
    second: int,
)
    requires
        is_name_order(groups, order, groups.len() as int),
        0 <= first < second < order.len(),
    ensures
        order.len() == groups.len(),
        order[first] != order[second],
        at_most(
            groups[order[first] as int].name.spec_bytes(),
            groups[order[second] as int].name.spec_bytes(),
        ),
        groups[order[first] as int].name@ == groups[order[second] as int].name@ ==> order[first]
            < order[second],
{
    assert(group_order(groups, order[first] as int, order[second] as int));
    let name = groups[order[first] as int].name.spec_bytes();
    crate::registry::lemma_at_most_total(name, name);
}

/// All routes of a collection are checked, each under the name of its group.
pub proof fn law_all_routes_are_listed(
    groups: Seq<ApiRegistration>,
    order: Seq<usize>,
    count: int,
    group: int,
    route: int,
)
    requires
        0 <= group < count <= order.len(),
        0 <= route < groups[order[group] as int].routes@.len(),
    ensures
        listed(groups, order, count).contains(
            (
                groups[order[group] as int].name,
                groups[order[group] as int].routes@[route],
            ),
        ),
    decreases count,
{
    let before = listed(groups, order, count - 1);
    let all = listed(groups, order, count);
    let wanted = (groups[order[group] as int].name, groups[order[group] as int].routes@[route]);
    if group < count - 1 {
        law_all_routes_are_listed(groups, order, count - 1, group, route);
        let k = choose|k: int| 0 <= k < before.len() && before[k] == wanted;
        assert(all[k] == wanted);
    } else {
        assert(all[before.len() + route] == wanted);
    }
}

/// A set of methods is shown in four hexadecimal digits.
pub proof fn law_bits_are_shown_in_four_digits(value: u16, digit: int)
    requires
        0 <= digit < 16,
    ensures
        hex_char(digit) == "0123456789abcdef"@[digit],
        hex4(value) == seq![
            "0123456789abcdef"@[value as int / 4096],
            "0123456789abcdef"@[value as int / 256 % 16],
            "0123456789abcdef"@[value as int / 16 % 16],
            "0123456789abcdef"@[value as int % 16],
        ],
{
    reveal_strlit("0123456789abcdef");
}

} // verus!

//! What a handler of grouped endpoints decides of a request.
use vstd::prelude::*;

#[allow(unused_imports)]
use crate::macros::endpoint::EndpointModel;
use crate::macros::groups::RouteGroup;
#[allow(unused_imports)]
use crate::macros::groups::{
    endpoint_models, group_models, is_grouping, path_before, GroupModel,
};
use crate::macros::paths::route_priority;
#[allow(unused_imports)]
use crate::macros::paths::{has_catch_all, law_more_literals_come_first, template_priority};
#[allow(unused_imports)]
use crate::methods::bit_of;
use crate::methods::bit_of_name;
use crate::route::match_route;
#[allow(unused_imports)]
use crate::route::route_captures;
#[allow(unused_imports)]
use crate::text::split;
use crate::text::same_text;

verus! {

/// The bit of a method; zero for a name that is no standard method.
pub fn method_bit(method: &str) -> (bit: u16)
    ensures
        bit == bit_of(method@),
{
    bit_of_name(method)
}

/// The methods that the first of the endpoints answer.
pub open spec fn methods_in(endpoints: Seq<EndpointModel>, count: int) -> u16
    decreases count,
{
    if count <= 0 {
        0
    } else {
        methods_in(endpoints, count - 1) | bit_of(endpoints[count - 1].method)
    }
}

/// The methods that a group answers.
pub open spec fn group_bits(group: GroupModel) -> u16 {
    methods_in(group.endpoints, group.endpoints.len() as int)
}

pub fn group_methods(group: &RouteGroup<'_>) -> (methods: u16)
    ensures
        methods == group_bits(group@),
{
    let ghost endpoints = endpoint_models(group.endpoints@);
    let mut methods: u16 = 0;
    let mut i: usize = 0;
    while i < group.endpoints.len()
        invariant
            0 <= i <= group.endpoints@.len(),
            endpoints == endpoint_models(group.endpoints@),
            methods == methods_in(endpoints, i as int),
        decreases group.endpoints@.len() - i,
    {
        assert(endpoints[i as int] == group.endpoints@[i as int]@);
        methods = methods | method_bit(group.endpoints[i].method);
        i += 1;
    }
    methods
}

/// Whether a group's template matches the path.
pub open spec fn takes(group: GroupModel, path: Seq<char>) -> bool {
    route_captures(path, group.path) is Some
}

/// The endpoint that answers a method, from a position on.
pub open spec fn answering(endpoints: Seq<EndpointModel>, method: Seq<char>, at: int) -> Option<int>
    decreases endpoints.len() - at,
{
    if at < 0 || at >= endpoints.len() {
        None
    } else if endpoints[at].method == method {
        Some(at)
    } else {
        answering(endpoints, method, at + 1)
    }
}

fn find_endpoint(group: &RouteGroup<'_>, method: &str) -> (found: Option<usize>)
    ensures
        match found {
            Some(index) => answering(group@.endpoints, method@, 0) == Some(index as int) && index
                < group@.endpoints.len(),
            None => answering(group@.endpoints, method@, 0) is None,
        },
{
    let ghost endpoints = endpoint_models(group.endpoints@);
    let mut i: usize = 0;
    while i < group.endpoints.len()
        invariant
            0 <= i <= group.endpoints@.len(),
            endpoints == endpoint_models(group.endpoints@),
            answering(endpoints, method@, 0) == answering(endpoints, method@, i as int),
        decreases group.endpoints@.len() - i,
    {
        assert(endpoints[i as int] == group.endpoints@[i as int]@);
        if same_text(group.endpoints[i].method, method) {
            return Some(i);
        }
        i += 1;
    }
    None
}

/// What becomes of a request.
#[derive(Clone, Copy, Debug, PartialEq, Eq, Structural)]
pub enum Selected {
    /// This endpoint of this group answers it.
    Endpoint { group: usize, endpoint: usize },
    /// No endpoint does; these are the methods of the templates that match.
    Unmatched { methods: u16 },
}

/// What becomes of a request among the groups from a position on, given the
/// methods of the matching ones before it.
pub open spec fn selected(
    groups: Seq<GroupModel>,
    path: Seq<char>,
    method: Seq<char>,
    at: int,
    allowed: u16,
) -> Selected
    decreases groups.len() - at,
{
    if at < 0 || at >= groups.len() {
        Selected::Unmatched { methods: allowed }
    } else if !takes(groups[at], path) {
        selected(groups, path, method, at + 1, allowed)
    } else {
        match answering(groups[at].endpoints, method, 0) {
            Some(endpoint) => Selected::Endpoint { group: at as usize, endpoint: endpoint as usize },
            None => selected(groups, path, method, at + 1, allowed | group_bits(groups[at])),
        }
    }
}

/// Selects the endpoint that answers a request: that of the first template that
/// matches the path and answers the method.
pub fn select(groups: &[RouteGroup<'_>], path: &str, method: &str) -> (choice: Selected)
    ensures
        choice == selected(group_models(groups@), path@, method@, 0, 0),
{
    let ghost models = group_models(groups@);
    let mut allowed: u16 = 0;
    let mut i: usize = 0;
    while i < groups.len()
        invariant
            0 <= i <= groups@.len(),
            models == group_models(groups@),
            selected(models, path@, method@, 0, 0) == selected(
                models,
                path@,
                method@,
                i as int,
                allowed,
            ),
        decreases groups@.len() - i,
    {
        let group = &groups[i];
        assert(models[i as int] == group@);
        if match_route(path, group.path.as_str()).is_some() {
            match find_endpoint(group, method) {
                Some(endpoint) => {
                    return Selected::Endpoint { group: i, endpoint };
                },
                None => {
                    allowed = allowed | group_methods(group);
                },
            }
        }
        i += 1;
    }
    Selected::Unmatched { methods: allowed }
}

/// The methods of the groups from a position on that match the path, with others.
pub open spec fn allowed_methods(
    groups: Seq<GroupModel>,
    path: Seq<char>,
    at: int,
    allowed: u16,
) -> u16
    decreases groups.len() - at,
{
    if at < 0 || at >= groups.len() {
        allowed
    } else if takes(groups[at], path) {
        allowed_methods(groups, path, at + 1, allowed | group_bits(groups[at]))
    } else {
        allowed_methods(groups, path, at + 1, allowed)
    }
}

/// The methods that the templates matching a path answer.
pub fn route_methods(groups: &[RouteGroup<'_>], path: &str) -> (methods: u16)
    ensures
        methods == allowed_methods(group_models(groups@), path@, 0, 0),
{
    let ghost models = group_models(groups@);
    let mut allowed: u16 = 0;
    let mut i: usize = 0;
    while i < groups.len()
        invariant
            0 <= i <= groups@.len(),
            models == group_models(groups@),
            allowed_methods(models, path@, 0, 0) == allowed_methods(
                models,
                path@,
                i as int,
                allowed,
            ),
        decreases groups@.len() - i,
    {
        let group = &groups[i];
        assert(models[i as int] == group@);
        if match_route(path, group.path.as_str()).is_some() {
            allowed = allowed | group_methods(group);
        }
        i += 1;
    }
    allowed
}

/// The group whose endpoint answers a request, from a position on.
pub open spec fn answering_group(
    groups: Seq<GroupModel>,
    path: Seq<char>,
    method: Seq<char>,
    at: int,
) -> Option<int>
    decreases groups.len() - at,
{
    if at < 0 || at >= groups.len() {
        None
    } else if takes(groups[at], path) && answering(groups[at].endpoints, method, 0) is Some {
        Some(at)
    } else {
        answering_group(groups, path, method, at + 1)
    }
}

/// The first group from a position on whose template matches a path.
pub open spec fn taking_group(groups: Seq<GroupModel>, path: Seq<char>, at: int) -> Option<int>
    decreases groups.len() - at,
{
    if at < 0 || at >= groups.len() {
        None
    } else if takes(groups[at], path) {
        Some(at)
    } else {
        taking_group(groups, path, at + 1)
    }
}

/// The group by which a request is counted: the one that answers it, else the
/// first one whose template matches.
pub open spec fn counting_group(
    groups: Seq<GroupModel>,
    path: Seq<char>,
    method: Seq<char>,
) -> Option<int> {
    match answering_group(groups, path, method, 0) {
        Some(group) => Some(group),
        None => taking_group(groups, path, 0),
    }
}

/// Finds the group by which a request is counted.
pub fn route_metrics(groups: &[RouteGroup<'_>], path: &str, method: &str) -> (found: Option<usize>)
    ensures
        match found {
            Some(group) => counting_group(group_models(groups@), path@, method@) == Some(
                group as int,
            ) && group < groups@.len(),
            None => counting_group(group_models(groups@), path@, method@) is None,
        },
{
    let ghost models = group_models(groups@);
    let mut fallback: Option<usize> = None;
    let mut i: usize = 0;
    while i < groups.len()
        invariant
            0 <= i <= groups@.len(),
            models == group_models(groups@),
            answering_group(models, path@, method@, 0) == answering_group(
                models,
                path@,
                method@,
                i as int,
            ),
            match fallback {
                Some(group) => taking_group(models, path@, 0) == Some(group as int) && group
                    < groups@.len(),
                None => taking_group(models, path@, 0) == taking_group(models, path@, i as int),
            },
        decreases groups@.len() - i,
    {
        let group = &groups[i];
        assert(models[i as int] == group@);
        if match_route(path, group.path.as_str()).is_some() {
            if find_endpoint(group, method).is_some() {
                return Some(i);
            }
            if fallback.is_none() {
                fallback = Some(i);
            }
        }
        i += 1;
    }
    fallback
}

/// The priority at which a request is answered, among handlers that could.
pub fn answer_priority(groups: &[RouteGroup<'_>], path: &str, method: &str) -> (priority: Option<
    usize,
>)
    requires
        forall|i: int|
            0 <= i < groups@.len() ==> 16_777_216 + split(
                (#[trigger] groups@[i])@.path,
                '/',
            ).len() * 1025 <= usize::MAX,
    ensures
        match (answering_group(group_models(groups@), path@, method@, 0), priority) {
            (Some(group), Some(priority)) => priority == template_priority(
                group_models(groups@)[group].path,
            ),
            (None, None) => true,
            _ => false,
        },
{
    let ghost models = group_models(groups@);
    let mut i: usize = 0;
    while i < groups.len()
        invariant
            0 <= i <= groups@.len(),
            models == group_models(groups@),
            forall|j: int|
                0 <= j < groups@.len() ==> 16_777_216 + split(
                    (#[trigger] groups@[j])@.path,
                    '/',
                ).len() * 1025 <= usize::MAX,
            answering_group(models, path@, method@, 0) == answering_group(
                models,
                path@,
                method@,
                i as int,
            ),
        decreases groups@.len() - i,
    {
        let group = &groups[i];
        assert(models[i as int] == group@);
        assert(groups@[i as int]@ == group@);
        if match_route(path, group.path.as_str()).is_some() {
            if find_endpoint(group, method).is_some() {
                return Some(route_priority(group.path.as_str()));
            }
        }
        i += 1;
    }
    None
}

proof fn lemma_selection(
    groups: Seq<GroupModel>,
    path: Seq<char>,
    method: Seq<char>,
    at: int,
    allowed: u16,
)
    requires
        0 <= at <= groups.len(),
        groups.len() <= usize::MAX,
    ensures
        match selected(groups, path, method, at, allowed) {
            Selected::Endpoint { group, .. } => answering_group(groups, path, method, at) == Some(
                group as int,
            ),
            Selected::Unmatched { methods } => answering_group(groups, path, method, at) is None
                && methods == allowed_methods(groups, path, at, allowed),
        },
    decreases groups.len() - at,
{
    if at < groups.len() {
        if !takes(groups[at], path) {
            lemma_selection(groups, path, method, at + 1, allowed);
        } else if answering(groups[at].endpoints, method, 0) is None {
            lemma_selection(groups, path, method, at + 1, allowed | group_bits(groups[at]));
        }
    }
}

/// A request that no endpoint answers is told the methods of all templates
/// that match its path; one that is answered is answered by the group that its
/// priority and its counters are taken from.
pub proof fn law_selection_agrees(groups: Seq<GroupModel>, path: Seq<char>, method: Seq<char>)
    requires
        groups.len() <= usize::MAX,
    ensures
        match selected(groups, path, method, 0, 0) {
            Selected::Endpoint { group, .. } => answering_group(groups, path, method, 0) == Some(
                group as int,
            ) && counting_group(groups, path, method) == Some(group as int),
            Selected::Unmatched { methods } => answering_group(groups, path, method, 0) is None
                && methods == allowed_methods(groups, path, 0, 0),
        },
{
    lemma_selection(groups, path, method, 0, 0);
}

proof fn lemma_answering_first(
    groups: Seq<GroupModel>,
    path: Seq<char>,
    method: Seq<char>,
    start: int,
    other: int,
)
    requires
        0 <= start <= other < groups.len(),
        takes(groups[other], path),
        answering(groups[other].endpoints, method, 0) is Some,
    ensures
        answering_group(groups, path, method, start) matches Some(first) && start <= first <= other
            && takes(groups[first], path),
    decreases other - start,
{
    if !(takes(groups[start], path) && answering(groups[start].endpoints, method, 0) is Some) {
        lemma_answering_first(groups, path, method, start + 1, other);
    }
}

/// Of the templates without a catch-all that match a path and answer a method,
/// the one that answers has the highest priority; one with a catch-all answers
/// only where no other does.
pub proof fn law_the_most_specific_answers(
    groups: Seq<GroupModel>,
    endpoints: Seq<EndpointModel>,
    path: Seq<char>,
    method: Seq<char>,
    other: int,
)
    requires
        is_grouping(groups, endpoints),
        0 <= other < groups.len(),
        takes(groups[other], path),
        answering(groups[other].endpoints, method, 0) is Some,
        !has_catch_all(split(groups[other].path, '/')),
    ensures
        answering_group(groups, path, method, 0) matches Some(first) && !has_catch_all(
            split(groups[first].path, '/'),
        ) && template_priority(groups[other].path) <= template_priority(groups[first].path),
{
    lemma_answering_first(groups, path, method, 0, other);
    let first = answering_group(groups, path, method, 0)->Some_0;
    if first < other {
        assert(path_before(groups[first].path, groups[other].path));
        law_more_literals_come_first(path, groups[other].path, groups[first].path);
    }
}

} // verus!

//! Endpoints that share a template, and the order in which templates are tried.
use vstd::prelude::*;
use vstd::string::StringSliceAdditionalSpecFns;
use vstd::utf8::*;

use crate::macros::endpoint::Endpoint;
#[allow(unused_imports)]
use crate::macros::endpoint::EndpointModel;
use crate::macros::paths::{catches_all, literal_segments};
#[allow(unused_imports)]
use crate::macros::paths::{has_catch_all, literal_count};
use crate::macros::SyntaxError;
#[allow(unused_imports)]
use crate::registry::{at_most, lemma_at_most_antisymmetric, lemma_at_most_total, lemma_at_most_transitive};
use crate::registry::name_at_most;
#[allow(unused_imports)]
use crate::text::{lemma_text_of_bytes, split};
use crate::text::same_text;

verus! {

pub open spec fn endpoint_models(endpoints: Seq<Endpoint<'_>>) -> Seq<EndpointModel> {
    endpoints.map_values(|endpoint: Endpoint<'_>| endpoint@)
}

/// The endpoints of one template.
#[derive(Debug)]
pub struct RouteGroup<'a> {
    pub path: String,
    /// How many segments of the template stand for themselves.
    pub specificity: usize,
    pub endpoints: Vec<Endpoint<'a>>,
}

/// What a [`RouteGroup`] says.
#[verifier::ext_equal]
pub struct GroupModel {
    pub path: Seq<char>,
    pub specificity: nat,
    pub endpoints: Seq<EndpointModel>,
}

impl<'a> View for RouteGroup<'a> {
    type V = GroupModel;

    open spec fn view(&self) -> GroupModel {
        GroupModel {
            path: self.path@,
            specificity: self.specificity as nat,
            endpoints: endpoint_models(self.endpoints@),
        }
    }
}

pub open spec fn group_models(groups: Seq<RouteGroup<'_>>) -> Seq<GroupModel> {
    groups.map_values(|group: RouteGroup<'_>| group@)
}

/// Whether a text comes before another one, byte by byte.
pub open spec fn text_before(left: Seq<char>, right: Seq<char>) -> bool {
    left != right && at_most(encode_utf8(left), encode_utf8(right))
}

/// Whether a template is tried before another one: those without a catch-all
/// come first, then those with more literal segments, then those whose text
/// comes first.
pub open spec fn path_before(left: Seq<char>, right: Seq<char>) -> bool {
    let left_segments = split(left, '/');
    let right_segments = split(right, '/');
    if has_catch_all(left_segments) != has_catch_all(right_segments) {
        has_catch_all(right_segments)
    } else if literal_count(left_segments) != literal_count(right_segments) {
        literal_count(left_segments) > literal_count(right_segments)
    } else {
        text_before(left, right)
    }
}

/// The template of the first of the endpoints before a position that has this shape.
pub open spec fn path_of_shape(endpoints: Seq<EndpointModel>, shape: Seq<char>, at: int) -> Option<
    Seq<char>,
>
    decreases at,
{
    if at <= 0 {
        None
    } else {
        match path_of_shape(endpoints, shape, at - 1) {
            Some(path) => Some(path),
            None => if endpoints[at - 1].shape == shape {
                Some(endpoints[at - 1].path)
            } else {
                None
            },
        }
    }
}

/// The first clash of templates that differ in nothing but the names of their
/// captures.
pub open spec fn ambiguity(endpoints: Seq<EndpointModel>, at: int) -> Option<Seq<char>>
    decreases endpoints.len() - at,
{
    if at < 0 || at >= endpoints.len() {
        None
    } else {
        match path_of_shape(endpoints, endpoints[at].shape, at) {
            Some(existing) if existing != endpoints[at].path => Some(
                "ambiguous route templates "@ + existing + " and "@ + endpoints[at].path
                    + "; rename captures consistently"@,
            ),
            _ => ambiguity(endpoints, at + 1),
        }
    }
}

/// Whether two of the endpoints answer this method of this template.
pub open spec fn is_duplicate(
    endpoints: Seq<EndpointModel>,
    path: Seq<char>,
    method: Seq<char>,
) -> bool {
    exists|i: int, j: int|
        0 <= i < j < endpoints.len() && (#[trigger] endpoints[i]).path == path
            && endpoints[i].method == method && (#[trigger] endpoints[j]).path == path
            && endpoints[j].method == method
}

/// Whether a template and method come before another such pair, or with it.
pub open spec fn pair_at_most(
    path: Seq<char>,
    method: Seq<char>,
    other_path: Seq<char>,
    other_method: Seq<char>,
) -> bool {
    text_before(path, other_path) || (path == other_path && at_most(
        encode_utf8(method),
        encode_utf8(other_method),
    ))
}

/// Whether this template and method are the first ones that are answered twice.
pub open spec fn is_first_duplicate(
    endpoints: Seq<EndpointModel>,
    path: Seq<char>,
    method: Seq<char>,
) -> bool {
    &&& is_duplicate(endpoints, path, method)
    &&& forall|other_path: Seq<char>, other_method: Seq<char>|
        #[trigger] is_duplicate(endpoints, other_path, other_method) ==> pair_at_most(
            path,
            method,
            other_path,
            other_method,
        )
}

/// Whether a group holds endpoints of its template, ordered by method.
pub open spec fn is_group(group: GroupModel) -> bool {
    &&& group.endpoints.len() > 0
    &&& group.specificity == literal_count(split(group.path, '/'))
    &&& forall|k: int|
        0 <= k < group.endpoints.len() ==> (#[trigger] group.endpoints[k]).path == group.path
    &&& forall|k: int, l: int|
        0 <= k < l < group.endpoints.len() ==> text_before(
            (#[trigger] group.endpoints[k]).method,
            (#[trigger] group.endpoints[l]).method,
        )
}

/// Whether an endpoint stands in one of the groups.
pub open spec fn grouped(groups: Seq<GroupModel>, endpoint: EndpointModel) -> bool {
    exists|i: int, k: int|
        0 <= i < groups.len() && 0 <= k < groups[i].endpoints.len()
            && #[trigger] groups[i].endpoints[k] == endpoint
}

/// Whether groups hold each of the endpoints and nothing else, one group for
/// each template, in the order in which templates are tried.
pub open spec fn is_grouping(groups: Seq<GroupModel>, endpoints: Seq<EndpointModel>) -> bool {
    &&& forall|i: int| 0 <= i < groups.len() ==> is_group(#[trigger] groups[i])
    &&& forall|i: int, j: int|
        0 <= i < j < groups.len() ==> path_before(
            (#[trigger] groups[i]).path,
            (#[trigger] groups[j]).path,
        )
    &&& forall|n: int| 0 <= n < endpoints.len() ==> grouped(groups, #[trigger] endpoints[n])
    &&& forall|i: int, k: int|
        0 <= i < groups.len() && 0 <= k < groups[i].endpoints.len() ==> endpoints.contains(
            #[trigger] groups[i].endpoints[k],
        )
}

proof fn lemma_path_before_transitive(a: Seq<char>, b: Seq<char>, c: Seq<char>)
    requires
        path_before(a, b),
        path_before(b, c),
    ensures
        path_before(a, c),
{
    if has_catch_all(split(a, '/')) == has_catch_all(split(c, '/')) && literal_count(split(a, '/'))
        == literal_count(split(c, '/')) {
        lemma_text_before_transitive(a, b, c);
    }
}

proof fn lemma_text_before_transitive(a: Seq<char>, b: Seq<char>, c: Seq<char>)
    requires
        text_before(a, b),
        text_before(b, c),
    ensures
        text_before(a, c),
{
    lemma_at_most_transitive(encode_utf8(a), encode_utf8(b), encode_utf8(c));
    if a == c {
        lemma_at_most_antisymmetric(encode_utf8(a), encode_utf8(b));
        lemma_text_of_bytes(a, b);
    }
}

fn comes_before(left: &str, right: &str) -> (before: bool)
    ensures
        before == text_before(left@, right@),
        !before ==> left@ == right@ || text_before(right@, left@),
{
    proof {
        lemma_at_most_total(encode_utf8(left@), encode_utf8(right@));
    }
    !same_text(left, right) && name_at_most(left, right)
}

fn tried_before(left: &str, right: &str) -> (before: bool)
    ensures
        before == path_before(left@, right@),
        !before ==> left@ == right@ || path_before(right@, left@),
{
    let (left_open, right_open) = (catches_all(left), catches_all(right));
    if left_open != right_open {
        return right_open;
    }
    let (left_literals, right_literals) = (literal_segments(left), literal_segments(right));
    if left_literals != right_literals {
        return left_literals > right_literals;
    }
    comes_before(left, right)
}

/// Looks for templates that differ in nothing but the names of their captures.
fn check_shapes(endpoints: &Vec<Endpoint<'_>>) -> (outcome: Result<(), SyntaxError>)
    ensures
        match outcome {
            Ok(()) => ambiguity(endpoint_models(endpoints@), 0) is None,
            Err(error) => ambiguity(endpoint_models(endpoints@), 0) == Some(error@),
        },
{
    let ghost models = endpoint_models(endpoints@);
    let mut i: usize = 0;
    while i < endpoints.len()
        invariant
            0 <= i <= endpoints@.len(),
            models == endpoint_models(endpoints@),
            ambiguity(models, 0) == ambiguity(models, i as int),
        decreases endpoints@.len() - i,
    {
        assert(models[i as int] == endpoints@[i as int]@);
        let shape = endpoints[i].shape.as_str();
        let mut existing: Option<&str> = None;
        let mut j: usize = 0;
        while j < i
            invariant
                0 <= j <= i < endpoints@.len(),
                models == endpoint_models(endpoints@),
                match existing {
                    Some(path) => path_of_shape(models, shape@, j as int) == Some(path@),
                    None => path_of_shape(models, shape@, j as int) is None,
                },
            decreases i - j,
        {
            assert(models[j as int] == endpoints@[j as int]@);
            if existing.is_none() && same_text(endpoints[j].shape.as_str(), shape) {
                existing = Some(endpoints[j].path.as_str());
            }
            j += 1;
        }
        if let Some(path) = existing {
            if !same_text(path, endpoints[i].path.as_str()) {
                let message = "ambiguous route templates ".to_owned().concat(path).concat(
                    " and ",
                ).concat(endpoints[i].path.as_str()).concat("; rename captures consistently");
                return Err(SyntaxError::new(message));
            }
        }
        i += 1;
    }
    Ok(())
}

/// Whether two endpoints answer the same method of the same template.
fn same_route(left: &Endpoint<'_>, right: &Endpoint<'_>) -> (same: bool)
    ensures
        same == (left@.path == right@.path && left@.method == right@.method),
{
    same_text(left.path.as_str(), right.path.as_str()) && same_text(left.method, right.method)
}

/// Looks for a template and method that are answered twice.
fn check_duplicates(endpoints: &Vec<Endpoint<'_>>) -> (outcome: Result<(), SyntaxError>)
    ensures
        match outcome {
            Ok(()) => forall|path: Seq<char>, method: Seq<char>|
                !#[trigger] is_duplicate(endpoint_models(endpoints@), path, method),
            Err(error) => exists|path: Seq<char>, method: Seq<char>|
                #[trigger] is_first_duplicate(endpoint_models(endpoints@), path, method) && error@
                    == "duplicate "@ + method + " route "@ + path,
        },
{
    let ghost models = endpoint_models(endpoints@);
    let mut best: Option<usize> = None;
    let mut i: usize = 0;
    while i < endpoints.len()
        invariant
            0 <= i <= endpoints@.len(),
            models == endpoint_models(endpoints@),
            best matches Some(at) ==> at < endpoints@.len() && is_duplicate(
                models,
                models[at as int].path,
                models[at as int].method,
            ),
            forall|a: int, b: int|
                0 <= a < i && a < b < endpoints@.len() && (#[trigger] models[a]).path == (
                #[trigger] models[b]).path && models[a].method == models[b].method ==> (
                best matches Some(at) && pair_at_most(
                    models[at as int].path,
                    models[at as int].method,
                    models[a].path,
                    models[a].method,
                )),
        decreases endpoints@.len() - i,
    {
        let mut twice = false;
        let mut j: usize = i + 1;
        while j < endpoints.len()
            invariant
                0 <= i < j <= endpoints@.len(),
                models == endpoint_models(endpoints@),
                twice ==> is_duplicate(models, models[i as int].path, models[i as int].method),
                !twice ==> forall|b: int|
                    i < b < j ==> !((#[trigger] models[b]).path == models[i as int].path
                        && models[b].method == models[i as int].method),
            decreases endpoints@.len() - j,
        {
            assert(models[i as int] == endpoints@[i as int]@);
            assert(models[j as int] == endpoints@[j as int]@);
            if same_route(&endpoints[i], &endpoints[j]) {
                twice = true;
            }
            j += 1;
        }
        let ghost old_best = best;
        if twice {
            assert(models[i as int] == endpoints@[i as int]@);
            proof {
                lemma_at_most_total(
                    encode_utf8(models[i as int].method),
                    encode_utf8(models[i as int].method),
                );
            }
            match best {
                None => {
                    best = Some(i);
                },
                Some(at) => {
                    assert(models[at as int] == endpoints@[at as int]@);
                    proof {
                        lemma_at_most_total(
                            encode_utf8(models[at as int].method),
                            encode_utf8(models[i as int].method),
                        );
                    }
                    let earlier_path = comes_before(
                        endpoints[i].path.as_str(),
                        endpoints[at].path.as_str(),
                    );
                    let earlier_method = same_text(
                        endpoints[i].path.as_str(),
                        endpoints[at].path.as_str(),
                    ) && !name_at_most(endpoints[at].method, endpoints[i].method);
                    if earlier_path || earlier_method {
                        best = Some(i);
                    }
                },
            }
        }
        proof {
            assert forall|a: int, b: int|
                0 <= a < i + 1 && a < b < endpoints@.len() && (#[trigger] models[a]).path == (
                #[trigger] models[b]).path && models[a].method == models[b].method implies (
            best matches Some(at) && pair_at_most(
                models[at as int].path,
                models[at as int].method,
                models[a].path,
                models[a].method,
            )) by {
                if a < i && best != old_best {
                    let at = old_best->Some_0;
                    lemma_pair_transitive(
                        models[i as int].path,
                        models[i as int].method,
                        models[at as int].path,
                        models[at as int].method,
                        models[a].path,
                        models[a].method,
                    );
                }
            }
        }
        i += 1;
    }
    match best {
        None => {
            assert forall|path: Seq<char>, method: Seq<char>|
                !#[trigger] is_duplicate(models, path, method) by {}
            Ok(())
        },
        Some(at) => {
            assert(models[at as int] == endpoints@[at as int]@);
            let ghost path = models[at as int].path;
            let ghost method = models[at as int].method;
            assert(is_first_duplicate(models, path, method)) by {
                assert forall|other_path: Seq<char>, other_method: Seq<char>|
                    #[trigger] is_duplicate(models, other_path, other_method) implies pair_at_most(
                    path,
                    method,
                    other_path,
                    other_method,
                ) by {
                    let (a, b) = choose|a: int, b: int|
                        0 <= a < b < models.len() && (#[trigger] models[a]).path == other_path
                            && models[a].method == other_method && (#[trigger] models[b]).path
                            == other_path && models[b].method == other_method;
                    assert(models[a].path == models[b].path);
                }
            }
            let message = "duplicate ".to_owned().concat(endpoints[at].method).concat(
                " route ",
            ).concat(endpoints[at].path.as_str());
            Err(SyntaxError::new(message))
        },
    }
}

proof fn lemma_pair_transitive(
    path_a: Seq<char>,
    method_a: Seq<char>,
    path_b: Seq<char>,
    method_b: Seq<char>,
    path_c: Seq<char>,
    method_c: Seq<char>,
)
    requires
        pair_at_most(path_a, method_a, path_b, method_b),
        pair_at_most(path_b, method_b, path_c, method_c),
    ensures
        pair_at_most(path_a, method_a, path_c, method_c),
{
    if text_before(path_a, path_b) && text_before(path_b, path_c) {
        lemma_text_before_transitive(path_a, path_b, path_c);
    } else if path_a == path_b && path_b == path_c {
        lemma_at_most_transitive(
            encode_utf8(method_a),
            encode_utf8(method_b),
            encode_utf8(method_c),
        );
    }
}


/// An endpoint that is put into the group of its template stands in the groups,
/// as all others still do.
proof fn lemma_grown(
    groups: Seq<GroupModel>,
    index: int,
    group: GroupModel,
    place: int,
    endpoints: Seq<EndpointModel>,
    endpoint: EndpointModel,
)
    requires
        is_grouping(groups, endpoints),
        0 <= index < groups.len(),
        is_group(group),
        group.path == groups[index].path,
        0 <= place <= groups[index].endpoints.len(),
        group.endpoints == groups[index].endpoints.insert(place, endpoint),
    ensures
        is_grouping(groups.update(index, group), seq![endpoint] + endpoints),
{
    let after = groups.update(index, group);
    let all = seq![endpoint] + endpoints;
    assert forall|n: int| 0 <= n < all.len() implies grouped(after, #[trigger] all[n]) by {
        if n == 0 {
            assert(after[index].endpoints[place] == endpoint);
        } else {
            assert(grouped(groups, endpoints[n - 1]));
            let (i, k) = choose|i: int, k: int|
                0 <= i < groups.len() && 0 <= k < groups[i].endpoints.len()
                    && #[trigger] groups[i].endpoints[k] == endpoints[n - 1];
            if i != index {
                assert(after[i].endpoints[k] == all[n]);
            } else if k < place {
                assert(after[i].endpoints[k] == all[n]);
            } else {
                assert(after[i].endpoints[k + 1] == all[n]);
            }
        }
    }
    assert forall|i: int, k: int|
        0 <= i < after.len() && 0 <= k < after[i].endpoints.len() implies all.contains(
        #[trigger] after[i].endpoints[k],
    ) by {
        if i == index && k == place {
            assert(all[0] == endpoint);
        } else {
            let before = if i == index && k > place {
                k - 1
            } else {
                k
            };
            assert(after[i].endpoints[k] == groups[i].endpoints[before]);
            assert(endpoints.contains(groups[i].endpoints[before]));
            let n = choose|n: int| 0 <= n < endpoints.len() && endpoints[n] == groups[i].endpoints[before];
            assert(all[n + 1] == endpoints[n]);
        }
    }
}

/// The same for an endpoint with a template of its own.
proof fn lemma_added(
    groups: Seq<GroupModel>,
    index: int,
    group: GroupModel,
    endpoints: Seq<EndpointModel>,
    endpoint: EndpointModel,
)
    requires
        is_grouping(groups, endpoints),
        0 <= index <= groups.len(),
        is_group(group),
        group.endpoints == seq![endpoint],
        forall|i: int| 0 <= i < index ==> path_before((#[trigger] groups[i]).path, group.path),
        forall|i: int|
            index <= i < groups.len() ==> path_before(group.path, (#[trigger] groups[i]).path),
    ensures
        is_grouping(groups.insert(index, group), seq![endpoint] + endpoints),
{
    let after = groups.insert(index, group);
    let all = seq![endpoint] + endpoints;
    assert forall|i: int, j: int| 0 <= i < j < after.len() implies path_before(
        (#[trigger] after[i]).path,
        (#[trigger] after[j]).path,
    ) by {
        let a = if i < index {
            i
        } else {
            i - 1
        };
        let b = if j < index {
            j
        } else {
            j - 1
        };
        if i != index && j != index {
            assert(after[i] == groups[a] && after[j] == groups[b]);
        } else if i == index {
            assert(after[j] == groups[b]);
        } else {
            assert(after[i] == groups[a]);
        }
    }
    assert forall|i: int| 0 <= i < after.len() implies is_group(#[trigger] after[i]) by {
        if i < index {
            assert(after[i] == groups[i]);
        } else if i > index {
            assert(after[i] == groups[i - 1]);
        }
    }
    assert forall|n: int| 0 <= n < all.len() implies grouped(after, #[trigger] all[n]) by {
        if n == 0 {
            assert(after[index].endpoints[0] == endpoint);
        } else {
            assert(grouped(groups, endpoints[n - 1]));
            let (i, k) = choose|i: int, k: int|
                0 <= i < groups.len() && 0 <= k < groups[i].endpoints.len()
                    && #[trigger] groups[i].endpoints[k] == endpoints[n - 1];
            if i < index {
                assert(after[i].endpoints[k] == all[n]);
            } else {
                assert(after[i + 1].endpoints[k] == all[n]);
            }
        }
    }
    assert forall|i: int, k: int|
        0 <= i < after.len() && 0 <= k < after[i].endpoints.len() implies all.contains(
        #[trigger] after[i].endpoints[k],
    ) by {
        if i == index {
            assert(all[0] == endpoint);
        } else {
            let a = if i < index {
                i
            } else {
                i - 1
            };
            assert(after[i] == groups[a]);
            assert(endpoints.contains(groups[a].endpoints[k]));
            let n = choose|n: int| 0 <= n < endpoints.len() && endpoints[n] == groups[a].endpoints[k];
            assert(all[n + 1] == endpoints[n]);
        }
    }
}

/// Puts an endpoint into the group of its template.
fn add_endpoint<'a>(group: &mut RouteGroup<'a>, endpoint: Endpoint<'a>) -> (place: usize)
    requires
        is_group(old(group)@),
        endpoint@.path == old(group)@.path,
        forall|k: int|
            0 <= k < old(group)@.endpoints.len() ==> (#[trigger] old(group)@.endpoints[k]).method
                != endpoint@.method,
    ensures
        is_group(final(group)@),
        final(group)@.path == old(group)@.path,
        place <= old(group)@.endpoints.len(),
        final(group)@.endpoints == old(group)@.endpoints.insert(place as int, endpoint@),
{
    let ghost models = endpoint_models(group.endpoints@);
    let ghost model = endpoint@;
    let mut at: usize = 0;
    while at < group.endpoints.len() && comes_before(group.endpoints[at].method, endpoint.method)
        invariant
            0 <= at <= group.endpoints@.len(),
            models == endpoint_models(group.endpoints@),
            *group == *old(group),
            model == endpoint@,
            forall|k: int| 0 <= k < at ==> text_before((#[trigger] models[k]).method, model.method),
        decreases group.endpoints@.len() - at,
    {
        assert(models[at as int] == group.endpoints@[at as int]@);
        at += 1;
    }
    proof {
        if at < models.len() {
            assert(models[at as int] == group.endpoints@[at as int]@);
            assert(old(group)@.endpoints[at as int].method != model.method);
        }
    }
    group.endpoints.insert(at, endpoint);
    proof {
        let after = endpoint_models(group.endpoints@);
        assert(after =~= models.insert(at as int, model));
        assert forall|k: int, l: int| 0 <= k < l < after.len() implies text_before(
            (#[trigger] after[k]).method,
            (#[trigger] after[l]).method,
        ) by {
            let a = if k < at {
                k
            } else {
                k - 1
            };
            let b = if l < at {
                l
            } else {
                l - 1
            };
            if k != at && l != at {
                assert(after[k] == models[a] && after[l] == models[b]);
            } else if k == at {
                assert(after[l] == models[b]);
                if b > at {
                    lemma_text_before_transitive(
                        model.method,
                        models[at as int].method,
                        models[b].method,
                    );
                }
            } else {
                assert(after[k] == models[a]);
            }
        }
        assert forall|k: int| 0 <= k < after.len() implies (#[trigger] after[k]).path
            == group@.path by {
            if k < at {
                assert(after[k] == models[k]);
            } else if k > at {
                assert(after[k] == models[k - 1]);
            }
        }
    }
    at
}

/// A group of one endpoint.
fn new_group<'a>(endpoint: Endpoint<'a>) -> (group: RouteGroup<'a>)
    ensures
        is_group(group@),
        group@.path == endpoint@.path,
        group@.endpoints == seq![endpoint@],
{
    let path = endpoint.path.clone();
    let specificity: usize = literal_segments(path.as_str());
    let ghost model = endpoint@;
    let mut endpoints: Vec<Endpoint<'a>> = Vec::new();
    endpoints.push(endpoint);
    assert(endpoint_models(endpoints@) =~= seq![model]);
    RouteGroup { path, specificity, endpoints }
}

/// Puts an endpoint into the groups, which have none of its template and method.
fn place_endpoint<'a>(
    groups: &mut Vec<RouteGroup<'a>>,
    endpoint: Endpoint<'a>,
    Ghost(endpoints): Ghost<Seq<EndpointModel>>,
)
    requires
        is_grouping(group_models(old(groups)@), endpoints),
        forall|n: int|
            0 <= n < endpoints.len() ==> !((#[trigger] endpoints[n]).path == endpoint@.path
                && endpoints[n].method == endpoint@.method),
    ensures
        is_grouping(group_models(final(groups)@), seq![endpoint@] + endpoints),
{
    let ghost models = group_models(groups@);
    let ghost model = endpoint@;
    let mut at: usize = 0;
    while at < groups.len() && tried_before(groups[at].path.as_str(), endpoint.path.as_str())
        invariant
            0 <= at <= groups@.len(),
            models == group_models(groups@),
            *groups == *old(groups),
            model == endpoint@,
            forall|i: int| 0 <= i < at ==> path_before((#[trigger] models[i]).path, model.path),
        decreases groups@.len() - at,
    {
        assert(models[at as int] == groups@[at as int]@);
        at += 1;
    }
    if at < groups.len() {
        assert(models[at as int] == groups@[at as int]@);
        if same_text(groups[at].path.as_str(), endpoint.path.as_str()) {
            let mut group = groups.remove(at);
            proof {
                assert(is_group(models[at as int]));
                assert forall|k: int| 0 <= k < group@.endpoints.len() implies (
                #[trigger] group@.endpoints[k]).method != model.method by {
                    assert(endpoints.contains(models[at as int].endpoints[k]));
                    let n = choose|n: int|
                        0 <= n < endpoints.len() && endpoints[n] == models[at as int].endpoints[k];
                    assert(endpoints[n].path == model.path);
                }
            }
            let place: usize = add_endpoint(&mut group, endpoint);
            let ghost grown = group@;
            groups.insert(at, group);
            proof {
                assert(group_models(groups@) =~= models.update(at as int, grown));
                lemma_grown(models, at as int, grown, place as int, endpoints, model);
            }
            return;
        }
    }
    let group = new_group(endpoint);
    let ghost added = group@;
    groups.insert(at, group);
    proof {
        assert(group_models(groups@) =~= models.insert(at as int, added));
        assert forall|i: int| at <= i < models.len() implies path_before(
            added.path,
            (#[trigger] models[i]).path,
        ) by {
            if i > at {
                lemma_path_before_transitive(
                    added.path,
                    models[at as int].path,
                    models[i].path,
                );
            }
        }
        lemma_added(models, at as int, added, endpoints, model);
    }
}

/// Puts endpoints of the same template together, in the order in which
/// templates are tried. Templates that differ only in the names of their
/// captures, and methods that are answered twice, are refused.
pub fn group_endpoints<'a>(endpoints: Vec<Endpoint<'a>>) -> (outcome: Result<
    Vec<RouteGroup<'a>>,
    SyntaxError,
>)
    ensures
        match outcome {
            Ok(groups) => {
                &&& ambiguity(endpoint_models(endpoints@), 0) is None
                &&& forall|path: Seq<char>, method: Seq<char>|
                    !#[trigger] is_duplicate(endpoint_models(endpoints@), path, method)
                &&& is_grouping(group_models(groups@), endpoint_models(endpoints@))
            },
            Err(error) => match ambiguity(endpoint_models(endpoints@), 0) {
                Some(message) => error@ == message,
                None => exists|path: Seq<char>, method: Seq<char>|
                    #[trigger] is_first_duplicate(endpoint_models(endpoints@), path, method)
                        && error@ == "duplicate "@ + method + " route "@ + path,
            },
        },
{
    if let Err(error) = check_shapes(&endpoints) {
        return Err(error);
    }
    if let Err(error) = check_duplicates(&endpoints) {
        return Err(error);
    }
    let ghost all = endpoint_models(endpoints@);
    let mut rest = endpoints;
    let mut groups: Vec<RouteGroup<'a>> = Vec::new();
    proof {
        assert(group_models(groups@) =~= Seq::empty());
        assert(all.skip(rest@.len() as int) =~= Seq::empty());
    }
    while rest.len() > 0
        invariant
            rest@.len() <= all.len(),
            endpoint_models(rest@) == all.take(rest@.len() as int),
            is_grouping(group_models(groups@), all.skip(rest@.len() as int)),
            forall|path: Seq<char>, method: Seq<char>|
                !#[trigger] is_duplicate(all, path, method),
        decreases rest@.len(),
    {
        let endpoint = rest.pop().unwrap();
        let ghost n = rest@.len() as int;
        proof {
            assert(endpoint@ == all[n]) by {
                assert(all.take(n + 1)[n] == all[n]);
            }
            assert(endpoint_models(rest@) =~= all.take(n));
            assert(all.skip(n) =~= seq![all[n]] + all.skip(n + 1));
            assert forall|m: int| 0 <= m < all.skip(n + 1).len() implies !((
            #[trigger] all.skip(n + 1)[m]).path == all[n].path && all.skip(n + 1)[m].method
                == all[n].method) by {
                if all.skip(n + 1)[m].path == all[n].path && all.skip(n + 1)[m].method
                    == all[n].method {
                    assert(all[n + 1 + m] == all.skip(n + 1)[m]);
                    assert(is_duplicate(all, all[n].path, all[n].method));
                }
            }
        }
        place_endpoint(&mut groups, endpoint, Ghost(all.skip(n + 1)));
    }
    assert(all.skip(0) =~= all);
    Ok(groups)
}


/// Sequences that are strictly ordered and hold the same are the same.
proof fn lemma_ordered_unique<T>(left: Seq<T>, right: Seq<T>, before: spec_fn(T, T) -> bool)
    requires
        forall|i: int, j: int| 0 <= i < j < left.len() ==> before(#[trigger] left[i], #[trigger] left[j]),
        forall|i: int, j: int|
            0 <= i < j < right.len() ==> before(#[trigger] right[i], #[trigger] right[j]),
        forall|x: T, y: T| #[trigger] before(x, y) ==> !before(y, x),
        forall|i: int| 0 <= i < left.len() ==> right.contains(#[trigger] left[i]),
        forall|i: int| 0 <= i < right.len() ==> left.contains(#[trigger] right[i]),
    ensures
        left == right,
    decreases left.len(),
{
    if left.len() == 0 {
        if right.len() > 0 {
            assert(left.contains(right[0]));
        }
        assert(left =~= right);
    } else {
        assert(right.contains(left[0]));
        let j = choose|j: int| 0 <= j < right.len() && right[j] == left[0];
        assert(left.contains(right[0]));
        let i = choose|i: int| 0 <= i < left.len() && left[i] == right[0];
        if j > 0 {
            assert(before(right[0], right[j]));
            if i > 0 {
                assert(before(left[0], left[i]));
            }
        }
        assert(left[0] == right[0]);
        let (l, r) = (left.skip(1), right.skip(1));
        assert forall|n: int| 0 <= n < l.len() implies r.contains(#[trigger] l[n]) by {
            assert(l[n] == left[n + 1]);
            assert(right.contains(left[n + 1]));
            let m = choose|m: int| 0 <= m < right.len() && right[m] == left[n + 1];
            if m == 0 {
                assert(before(left[0], left[n + 1]));
            }
            assert(r[m - 1] == l[n]);
        }
        assert forall|n: int| 0 <= n < r.len() implies l.contains(#[trigger] r[n]) by {
            assert(r[n] == right[n + 1]);
            assert(left.contains(right[n + 1]));
            let m = choose|m: int| 0 <= m < left.len() && left[m] == right[n + 1];
            if m == 0 {
                assert(before(right[0], right[n + 1]));
            }
            assert(l[m - 1] == r[n]);
        }
        assert forall|a: int, b: int| 0 <= a < b < l.len() implies before(
            #[trigger] l[a],
            #[trigger] l[b],
        ) by {
            assert(before(left[a + 1], left[b + 1]));
        }
        assert forall|a: int, b: int| 0 <= a < b < r.len() implies before(
            #[trigger] r[a],
            #[trigger] r[b],
        ) by {
            assert(before(right[a + 1], right[b + 1]));
        }
        lemma_ordered_unique(l, r, before);
        assert(left =~= seq![left[0]] + l);
        assert(right =~= seq![right[0]] + r);
    }
}

proof fn lemma_text_before_asymmetric(left: Seq<char>, right: Seq<char>)
    ensures
        text_before(left, right) ==> !text_before(right, left),
{
    if text_before(left, right) && text_before(right, left) {
        lemma_at_most_antisymmetric(encode_utf8(left), encode_utf8(right));
        lemma_text_of_bytes(left, right);
    }
}

/// The group of a template in one grouping stands in every other one.
proof fn lemma_group_shared(
    left: Seq<GroupModel>,
    right: Seq<GroupModel>,
    endpoints: Seq<EndpointModel>,
    index: int,
)
    requires
        is_grouping(left, endpoints),
        is_grouping(right, endpoints),
        0 <= index < left.len(),
    ensures
        right.contains(left[index]),
{
    let group = left[index];
    assert(is_group(group));
    let first = group.endpoints[0];
    assert(endpoints.contains(first));
    let n = choose|n: int| 0 <= n < endpoints.len() && endpoints[n] == first;
    assert(grouped(right, endpoints[n]));
    let (other, _k) = choose|i: int, k: int|
        0 <= i < right.len() && 0 <= k < right[i].endpoints.len()
            && #[trigger] right[i].endpoints[k] == first;
    assert(is_group(right[other]));
    assert(right[other].path == group.path);
    assert forall|k: int| 0 <= k < group.endpoints.len() implies right[other].endpoints.contains(
        #[trigger] group.endpoints[k],
    ) by {
        lemma_same_group(left, right, endpoints, index, other, k);
    }
    assert forall|k: int| 0 <= k < right[other].endpoints.len() implies group.endpoints.contains(
        #[trigger] right[other].endpoints[k],
    ) by {
        lemma_same_group(right, left, endpoints, other, index, k);
    }
    let before = |x: EndpointModel, y: EndpointModel| text_before(x.method, y.method);
    assert forall|x: EndpointModel, y: EndpointModel| #[trigger] before(x, y) implies !before(
        y,
        x,
    ) by {
        lemma_text_before_asymmetric(x.method, y.method);
    }
    lemma_ordered_unique(group.endpoints, right[other].endpoints, before);
    assert(right[other] =~= group);
}

/// An endpoint of a template stands in the one group of that template.
proof fn lemma_same_group(
    left: Seq<GroupModel>,
    right: Seq<GroupModel>,
    endpoints: Seq<EndpointModel>,
    index: int,
    other: int,
    place: int,
)
    requires
        is_grouping(left, endpoints),
        is_grouping(right, endpoints),
        0 <= index < left.len(),
        0 <= other < right.len(),
        left[index].path == right[other].path,
        0 <= place < left[index].endpoints.len(),
    ensures
        right[other].endpoints.contains(left[index].endpoints[place]),
{
    let endpoint = left[index].endpoints[place];
    assert(is_group(left[index]));
    assert(endpoints.contains(endpoint));
    let n = choose|n: int| 0 <= n < endpoints.len() && endpoints[n] == endpoint;
    assert(grouped(right, endpoints[n]));
    let (i, k) = choose|i: int, k: int|
        0 <= i < right.len() && 0 <= k < right[i].endpoints.len()
            && #[trigger] right[i].endpoints[k] == endpoint;
    assert(is_group(right[i]));
    assert(right[i].path == right[other].path);
    if i < other {
        assert(path_before(right[i].path, right[other].path));
    } else if other < i {
        assert(path_before(right[other].path, right[i].path));
    }
    assert(i == other);
    assert(right[other].endpoints[k] == endpoint);
}

/// Endpoints can be grouped in one way only.
pub proof fn law_grouping_is_unique(
    left: Seq<GroupModel>,
    right: Seq<GroupModel>,
    endpoints: Seq<EndpointModel>,
)
    requires
        is_grouping(left, endpoints),
        is_grouping(right, endpoints),
    ensures
        left == right,
{
    let before = |x: GroupModel, y: GroupModel| path_before(x.path, y.path);
    assert forall|x: GroupModel, y: GroupModel| #[trigger] before(x, y) implies !before(y, x) by {
        lemma_text_before_asymmetric(x.path, y.path);
    }
    assert forall|i: int| 0 <= i < left.len() implies right.contains(#[trigger] left[i]) by {
        lemma_group_shared(left, right, endpoints, i);
    }
    assert forall|i: int| 0 <= i < right.len() implies left.contains(#[trigger] right[i]) by {
        lemma_group_shared(right, left, endpoints, i);
    }
    lemma_ordered_unique(left, right, before);
}

} // verus!

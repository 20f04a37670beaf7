//! Laws of plans: what is selected, generated and done for a request.
use vstd::prelude::*;

#[allow(unused_imports)]
use crate::macros::api::{
    api_endpoints, attribute_pairs, endpoint_principals, group_principals, method_endpoint,
    method_of, one_principal, parameter_principals, route_annotation,
};
use crate::macros::api::MethodModel;
#[allow(unused_imports)]
use crate::macros::arguments::route_arguments;
use crate::macros::arguments::{ApiModel, AuthMode, Codec, PathModel, RouteModel, TokenModel};
use crate::macros::derive::Layout;
#[allow(unused_imports)]
use crate::macros::derive::layout_fault;
use crate::macros::dispatch::Selected;
#[allow(unused_imports)]
use crate::macros::dispatch::{
    allowed_methods, answering, answering_group, counting_group, group_bits, methods_in, selected,
    takes, taking_group,
};
#[allow(unused_imports)]
use crate::macros::endpoint::{authenticated_from, endpoint_of};
use crate::macros::endpoint::{EndpointModel, InputSyntax, ParameterModel, PatternSyntax};
#[allow(unused_imports)]
use crate::macros::function::{
    argument_names, declaration_fault, enrolled_in, function_endpoint, gate_of, gates_from,
    is_fresh, is_function_plan, underscored,
};
use crate::macros::function::{FreeFunction, FunctionPlan, MetaSyntax};
use crate::macros::groups::GroupModel;
#[allow(unused_imports)]
use crate::macros::plan::{arm_of, auth_plan, binding_plan, binding_plans, failure_of};
use crate::macros::plan::{AuthPlanModel, BindingPlanModel};
#[allow(unused_imports)]
use crate::macros::registry::{group_module_path, unraw};
#[allow(unused_imports)]
use crate::macros::syntax::{
    bound_lifetime, kind_of_result, named, principal_of, type_text,
};
use crate::macros::syntax::{ResultKind, TypeModel};
#[allow(unused_imports)]
use crate::methods::bit_of;
#[allow(unused_imports)]
use crate::route::route_captures;
#[allow(unused_imports)]
use crate::text::{glued, string_texts};

verus! {

proof fn lemma_either(a: u16, b: u16, bit: u16)
    ensures
        (a | b) & bit != 0 <==> a & bit != 0 || b & bit != 0,
        0u16 & bit == 0,
{
    assert(((a | b) & bit != 0) == (a & bit != 0 || b & bit != 0)) by (bit_vector);
    assert(0u16 & bit == 0) by (bit_vector);
}

/// A group answers the methods of its endpoints, and no other.
pub proof fn law_groups_answer_their_methods(endpoints: Seq<EndpointModel>, count: int, bit: u16)
    requires
        0 <= count <= endpoints.len(),
    ensures
        methods_in(endpoints, count) & bit != 0 <==> exists|i: int|
            0 <= i < count && bit_of((#[trigger] endpoints[i]).method) & bit != 0,
    decreases count,
{
    if count > 0 {
        law_groups_answer_their_methods(endpoints, count - 1, bit);
        lemma_either(
            methods_in(endpoints, count - 1),
            bit_of(endpoints[count - 1].method),
            bit,
        );
        if methods_in(endpoints, count - 1) & bit == 0 && bit_of(endpoints[count - 1].method) & bit
            != 0 {
            assert(bit_of(endpoints[count - 1].method) & bit != 0);
        }
    } else {
        lemma_either(0, 0, bit);
    }
}

/// Whether an endpoint of a group answers this method.
pub open spec fn answers(group: GroupModel, method: Seq<char>) -> bool {
    exists|k: int| 0 <= k < group.endpoints.len() && (#[trigger] group.endpoints[k]).method == method
}

proof fn lemma_answering(endpoints: Seq<EndpointModel>, method: Seq<char>, at: int)
    requires
        0 <= at <= endpoints.len(),
    ensures
        match answering(endpoints, method, at) {
            Some(k) => at <= k < endpoints.len() && endpoints[k].method == method && forall|l: int|
                at <= l < k ==> (#[trigger] endpoints[l]).method != method,
            None => forall|l: int|
                at <= l < endpoints.len() ==> (#[trigger] endpoints[l]).method != method,
        },
    decreases endpoints.len() - at,
{
    if at < endpoints.len() && endpoints[at].method != method {
        lemma_answering(endpoints, method, at + 1);
    }
}

proof fn lemma_selected(
    groups: Seq<GroupModel>,
    path: Seq<char>,
    method: Seq<char>,
    at: int,
    allowed: u16,
    bit: u16,
)
    requires
        0 <= at <= groups.len() <= usize::MAX,
        forall|i: int|
            0 <= i < groups.len() ==> (#[trigger] groups[i]).endpoints.len() <= usize::MAX,
    ensures
        match selected(groups, path, method, at, allowed) {
            Selected::Endpoint { group, endpoint } => {
                &&& at <= group < groups.len()
                &&& endpoint < groups[group as int].endpoints.len()
                &&& groups[group as int].endpoints[endpoint as int].method == method
                &&& route_captures(path, groups[group as int].path) is Some
                &&& forall|i: int|
                    at <= i < group && route_captures(path, (#[trigger] groups[i]).path) is Some
                        ==> !answers(groups[i], method)
            },
            Selected::Unmatched { methods } => {
                &&& forall|i: int|
                    at <= i < groups.len() && route_captures(path, (#[trigger] groups[i]).path)
                        is Some ==> !answers(groups[i], method)
                &&& methods & bit != 0 <==> (allowed & bit != 0 || exists|i: int|
                    at <= i < groups.len() && route_captures(path, (#[trigger] groups[i]).path)
                        is Some && group_bits(groups[i]) & bit != 0)
            },
        },
    decreases groups.len() - at,
{
    if at < groups.len() {
        let group = groups[at];
        lemma_answering(group.endpoints, method, 0);
        if !takes(group, path) {
            lemma_selected(groups, path, method, at + 1, allowed, bit);
        } else if answering(group.endpoints, method, 0) is None {
            let more = allowed | group_bits(group);
            lemma_selected(groups, path, method, at + 1, more, bit);
            lemma_either(allowed, group_bits(group), bit);
            assert(!answers(group, method));
            if group_bits(group) & bit != 0 {
                assert(group_bits(groups[at]) & bit != 0);
            }
        }
    }
}

/// A request is answered by the first template that takes its path and answers
/// its method. Where none does, the methods of all templates that take the path
/// are told.
pub proof fn law_the_first_answering_template_is_selected(
    groups: Seq<GroupModel>,
    path: Seq<char>,
    method: Seq<char>,
    bit: u16,
)
    requires
        groups.len() <= usize::MAX,
        forall|i: int|
            0 <= i < groups.len() ==> (#[trigger] groups[i]).endpoints.len() <= usize::MAX,
    ensures
        match selected(groups, path, method, 0, 0) {
            Selected::Endpoint { group, endpoint } => {
                &&& group < groups.len()
                &&& endpoint < groups[group as int].endpoints.len()
                &&& groups[group as int].endpoints[endpoint as int].method == method
                &&& route_captures(path, groups[group as int].path) is Some
                &&& forall|i: int|
                    0 <= i < group && route_captures(path, (#[trigger] groups[i]).path) is Some
                        ==> !answers(groups[i], method)
            },
            Selected::Unmatched { methods } => {
                &&& forall|i: int|
                    0 <= i < groups.len() && route_captures(path, (#[trigger] groups[i]).path)
                        is Some ==> !answers(groups[i], method)
                &&& methods & bit != 0 <==> exists|i: int|
                    0 <= i < groups.len() && route_captures(path, (#[trigger] groups[i]).path)
                        is Some && group_bits(groups[i]) & bit != 0
            },
        },
{
    lemma_selected(groups, path, method, 0, 0, bit);
    lemma_either(0, 0, bit);
}

proof fn lemma_answering_group(
    groups: Seq<GroupModel>,
    path: Seq<char>,
    method: Seq<char>,
    at: int,
)
    requires
        0 <= at <= groups.len(),
    ensures
        match answering_group(groups, path, method, at) {
            Some(group) => {
                &&& at <= group < groups.len()
                &&& route_captures(path, groups[group].path) is Some
                &&& answers(groups[group], method)
                &&& forall|i: int|
                    at <= i < group && route_captures(path, (#[trigger] groups[i]).path) is Some
                        ==> !answers(groups[i], method)
            },
            None => forall|i: int|
                at <= i < groups.len() && route_captures(path, (#[trigger] groups[i]).path) is Some
                    ==> !answers(groups[i], method),
        },
        match taking_group(groups, path, at) {
            Some(group) => {
                &&& at <= group < groups.len()
                &&& route_captures(path, groups[group].path) is Some
                &&& forall|i: int|
                    at <= i < group ==> route_captures(path, (#[trigger] groups[i]).path) is None
            },
            None => forall|i: int|
                at <= i < groups.len() ==> route_captures(path, (#[trigger] groups[i]).path) is None,
        },
    decreases groups.len() - at,
{
    if at < groups.len() {
        lemma_answering(groups[at].endpoints, method, 0);
        if let Some(k) = answering(groups[at].endpoints, method, 0) {
            assert(groups[at].endpoints[k].method == method);
        }
        lemma_answering_group(groups, path, method, at + 1);
    }
}

/// A request is counted by the template that answers it, or by the first that
/// takes its path where none answers.
pub proof fn law_requests_are_counted_by_their_template(
    groups: Seq<GroupModel>,
    path: Seq<char>,
    method: Seq<char>,
)
    ensures
        match counting_group(groups, path, method) {
            Some(group) => {
                &&& 0 <= group < groups.len()
                &&& route_captures(path, groups[group].path) is Some
                &&& answers(groups[group], method) ==> forall|i: int|
                    0 <= i < group && route_captures(path, (#[trigger] groups[i]).path) is Some
                        ==> !answers(groups[i], method)
                &&& !answers(groups[group], method) ==> {
                    &&& forall|i: int|
                        0 <= i < groups.len() && route_captures(path, (#[trigger] groups[i]).path)
                            is Some ==> !answers(groups[i], method)
                    &&& forall|i: int|
                        0 <= i < group ==> route_captures(path, (#[trigger] groups[i]).path)
                            is None
                }
            },
            None => forall|i: int|
                0 <= i < groups.len() ==> route_captures(path, (#[trigger] groups[i]).path) is None,
        },
{
    lemma_answering_group(groups, path, method, 0);
}

proof fn lemma_allowed(groups: Seq<GroupModel>, path: Seq<char>, at: int, allowed: u16, bit: u16)
    requires
        0 <= at <= groups.len(),
    ensures
        allowed_methods(groups, path, at, allowed) & bit != 0 <==> (allowed & bit != 0
            || exists|i: int|
            at <= i < groups.len() && route_captures(path, (#[trigger] groups[i]).path) is Some
                && group_bits(groups[i]) & bit != 0),
    decreases groups.len() - at,
{
    if at < groups.len() {
        if takes(groups[at], path) {
            let more = allowed | group_bits(groups[at]);
            lemma_allowed(groups, path, at + 1, more, bit);
            lemma_either(allowed, group_bits(groups[at]), bit);
            if group_bits(groups[at]) & bit != 0 {
                assert(group_bits(groups[at]) & bit != 0);
            }
        } else {
            lemma_allowed(groups, path, at + 1, allowed, bit);
        }
    }
}

/// The methods of a path are those of all templates that take it.
pub proof fn law_paths_have_the_methods_of_their_templates(
    groups: Seq<GroupModel>,
    path: Seq<char>,
    bit: u16,
)
    ensures
        allowed_methods(groups, path, 0, 0) & bit != 0 <==> exists|i: int|
            0 <= i < groups.len() && route_captures(path, (#[trigger] groups[i]).path) is Some
                && group_bits(groups[i]) & bit != 0,
{
    lemma_allowed(groups, path, 0, 0, bit);
    lemma_either(0, 0, bit);
}

/// Free functions have plain names for their parameters and no receiver.
pub proof fn law_functions_have_named_parameters(
    inputs: Seq<InputSyntax>,
    at: int,
    done: Seq<Seq<char>>,
)
    requires
        0 <= at < inputs.len(),
    ensures
        argument_names(inputs, inputs.len() as int, done) == Ok::<Seq<Seq<char>>, Seq<char>>(done),
        inputs[at] is Receiver ==> argument_names(inputs, at, done) == Err::<
            Seq<Seq<char>>,
            Seq<char>,
        >("HTTP route attributes require a free function without self"@),
        inputs[at] matches InputSyntax::Typed { pattern, .. } ==> {
            &&& pattern matches PatternSyntax::Plain(ident) ==> argument_names(inputs, at, done)
                == argument_names(inputs, at + 1, done.push(ident@))
            &&& pattern is Decorated ==> argument_names(inputs, at, done) == Err::<
                Seq<Seq<char>>,
                Seq<char>,
            >("HTTP API parameter patterns must be plain identifiers"@)
            &&& pattern is Other ==> argument_names(inputs, at, done) == Err::<
                Seq<Seq<char>>,
                Seq<char>,
            >("HTTP API parameter patterns must be identifiers"@)
        },
{
    reveal_with_fuel(argument_names, 2);
}

/// An alias is no argument's name, and is the name itself where no argument has
/// it; otherwise underscores are put behind it, no more than needed.
pub proof fn law_aliases_are_no_arguments(
    alias: Seq<char>,
    name: Seq<char>,
    arguments: Seq<Seq<char>>,
)
    requires
        is_fresh(alias, name, arguments),
    ensures
        !arguments.contains(alias),
        name.is_prefix_of(alias),
        forall|i: int| name.len() <= i < alias.len() ==> #[trigger] alias[i] == '_',
        !arguments.contains(name) ==> alias == name,
        forall|shorter: int|
            name.len() <= shorter < alias.len() ==> arguments.contains(
                #[trigger] alias.take(shorter),
            ),
{
    let count = choose|count: nat|
        alias == #[trigger] underscored(name, count) && !arguments.contains(
            underscored(name, count),
        ) && forall|fewer: nat|
            fewer < count ==> arguments.contains(#[trigger] underscored(name, fewer));
    assert(alias.take(name.len() as int) =~= name);
    assert(underscored(name, 0) =~= name);
    assert forall|shorter: int| name.len() <= shorter < alias.len() implies arguments.contains(
        #[trigger] alias.take(shorter),
    ) by {
        let fewer = (shorter - name.len()) as nat;
        assert(alias.take(shorter) =~= underscored(name, fewer));
    }
    if !arguments.contains(name) && count > 0 {
        assert(arguments.contains(underscored(name, 0)));
    }
}

/// A function exists under the conditions that it is annotated with: those of
/// `cfg`, and those of `cfg_attr` that lead to one.
pub proof fn law_functions_exist_under_their_conditions(
    meta: MetaSyntax,
    entries: Seq<MetaSyntax>,
    at: int,
    done: Seq<Seq<char>>,
)
    requires
        0 <= at < entries.len(),
    ensures
        meta matches MetaSyntax::Cfg(text) ==> gate_of(meta) == Ok::<Option<Seq<char>>, Seq<char>>(
            Some(text@),
        ),
        meta is Other ==> gate_of(meta) == Ok::<Option<Seq<char>>, Seq<char>>(None),
        meta matches MetaSyntax::CfgAttr { condition: None, .. } ==> gate_of(meta) == Err::<
            Option<Seq<char>>,
            Seq<char>,
        >("cfg_attr requires a condition"@),
        meta matches MetaSyntax::CfgAttr { condition: Some(condition), entries } ==> {
            &&& gates_from(entries@, 0, Seq::empty()) matches Ok(gates) ==> gate_of(meta) == (
            if gates.len() == 0 {
                Ok::<Option<Seq<char>>, Seq<char>>(None)
            } else {
                Ok(Some("cfg_attr("@ + condition@ + ", "@ + glued(gates, ", "@) + ")"@))
            })
            &&& gates_from(entries@, 0, Seq::empty()) matches Err(message) ==> gate_of(meta)
                == Err::<Option<Seq<char>>, Seq<char>>(message)
        },
        gate_of(entries[at]) matches Ok(Some(gate)) ==> gates_from(entries, at, done) == gates_from(
            entries,
            at + 1,
            done.push(gate),
        ),
        gate_of(entries[at]) == Ok::<Option<Seq<char>>, Seq<char>>(None) ==> gates_from(
            entries,
            at,
            done,
        ) == gates_from(entries, at + 1, done),
        gate_of(entries[at]) matches Err(message) ==> gates_from(entries, at, done) == Err::<
            Seq<Seq<char>>,
            Seq<char>,
        >(message),
        gates_from(entries, entries.len() as int, done) == Ok::<Seq<Seq<char>>, Seq<char>>(done),
{
    reveal_with_fuel(gates_from, 2);
    reveal_with_fuel(gate_of, 2);
}

/// A free function answers a route where it has one annotation for it, a safe
/// signature and JSON bodies; it needs no authentication unless the route says
/// so, and no prefix stands before its template.
pub proof fn law_free_functions_answer_one_route(
    method: Seq<char>,
    route: RouteModel,
    input: FreeFunction,
)
    ensures
        function_endpoint(method, route, input) is Ok ==> {
            &&& route_annotation(attribute_pairs(input.attributes@), 0) is None
            &&& !input.function.unsafe_signature
            &&& argument_names(input.function.inputs@, 0, Seq::empty()) is Ok
            &&& route.consumes != Some(Codec::Protobuf)
            &&& route.produces != Some(Codec::Protobuf)
        },
        route_annotation(attribute_pairs(input.attributes@), 0) is None
            && !input.function.unsafe_signature && argument_names(
            input.function.inputs@,
            0,
            Seq::empty(),
        ) is Ok && route.consumes != Some(Codec::Protobuf) && route.produces != Some(
            Codec::Protobuf,
        ) ==> function_endpoint(method, route, input) == endpoint_of(
            method,
            Seq::empty(),
            input.function@,
            route,
            if route.auth is Some {
                route.auth->0
            } else {
                AuthMode::Off
            },
        ),
        route_annotation(attribute_pairs(input.attributes@), 0) is Some ==> function_endpoint(
            method,
            route,
            input,
        ) == Err::<EndpointModel, Seq<char>>("use exactly one HTTP route attribute per function"@),
{
}

/// What is generated for a free function is named after it and enrolled in the
/// group of its route.
pub proof fn law_function_plans_are_named_after_the_function(
    plan: FunctionPlan<'_>,
    method: Seq<char>,
    route: RouteModel,
    input: FreeFunction,
)
    requires
        is_function_plan(plan, method, route, input),
    ensures
        plan.adapter@ == "__HttpEndpoint_"@ + unraw(input.function.name@),
        "__http_business_function"@.is_prefix_of(plan.alias@),
        route.group matches Some(group) ==> plan.registry@ == group_module_path(group),
        route.group is None ==> plan.registry@ == group_module_path(
            PathModel { leading_colon: false, segments: seq!["http_apis"@] },
        ),
        function_endpoint(method, route, input) == Ok::<EndpointModel, Seq<char>>(plan.endpoint@),
        gates_from(input.gates@, 0, Seq::empty()) == Ok::<Seq<Seq<char>>, Seq<char>>(
            string_texts(plan.gates@),
        ),
{
    law_aliases_are_no_arguments(
        plan.alias@,
        "__http_business_function"@,
        argument_names(input.function.inputs@, 0, Seq::empty())->Ok_0,
    );
}

/// A type is made from a state where the state is its only field, and has a
/// name.
pub proof fn law_states_are_the_only_field(layout: Layout)
    ensures
        layout_fault(layout) is None <==> (layout matches Layout::Named(fields) && fields@.len()
            == 1 && unraw(string_texts(fields@)[0]) == "state"@),
{
    if let Layout::Named(fields) = layout {
        if fields@.len() == 1 && unraw(string_texts(fields@)[0]) == "state"@ {
            assert(crate::macros::derive::has_state(string_texts(fields@)));
        }
    }
}

/// The annotations of routes are named like the methods that they stand for, in
/// small letters.
pub proof fn law_annotations_are_named_like_methods(name: Seq<char>)
    ensures
        method_of("get"@) == Some("GET"@),
        method_of("post"@) == Some("POST"@),
        method_of("put"@) == Some("PUT"@),
        method_of("patch"@) == Some("PATCH"@),
        method_of("delete"@) == Some("DELETE"@),
        method_of("head"@) == Some("HEAD"@),
        method_of("options"@) == Some("OPTIONS"@),
        method_of(name) is Some <==> seq![
            "get"@,
            "post"@,
            "put"@,
            "patch"@,
            "delete"@,
            "head"@,
            "options"@,
        ].contains(name),
{
    reveal_strlit("get");
    reveal_strlit("post");
    reveal_strlit("put");
    reveal_strlit("patch");
    reveal_strlit("delete");
    reveal_strlit("head");
    reveal_strlit("options");
    assert("get"@.len() == 3 && "put"@.len() == 3 && "get"@[0] == 'g' && "put"@[0] == 'p');
    assert("post"@.len() == 4 && "head"@.len() == 4 && "post"@[0] == 'p' && "head"@[0] == 'h');
    assert("patch"@.len() == 5 && "delete"@.len() == 6 && "options"@.len() == 7);
    let names = seq!["get"@, "post"@, "put"@, "patch"@, "delete"@, "head"@, "options"@];
    assert(names[0] == "get"@ && names[1] == "post"@ && names[2] == "put"@ && names[3] == "patch"@
        && names[4] == "delete"@ && names[5] == "head"@ && names[6] == "options"@);
}

proof fn lemma_route_annotation(attributes: Seq<(Seq<char>, Seq<TokenModel>)>, at: int)
    requires
        0 <= at <= attributes.len(),
    ensures
        match route_annotation(attributes, at) {
            Some(index) => at <= index < attributes.len() && method_of(attributes[index].0) is Some
                && forall|j: int|
                at <= j < index ==> method_of((#[trigger] attributes[j]).0) is None,
            None => forall|j: int|
                at <= j < attributes.len() ==> method_of((#[trigger] attributes[j]).0) is None,
        },
    decreases attributes.len() - at,
{
    if at < attributes.len() && method_of(attributes[at].0) is None {
        lemma_route_annotation(attributes, at + 1);
    }
}

/// A method answers the route of its first annotation for one. It takes from
/// the whole what the route does not say of bodies and authentication, and its
/// bodies have to be JSON.
pub proof fn law_methods_take_after_the_whole(
    api: ApiModel,
    method: MethodModel,
    index: int,
    route: RouteModel,
)
    requires
        0 <= index < method.attributes.len(),
        method_of(method.attributes[index].0) is Some,
        forall|j: int| 0 <= j < index ==> method_of((#[trigger] method.attributes[j]).0) is None,
        route_arguments(method.attributes[index].1) == Ok::<RouteModel, Seq<char>>(route),
    ensures
        ({
            let json = (route.consumes == Some(Codec::Json) || route.consumes is None
                && api.consumes == Codec::Json) && (route.produces == Some(Codec::Json)
                || route.produces is None && api.produces == Codec::Json);
            &&& !json ==> method_endpoint(api, method) == Some(
                Err::<EndpointModel, Seq<char>>(
                    "protobuf API codecs are declared but not implemented yet; use json"@,
                ),
            )
            &&& json ==> method_endpoint(api, method) == Some(
                endpoint_of(
                    method_of(method.attributes[index].0)->0,
                    api.prefix,
                    method.function,
                    route,
                    if route.auth is Some {
                        route.auth->0
                    } else {
                        api.auth
                    },
                ),
            )
        }),
{
    lemma_route_annotation(method.attributes, 0);
    let found = route_annotation(method.attributes, 0)->0;
    if found < index {
        assert(method_of(method.attributes[found].0) is None);
    }
    if index < found {
        assert(method_of(method.attributes[index].0) is None);
    }
}

/// Methods without such an annotation are no endpoints; the others are, in
/// their order, and the first fault is that of the whole.
pub proof fn law_endpoints_are_read_in_order(
    api: ApiModel,
    methods: Seq<MethodModel>,
    at: int,
    done: Seq<EndpointModel>,
)
    requires
        0 <= at < methods.len(),
    ensures
        method_endpoint(api, methods[at]) is None <==> forall|j: int|
            0 <= j < methods[at].attributes.len() ==> method_of(
                (#[trigger] methods[at].attributes[j]).0,
            ) is None,
        method_endpoint(api, methods[at]) is None ==> api_endpoints(api, methods, at, done)
            == api_endpoints(api, methods, at + 1, done),
        method_endpoint(api, methods[at]) matches Some(Ok(endpoint)) ==> api_endpoints(
            api,
            methods,
            at,
            done,
        ) == api_endpoints(api, methods, at + 1, done.push(endpoint)),
        method_endpoint(api, methods[at]) matches Some(Err(message)) ==> api_endpoints(
            api,
            methods,
            at,
            done,
        ) == Err::<Seq<EndpointModel>, Seq<char>>(message),
        api_endpoints(api, methods, methods.len() as int, done) == Ok::<
            Seq<EndpointModel>,
            Seq<char>,
        >(done),
{
    lemma_route_annotation(methods[at].attributes, 0);
    reveal_with_fuel(api_endpoints, 2);
}

/// The principals of parameters are what the authenticated ones are written
/// with, in their order.
pub proof fn law_principals_are_those_of_parameters(
    parameters: Seq<ParameterModel>,
    count: int,
    endpoints: Seq<EndpointModel>,
    groups: Seq<GroupModel>,
    at: int,
)
    requires
        0 < count <= parameters.len(),
        0 < at,
    ensures
        parameters[count - 1].source is Authenticated ==> (principal_of(
            parameters[count - 1].ty,
        ) matches Some((principal, _)) ==> parameter_principals(parameters, count)
            == parameter_principals(parameters, count - 1).push(principal)),
        !(parameters[count - 1].source is Authenticated) || principal_of(parameters[count - 1].ty)
            is None ==> parameter_principals(parameters, count) == parameter_principals(
            parameters,
            count - 1,
        ),
        parameter_principals(parameters, 0) == Seq::<TypeModel>::empty(),
        endpoint_principals(endpoints, at) == endpoint_principals(endpoints, at - 1)
            + parameter_principals(
            endpoints[at - 1].parameters,
            endpoints[at - 1].parameters.len() as int,
        ),
        endpoint_principals(endpoints, 0) == Seq::<TypeModel>::empty(),
        group_principals(groups, at) == group_principals(groups, at - 1) + endpoint_principals(
            groups[at - 1].endpoints,
            groups[at - 1].endpoints.len() as int,
        ),
        group_principals(groups, 0) == Seq::<TypeModel>::empty(),
{
}

/// Principals are one where they are written alike, each with each.
pub proof fn law_principals_are_compared_as_written(
    principals: Seq<TypeModel>,
    left: int,
    right: int,
)
    requires
        0 <= left < principals.len(),
        0 <= right < principals.len(),
    ensures
        one_principal(principals) ==> type_text(principals[left]) == type_text(principals[right]),
        type_text(principals[left]) != type_text(principals[right]) ==> !one_principal(principals),
        principals.len() == 1 ==> one_principal(principals),
{
}

/// An endpoint asks who its caller is where it authenticates: it insists where
/// that is required, and gives the principal to the first parameter for it.
pub proof fn law_endpoints_ask_who_their_caller_is(endpoint: EndpointModel, index: int)
    requires
        0 <= index <= endpoint.parameters.len(),
        forall|j: int|
            0 <= j < index ==> !((#[trigger] endpoint.parameters[j]).source is Authenticated),
        index < endpoint.parameters.len() ==> endpoint.parameters[index].source is Authenticated,
    ensures
        endpoint.auth is Off <==> auth_plan(endpoint) is Nothing,
        endpoint.auth !is Off && index < endpoint.parameters.len() ==> auth_plan(endpoint) == (
        AuthPlanModel::Bind {
            required: endpoint.auth is Required,
            ident: endpoint.parameters[index].ident,
            ty: endpoint.parameters[index].ty,
        }),
        endpoint.auth !is Off && index == endpoint.parameters.len() ==> auth_plan(endpoint) == (
        AuthPlanModel::Check { required: endpoint.auth is Required }),
{
    lemma_authenticated(endpoint.parameters, 0, index);
}

proof fn lemma_authenticated(parameters: Seq<ParameterModel>, at: int, index: int)
    requires
        0 <= at <= index <= parameters.len(),
        forall|j: int| at <= j < index ==> !((#[trigger] parameters[j]).source is Authenticated),
        index < parameters.len() ==> parameters[index].source is Authenticated,
    ensures
        authenticated_from(parameters, at) == (if index < parameters.len() {
            Some(parameters[index])
        } else {
            None
        }),
    decreases index - at,
{
    if at < index {
        assert(!(parameters[at].source is Authenticated));
        lemma_authenticated(parameters, at + 1, index);
    }
}

/// All parameters but the authenticated one are bound, in their order, and the
/// function is called with all of them.
pub proof fn law_arms_bind_all_parameters(endpoint: EndpointModel, count: int)
    requires
        0 < count <= endpoint.parameters.len(),
    ensures
        ({
            let parameter = endpoint.parameters[count - 1];
            let before = binding_plans(endpoint.parameters, count - 1);
            let after = binding_plans(endpoint.parameters, count);
            &&& parameter.source is Authenticated ==> after == before
            &&& !(parameter.source is Authenticated) ==> {
                &&& after.len() == before.len() + 1
                &&& after.drop_last() == before
                &&& after.last().ident == parameter.ident
                &&& after.last().ty == parameter.ty
                &&& Some(after.last().extraction) == crate::macros::plan::extraction_of(parameter)
                &&& after.last().on_failure == failure_of(parameter)
            }
        }),
        binding_plans(endpoint.parameters, 0) == Seq::<BindingPlanModel>::empty(),
        arm_of(endpoint).method == endpoint.method,
        arm_of(endpoint).authentication == auth_plan(endpoint),
        arm_of(endpoint).checks_json == endpoint.has_json_body,
        arm_of(endpoint).bindings == binding_plans(
            endpoint.parameters,
            endpoint.parameters.len() as int,
        ),
        arm_of(endpoint).handler == endpoint.handler,
        arm_of(endpoint).result == endpoint.result,
        arm_of(endpoint).arguments.len() == endpoint.parameters.len(),
        arm_of(endpoint).arguments[count - 1] == endpoint.parameters[count - 1].ident,
{
    let before = binding_plans(endpoint.parameters, count - 1);
    if let Some(plan) = binding_plan(endpoint.parameters[count - 1]) {
        assert(before.push(plan).drop_last() =~= before);
    }
}

/// A function's result may be an error where its type is named so, and it has
/// to have a result.
pub proof fn law_results_are_named_so(output: Option<TypeModel>, name: Seq<char>)
    ensures
        kind_of_result(output) is Err <==> output is None,
        kind_of_result(output) == Ok::<ResultKind, Seq<char>>(ResultKind::Result) <==> (
        output matches Some(TypeModel::Path { name, .. }) && (name == "Result"@ || name
            == "ApiResult"@)),
        kind_of_result(None) == Err::<ResultKind, Seq<char>>(
            "HTTP API methods must return a JSON-serializable value or ApiResult<T>"@,
        ),
        bound_lifetime("static"@) == "static"@,
        name != "static"@ ==> bound_lifetime(name) == "_"@,
{
}

} // verus!

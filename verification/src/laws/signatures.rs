//! Laws of signatures: which functions answer a route, and what is wrong with
//! the others.
use vstd::prelude::*;

#[allow(unused_imports)]
use crate::laws::bindings::first_parameter;
#[allow(unused_imports)]
use crate::macros::arguments::names_pair;
use crate::macros::arguments::{AuthMode, RouteModel};
#[allow(unused_imports)]
use crate::macros::endpoint::{
    annotated_binding, annotated_header, assigned, assigned_source, auth_fault, authenticated_from,
    bound_parameters, capture_mismatch, declared_from, declared_inputs, endpoint_of, injected,
    injection_of, is_body, is_captured, names_parameter, plain_before, source_conflict,
    unknown_header,
};
use crate::macros::endpoint::{
    AttributeModel, BindingModel, DeclaredModel, EndpointModel, FunctionModel, InputModel,
    ParameterModel,
};
#[allow(unused_imports)]
use crate::macros::paths::{endpoint_path_fault, joined_path, shape_of, template_captures};
#[allow(unused_imports)]
use crate::macros::registry::unraw;
use crate::macros::syntax::TypeModel;
#[allow(unused_imports)]
use crate::macros::syntax::{kind_of_result, principal_of};

verus! {

/// A parameter is annotated with one dependency at most.
pub proof fn law_dependencies_are_named_once(
    attributes: Seq<AttributeModel>,
    at: int,
    found: Option<Seq<char>>,
    ty: TypeModel,
)
    requires
        0 <= at < attributes.len(),
    ensures
        attributes[at] matches AttributeModel::Inject(name) ==> found is None ==> injected(
            attributes,
            at,
            found,
        ) == injected(attributes, at + 1, Some(name)),
        (attributes[at] is Inject || attributes[at] is InjectMalformed) && found is Some
            ==> injected(attributes, at, found) == Err::<Option<Seq<char>>, Seq<char>>(
            "specify exactly one #[inject(name)] per parameter"@,
        ),
        attributes[at] is InjectMalformed && found is None ==> injected(attributes, at, found)
            == Err::<Option<Seq<char>>, Seq<char>>("expected #[inject(dependency_name)]"@),
        !(attributes[at] is Inject || attributes[at] is InjectMalformed) ==> injected(
            attributes,
            at,
            found,
        ) == injected(attributes, at + 1, found),
        injected(attributes, attributes.len() as int, found) == Ok::<
            Option<Seq<char>>,
            Seq<char>,
        >(found),
        injected(attributes, 0, None) matches Ok(name) ==> injection_of(ty, attributes) == (
        if name is Some && (ty matches TypeModel::Reference { mutable: true, .. }) {
            Err::<Option<Seq<char>>, Seq<char>>(
                "injected dependencies are shared; use &T or an owned Clone type with interior mutability"@,
            )
        } else {
            Ok(name)
        }),
        injected(attributes, 0, None) matches Err(message) ==> injection_of(ty, attributes)
            == Err::<Option<Seq<char>>, Seq<char>>(message),
{
    reveal_with_fuel(injected, 2);
}

/// A parameter is annotated with one header at most, under its own name or a
/// given one.
pub proof fn law_headers_are_named_once(
    ident: Seq<char>,
    attributes: Seq<AttributeModel>,
    at: int,
    found: Option<Seq<char>>,
)
    requires
        0 <= at < attributes.len(),
    ensures
        attributes[at] is Header && found is None ==> annotated_header(ident, attributes, at, found)
            == annotated_header(ident, attributes, at + 1, Some(unraw(ident))),
        attributes[at] matches AttributeModel::HeaderNamed(name) ==> found is None
            ==> annotated_header(ident, attributes, at, found) == annotated_header(
            ident,
            attributes,
            at + 1,
            Some(name),
        ),
        (attributes[at] is Header || attributes[at] is HeaderNamed || attributes[at]
            is HeaderMalformed) && found is Some ==> annotated_header(
            ident,
            attributes,
            at,
            found,
        ) == Err::<Option<Seq<char>>, Seq<char>>("specify exactly one #[header] per parameter"@),
        attributes[at] is HeaderMalformed && found is None ==> annotated_header(
            ident,
            attributes,
            at,
            found,
        ) == Err::<Option<Seq<char>>, Seq<char>>("expected #[header] or #[header(\"name\")]"@),
        !(attributes[at] is Header || attributes[at] is HeaderNamed || attributes[at]
            is HeaderMalformed) ==> annotated_header(ident, attributes, at, found)
            == annotated_header(ident, attributes, at + 1, found),
        annotated_header(ident, attributes, attributes.len() as int, found) == Ok::<
            Option<Seq<char>>,
            Seq<char>,
        >(found),
{
    reveal_with_fuel(annotated_header, 2);
}

/// A parameter is bound in one way: a dependency to nothing else, a header to
/// no capture and to no other header.
pub proof fn law_parameters_are_bound_in_one_way(
    ident: Seq<char>,
    ty: TypeModel,
    attributes: Seq<AttributeModel>,
    captures: Seq<Seq<char>>,
    headers: Seq<(Seq<char>, Seq<char>)>,
    dependency: Option<Seq<char>>,
    header: Option<Seq<char>>,
)
    requires
        injection_of(ty, attributes) == Ok::<Option<Seq<char>>, Seq<char>>(dependency),
        annotated_header(ident, attributes, 0, None) == Ok::<Option<Seq<char>>, Seq<char>>(header),
    ensures
        ({
            let routed = exists|i: int| 0 <= i < headers.len() && (#[trigger] headers[i]).0 == ident;
            let captured = captures.contains(ident);
            annotated_binding(ident, ty, attributes, captures, headers) == (
            if dependency is Some && (header is Some || routed || captured) {
                Err::<BindingModel, Seq<char>>(
                    "an injected parameter cannot also bind a path capture or an HTTP header"@,
                )
            } else if dependency is Some {
                Ok(BindingModel::Injected(dependency->0))
            } else if header is None {
                Ok(BindingModel::Plain)
            } else if routed {
                Err("a parameter may only bind one HTTP header"@)
            } else if captured {
                Err("a header parameter cannot also bind a path capture"@)
            } else {
                Ok(BindingModel::Header(header->0))
            })
        }),
{
}

/// Parameters are declared one behind the other, with plain names. A method
/// begins with `&self` and has no other receiver; a free function has none.
pub proof fn law_parameters_are_declared_in_order(
    function: FunctionModel,
    captures: Seq<Seq<char>>,
    headers: Seq<(Seq<char>, Seq<char>)>,
    free: bool,
    at: int,
    done: Seq<DeclaredModel>,
)
    requires
        0 <= at < function.inputs.len(),
    ensures
        function.inputs[at] is Receiver ==> declared_from(
            function.inputs,
            free,
            captures,
            headers,
            at,
            done,
        ) == Err::<Seq<DeclaredModel>, Seq<char>>(
            if free {
                "HTTP route attributes require a free function without self"@
            } else {
                "HTTP API methods may only have one self receiver"@
            },
        ),
        function.inputs[at] matches InputModel::Typed { ident: None, .. } ==> declared_from(
            function.inputs,
            free,
            captures,
            headers,
            at,
            done,
        ) == Err::<Seq<DeclaredModel>, Seq<char>>(
            "HTTP API parameter patterns must be identifiers"@,
        ),
        function.inputs[at] matches InputModel::Typed { ident: Some(ident), ty, attributes } ==> {
            &&& annotated_binding(ident, ty, attributes, captures, headers) matches Ok(binding)
                ==> declared_from(function.inputs, free, captures, headers, at, done)
                == declared_from(
                function.inputs,
                free,
                captures,
                headers,
                at + 1,
                done.push(DeclaredModel { ident, ty, binding }),
            )
            &&& annotated_binding(ident, ty, attributes, captures, headers) matches Err(message)
                ==> declared_from(function.inputs, free, captures, headers, at, done) == Err::<
                Seq<DeclaredModel>,
                Seq<char>,
            >(message)
        },
        declared_from(
            function.inputs,
            free,
            captures,
            headers,
            function.inputs.len() as int,
            done,
        ) == Ok::<Seq<DeclaredModel>, Seq<char>>(done),
        function.free ==> declared_inputs(function, captures, headers) == declared_from(
            function.inputs,
            true,
            captures,
            headers,
            0,
            Seq::empty(),
        ),
        !function.free && function.inputs[0] == (InputModel::Receiver { reference: true })
            ==> declared_inputs(function, captures, headers) == declared_from(
            function.inputs,
            false,
            captures,
            headers,
            1,
            Seq::empty(),
        ),
        !function.free && function.inputs[0] != (InputModel::Receiver { reference: true })
            ==> declared_inputs(function, captures, headers) == Err::<
            Seq<DeclaredModel>,
            Seq<char>,
        >("HTTP API methods must begin with &self"@),
{
    reveal_with_fuel(declared_from, 2);
}

/// A capture is bound to a parameter where as many unannotated parameters stand
/// before it as captures do.
pub proof fn law_captures_are_bound_in_order(declared: Seq<DeclaredModel>, captures: nat, at: int)
    requires
        0 <= at < declared.len(),
    ensures
        plain_before(declared, 0) == 0,
        declared[at].binding is Plain ==> plain_before(declared, at + 1) == plain_before(
            declared,
            at,
        ) + 1,
        !(declared[at].binding is Plain) ==> plain_before(declared, at + 1) == plain_before(
            declared,
            at,
        ),
        is_captured(declared, captures, at) <==> declared[at].binding is Plain && plain_before(
            declared,
            at,
        ) < captures,
{
}

proof fn lemma_mismatch(declared: Seq<DeclaredModel>, captures: Seq<Seq<char>>, at: int)
    requires
        0 <= at <= declared.len(),
    ensures
        capture_mismatch(declared, captures, at) is None <==> forall|i: int|
            at <= i < declared.len() && #[trigger] is_captured(declared, captures.len(), i)
                ==> declared[i].ident == captures[plain_before(declared, i) as int],
        capture_mismatch(declared, captures, at) matches Some(message) ==> exists|i: int|
            at <= i < declared.len() && #[trigger] is_captured(declared, captures.len(), i)
                && message == "path capture :"@ + captures[plain_before(declared, i) as int]
                + " must bind parameter "@ + captures[plain_before(declared, i) as int]
                + " in route order"@,
    decreases declared.len() - at,
{
    if at < declared.len() {
        lemma_mismatch(declared, captures, at + 1);
        if is_captured(declared, captures.len(), at) && declared[at].ident
            != captures[plain_before(declared, at) as int] {
            assert(is_captured(declared, captures.len(), at));
        }
    }
}

proof fn lemma_unknown(
    declared: Seq<DeclaredModel>,
    headers: Seq<(Seq<char>, Seq<char>)>,
    at: int,
)
    requires
        0 <= at <= headers.len(),
    ensures
        unknown_header(declared, headers, at) is None <==> forall|i: int|
            at <= i < headers.len() ==> names_parameter(declared, (#[trigger] headers[i]).0),
        unknown_header(declared, headers, at) matches Some(message) ==> exists|i: int|
            at <= i < headers.len() && !names_parameter(declared, (#[trigger] headers[i]).0)
                && message == "headers(...) binds unknown parameter "@ + headers[i].0,
    decreases headers.len() - at,
{
    if at < headers.len() {
        lemma_unknown(declared, headers, at + 1);
        if !names_parameter(declared, headers[at].0) {
            assert(!names_parameter(declared, headers[at].0));
        }
    }
}

/// Whether the parameter at a place is given the principal.
pub open spec fn is_principal(parameters: Seq<ParameterModel>, at: int) -> bool {
    parameters[at].source is Authenticated
}

/// Whether the parameter at a place is read from the body.
pub open spec fn is_read_from_body(parameters: Seq<ParameterModel>, at: int) -> bool {
    ||| parameters[at].source is JsonBody
    ||| parameters[at].source is FormBody
    ||| parameters[at].source is MultipartBody
    ||| parameters[at].source is RawBody
    ||| parameters[at].source is BorrowedBody
}

/// Whether the parameters from a place on do not clash with each other, nor
/// with what stood before them.
spec fn agree_from(
    parameters: Seq<ParameterModel>,
    headers: Seq<(Seq<char>, Seq<char>)>,
    at: int,
    authenticated: bool,
    body: bool,
) -> bool {
    &&& forall|i: int, j: int|
        at <= i < j < parameters.len() ==> !(#[trigger] is_principal(parameters, i)
            && #[trigger] is_principal(parameters, j))
    &&& forall|i: int, j: int|
        at <= i < j < parameters.len() ==> !(#[trigger] is_read_from_body(parameters, i)
            && #[trigger] is_read_from_body(parameters, j))
    &&& forall|i: int|
        at <= i < parameters.len() && #[trigger] is_principal(parameters, i) ==> !authenticated
            && !names_pair(headers, parameters[i].ident)
    &&& forall|i: int|
        at <= i < parameters.len() && #[trigger] is_read_from_body(parameters, i) ==> !body
}

proof fn lemma_conflict(
    declared: Seq<DeclaredModel>,
    captures: nat,
    headers: Seq<(Seq<char>, Seq<char>)>,
    at: int,
    authenticated: bool,
    body: bool,
)
    requires
        0 <= at <= declared.len(),
    ensures
        source_conflict(declared, captures, headers, at, authenticated, body) is None <==> agree_from(
            assigned(declared, captures, headers),
            headers,
            at,
            authenticated,
            body,
        ),
    decreases declared.len() - at,
{
    let parameters = assigned(declared, captures, headers);
    if at < declared.len() {
        let source = assigned_source(declared, captures, headers, at);
        assert(parameters[at].source == source);
        assert(is_body(source) <==> is_read_from_body(parameters, at));
        let a = authenticated || is_principal(parameters, at);
        let b = body || is_read_from_body(parameters, at);
        lemma_conflict(declared, captures, headers, at + 1, a, b);
        assert(!(is_principal(parameters, at) && is_read_from_body(parameters, at)));
        if agree_from(parameters, headers, at, authenticated, body) {
            assert(agree_from(parameters, headers, at + 1, a, b)) by {
                assert forall|i: int|
                    at + 1 <= i < parameters.len() && #[trigger] is_principal(
                        parameters,
                        i,
                    ) implies !a && !names_pair(headers, parameters[i].ident) by {
                    if is_principal(parameters, at) {
                        assert(!(is_principal(parameters, at) && is_principal(parameters, i)));
                    }
                }
                assert forall|i: int|
                    at + 1 <= i < parameters.len() && #[trigger] is_read_from_body(
                        parameters,
                        i,
                    ) implies !b by {
                    if is_read_from_body(parameters, at) {
                        assert(!(is_read_from_body(parameters, at) && is_read_from_body(
                            parameters,
                            i,
                        )));
                    }
                }
            }
            if is_principal(parameters, at) {
                assert(!authenticated);
            }
            if is_read_from_body(parameters, at) {
                assert(!body);
            }
        }
        if agree_from(parameters, headers, at + 1, a, b) && !(is_principal(parameters, at) && (
        authenticated || names_pair(headers, parameters[at].ident))) && !(is_read_from_body(
            parameters,
            at,
        ) && body) {
            assert(agree_from(parameters, headers, at, authenticated, body)) by {
                assert forall|i: int, j: int| at <= i < j < parameters.len() implies !(
                #[trigger] is_principal(parameters, i) && #[trigger] is_principal(
                    parameters,
                    j,
                )) by {
                    if i == at && is_principal(parameters, at) {
                        assert(a);
                    }
                }
                assert forall|i: int, j: int| at <= i < j < parameters.len() implies !(
                #[trigger] is_read_from_body(parameters, i) && #[trigger] is_read_from_body(
                    parameters,
                    j,
                )) by {
                    if i == at && is_read_from_body(parameters, at) {
                        assert(b);
                    }
                }
            }
        }
    }
}

/// The parameters of a function are accepted where every capture is bound to
/// the parameter of its name, in order, every header of the route to some
/// parameter, and at most one parameter to the body and one to the principal,
/// which no header is bound to.
pub proof fn law_proper_parameters_are_accepted(
    function: FunctionModel,
    captures: Seq<Seq<char>>,
    headers: Seq<(Seq<char>, Seq<char>)>,
    declared: Seq<DeclaredModel>,
)
    requires
        declared_inputs(function, captures, headers) == Ok::<Seq<DeclaredModel>, Seq<char>>(
            declared,
        ),
    ensures
        ({
            let parameters = assigned(declared, captures.len(), headers);
            &&& bound_parameters(function, captures, headers) is Ok <==> {
                &&& plain_before(declared, declared.len() as int) >= captures.len()
                &&& forall|i: int|
                    0 <= i < declared.len() && #[trigger] is_captured(declared, captures.len(), i)
                        ==> declared[i].ident == captures[plain_before(declared, i) as int]
                &&& forall|i: int|
                    0 <= i < headers.len() ==> exists|j: int|
                        0 <= j < declared.len() && (#[trigger] declared[j]).ident == (
                        #[trigger] headers[i]).0
                &&& forall|i: int, j: int|
                    0 <= i < j < parameters.len() ==> !(#[trigger] is_principal(parameters, i)
                        && #[trigger] is_principal(parameters, j))
                &&& forall|i: int, j: int|
                    0 <= i < j < parameters.len() ==> !(#[trigger] is_read_from_body(parameters, i)
                        && #[trigger] is_read_from_body(parameters, j))
                &&& forall|i: int|
                    0 <= i < parameters.len() && #[trigger] is_principal(parameters, i)
                        ==> !names_pair(headers, parameters[i].ident)
            }
            &&& bound_parameters(function, captures, headers) matches Ok(bound) ==> bound
                == parameters
            &&& plain_before(declared, declared.len() as int) < captures.len()
                ==> bound_parameters(function, captures, headers) == Err::<
                Seq<ParameterModel>,
                Seq<char>,
            >("route has more path captures than method parameters"@)
        }),
{
    lemma_mismatch(declared, captures, 0);
    lemma_unknown(declared, headers, 0);
    lemma_conflict(declared, captures.len(), headers, 0, false, false);
    let parameters = assigned(declared, captures.len(), headers);
    if unknown_header(declared, headers, 0) is None {
        assert forall|i: int| 0 <= i < headers.len() implies exists|j: int|
            0 <= j < declared.len() && (#[trigger] declared[j]).ident == (
            #[trigger] headers[i]).0 by {
            assert(names_parameter(declared, headers[i].0));
        }
    }
    if forall|i: int|
        0 <= i < headers.len() ==> exists|j: int|
            0 <= j < declared.len() && (#[trigger] declared[j]).ident == (#[trigger] headers[i]).0 {
        assert forall|i: int| 0 <= i < headers.len() implies names_parameter(
            declared,
            (#[trigger] headers[i]).0,
        ) by {
            let j = choose|j: int|
                0 <= j < declared.len() && (#[trigger] declared[j]).ident == headers[i].0;
            assert(declared[j].ident == headers[i].0);
        }
    }
}

/// A second body, a second principal or a principal that a header is bound to is
/// told of where it stands; what comes before it counts.
pub proof fn law_clashes_are_told_where_they_stand(
    declared: Seq<DeclaredModel>,
    captures: nat,
    headers: Seq<(Seq<char>, Seq<char>)>,
    at: int,
    authenticated: bool,
    body: bool,
)
    requires
        0 <= at < declared.len(),
    ensures
        ({
            let parameters = assigned(declared, captures, headers);
            let told = source_conflict(declared, captures, headers, at, authenticated, body);
            &&& is_principal(parameters, at) && names_pair(headers, declared[at].ident) ==> told
                == Some("Authenticated<T> is injected by auth, not headers(...) "@)
            &&& is_principal(parameters, at) && !names_pair(headers, declared[at].ident)
                && authenticated ==> told == Some(
                "an HTTP API method may have at most one Authenticated<T> parameter"@,
            )
            &&& is_principal(parameters, at) && !names_pair(headers, declared[at].ident)
                && !authenticated ==> told == source_conflict(
                declared,
                captures,
                headers,
                at + 1,
                true,
                body,
            )
            &&& is_read_from_body(parameters, at) && body ==> told == Some(
                "an HTTP API method may have at most one body parameter"@,
            )
            &&& is_read_from_body(parameters, at) && !body ==> told == source_conflict(
                declared,
                captures,
                headers,
                at + 1,
                authenticated,
                true,
            )
            &&& !is_principal(parameters, at) && !is_read_from_body(parameters, at) ==> told
                == source_conflict(declared, captures, headers, at + 1, authenticated, body)
            &&& source_conflict(
                declared,
                captures,
                headers,
                declared.len() as int,
                authenticated,
                body,
            ) is None
        }),
{
    let parameters = assigned(declared, captures, headers);
    assert(parameters[at].source == assigned_source(declared, captures, headers, at));
    reveal_with_fuel(source_conflict, 2);
}

/// Of several faults the first is told: in the declarations, in the number of
/// captures, in their names, in the headers of the route, and in what clashes.
pub proof fn law_the_first_fault_is_told(
    function: FunctionModel,
    captures: Seq<Seq<char>>,
    headers: Seq<(Seq<char>, Seq<char>)>,
    declared: Seq<DeclaredModel>,
)
    requires
        declared_inputs(function, captures, headers) == Ok::<Seq<DeclaredModel>, Seq<char>>(
            declared,
        ),
        plain_before(declared, declared.len() as int) >= captures.len(),
    ensures
        ({
            let outcome = bound_parameters(function, captures, headers);
            let mismatch = capture_mismatch(declared, captures, 0);
            let unknown = unknown_header(declared, headers, 0);
            let clash = source_conflict(declared, captures.len(), headers, 0, false, false);
            &&& mismatch matches Some(message) ==> outcome == Err::<
                Seq<ParameterModel>,
                Seq<char>,
            >(message)
            &&& mismatch is None ==> (unknown matches Some(message) ==> outcome == Err::<
                Seq<ParameterModel>,
                Seq<char>,
            >(message))
            &&& mismatch is None && unknown is None ==> (clash matches Some(message) ==> outcome
                == Err::<Seq<ParameterModel>, Seq<char>>(message))
        }),
{
}

proof fn lemma_first_principal(parameters: Seq<ParameterModel>, at: int, index: int)
    requires
        0 <= at <= index <= parameters.len(),
        forall|j: int| at <= j < index ==> !((#[trigger] parameters[j]).source is Authenticated),
        index < parameters.len() ==> parameters[index].source is Authenticated,
    ensures
        authenticated_from(parameters, at) == (if index < parameters.len() {
            Some(parameters[index])
        } else {
            None
        }),
    decreases index - at,
{
    if at < index {
        assert(!(parameters[at].source is Authenticated));
        lemma_first_principal(parameters, at + 1, index);
    }
}

/// A principal is asked for where the caller is authenticated, and as an option
/// where it need not be.
pub proof fn law_principals_need_authentication(
    auth: AuthMode,
    parameters: Seq<ParameterModel>,
    index: int,
    principal: TypeModel,
    optional: bool,
)
    requires
        0 <= index <= parameters.len(),
        forall|j: int| 0 <= j < index ==> !((#[trigger] parameters[j]).source is Authenticated),
        index < parameters.len() ==> parameters[index].source is Authenticated && principal_of(
            parameters[index].ty,
        ) == Some((principal, optional)),
    ensures
        index == parameters.len() ==> auth_fault(auth, parameters) is None,
        index < parameters.len() ==> auth_fault(auth, parameters) == (match auth {
            AuthMode::Off => Some("Authenticated<T> requires auth = required or auth = optional"@),
            AuthMode::Required => if optional {
                Some("auth = required injects Authenticated<T>, not Option<Authenticated<T>>"@)
            } else {
                None
            },
            AuthMode::Optional => if optional {
                None
            } else {
                Some("auth = optional injects Option<Authenticated<T>>"@)
            },
        }),
{
    lemma_first_principal(parameters, 0, index);
}

/// An asynchronous function without type parameters answers a route where its
/// path, its captures, its parameters and its principal are in order and it has
/// a result; otherwise the first of these is said to be wrong.
pub proof fn law_proper_functions_are_endpoints(
    method: Seq<char>,
    prefix: Seq<char>,
    function: FunctionModel,
    route: RouteModel,
    auth: AuthMode,
)
    ensures
        ({
            let path = joined_path(prefix, route.path);
            let captures = template_captures(path);
            let bound = bound_parameters(function, captures->Ok_0, route.headers);
            &&& endpoint_of(method, prefix, function, route, auth) is Ok <==> {
                &&& function.is_async
                &&& !function.generic
                &&& endpoint_path_fault(route.path) is Ok
                &&& captures is Ok
                &&& bound is Ok
                &&& auth_fault(auth, bound->Ok_0) is None
                &&& function.output is Some
            }
            &&& endpoint_of(method, prefix, function, route, auth) matches Ok(endpoint) ==> {
                &&& endpoint.shape == shape_of(path)
                &&& endpoint.path == path
                &&& endpoint.parameters == bound->Ok_0
            }
            &&& !function.is_async ==> endpoint_of(method, prefix, function, route, auth) == Err::<
                EndpointModel,
                Seq<char>,
            >("HTTP API methods must be async"@)
            &&& function.is_async && function.generic ==> endpoint_of(
                method,
                prefix,
                function,
                route,
                auth,
            ) == Err::<EndpointModel, Seq<char>>(
                "HTTP API methods may have lifetime parameters but not type or const parameters"@,
            )
        }),
{
}

} // verus!

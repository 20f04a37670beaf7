//! Methods of a type that answer routes together.
use vstd::prelude::*;

use crate::macros::arguments::{ApiArguments, ArgToken, Codec, RouteArguments};
#[allow(unused_imports)]
use crate::macros::arguments::{route_arguments, token_models, ApiModel, TokenModel};
use crate::macros::endpoint::{parse_endpoint, Endpoint, FunctionSyntax, Parameter, ParameterSource};
#[allow(unused_imports)]
use crate::macros::endpoint::{
    auth_fault, endpoint_of, parameter_models, EndpointModel, FunctionModel, ParameterModel,
};
use crate::macros::groups::{group_endpoints, RouteGroup};
#[allow(unused_imports)]
use crate::macros::groups::{
    ambiguity, endpoint_models, group_models, is_duplicate, is_first_duplicate, is_grouping,
    GroupModel,
};
#[allow(unused_imports)]
use crate::macros::syntax::{principal_of, type_model, type_text, TypeModel};
use crate::macros::syntax::{authenticated_inner, TypeSyntax};
use crate::macros::SyntaxError;
use crate::text::same_text;

verus! {

/// An annotation of a function.
#[derive(Debug)]
pub struct AttributeSyntax {
    /// The last identifier of its path.
    pub name: String,
    pub arguments: Vec<ArgToken>,
}

impl View for AttributeSyntax {
    type V = (Seq<char>, Seq<TokenModel>);

    open spec fn view(&self) -> (Seq<char>, Seq<TokenModel>) {
        (self.name@, token_models(self.arguments@))
    }
}

pub open spec fn attribute_pairs(attributes: Seq<AttributeSyntax>) -> Seq<
    (Seq<char>, Seq<TokenModel>),
> {
    attributes.map_values(|attribute: AttributeSyntax| attribute@)
}

/// The method that an annotation of this name stands for.
pub open spec fn method_of(name: Seq<char>) -> Option<Seq<char>> {
    if name == "get"@ {
        Some("GET"@)
    } else if name == "post"@ {
        Some("POST"@)
    } else if name == "put"@ {
        Some("PUT"@)
    } else if name == "patch"@ {
        Some("PATCH"@)
    } else if name == "delete"@ {
        Some("DELETE"@)
    } else if name == "head"@ {
        Some("HEAD"@)
    } else if name == "options"@ {
        Some("OPTIONS"@)
    } else {
        None
    }
}

fn method_for(name: &str) -> (method: Option<&'static str>)
    ensures
        match method {
            Some(method) => method_of(name@) == Some(method@),
            None => method_of(name@) is None,
        },
{
    if same_text(name, "get") {
        Some("GET")
    } else if same_text(name, "post") {
        Some("POST")
    } else if same_text(name, "put") {
        Some("PUT")
    } else if same_text(name, "patch") {
        Some("PATCH")
    } else if same_text(name, "delete") {
        Some("DELETE")
    } else if same_text(name, "head") {
        Some("HEAD")
    } else if same_text(name, "options") {
        Some("OPTIONS")
    } else {
        None
    }
}

/// The first annotation from a position on that declares a route.
pub open spec fn route_annotation(
    attributes: Seq<(Seq<char>, Seq<TokenModel>)>,
    at: int,
) -> Option<int>
    decreases attributes.len() - at,
{
    if at < 0 || at >= attributes.len() {
        None
    } else if method_of(attributes[at].0) is Some {
        Some(at)
    } else {
        route_annotation(attributes, at + 1)
    }
}

/// Finds the annotation that declares a route, with its method.
pub fn route_attribute(attributes: &[AttributeSyntax]) -> (found: Option<(&'static str, usize)>)
    ensures
        match found {
            Some((method, index)) => {
                &&& route_annotation(attribute_pairs(attributes@), 0) == Some(index as int)
                &&& index < attributes@.len()
                &&& method_of(attributes@[index as int]@.0) == Some(method@)
            },
            None => route_annotation(attribute_pairs(attributes@), 0) is None,
        },
{
    let ghost pairs = attribute_pairs(attributes@);
    let mut i: usize = 0;
    while i < attributes.len()
        invariant
            0 <= i <= attributes@.len(),
            pairs == attribute_pairs(attributes@),
            route_annotation(pairs, 0) == route_annotation(pairs, i as int),
        decreases attributes@.len() - i,
    {
        assert(pairs[i as int] == attributes@[i as int]@);
        if let Some(method) = method_for(attributes[i].name.as_str()) {
            return Some((method, i));
        }
        i += 1;
    }
    None
}

/// A method of a type.
#[derive(Debug)]
pub struct MethodSyntax {
    pub function: FunctionSyntax,
    pub attributes: Vec<AttributeSyntax>,
}

/// What a [`MethodSyntax`] says.
pub struct MethodModel {
    pub function: FunctionModel,
    pub attributes: Seq<(Seq<char>, Seq<TokenModel>)>,
}

impl View for MethodSyntax {
    type V = MethodModel;

    open spec fn view(&self) -> MethodModel {
        MethodModel {
            function: self.function@,
            attributes: attribute_pairs(self.attributes@),
        }
    }
}

pub open spec fn method_models(methods: Seq<MethodSyntax>) -> Seq<MethodModel> {
    methods.map_values(|method: MethodSyntax| method@)
}

/// The methods of a type, with whether they implement a trait.
#[derive(Debug)]
pub struct ImplSyntax {
    pub of_trait: bool,
    pub methods: Vec<MethodSyntax>,
}

/// The endpoint that a method is, where it declares a route.
pub open spec fn method_endpoint(api: ApiModel, method: MethodModel) -> Option<
    Result<EndpointModel, Seq<char>>,
> {
    match route_annotation(method.attributes, 0) {
        None => None,
        Some(index) => Some(
            match route_arguments(method.attributes[index].1) {
                Err(message) => Err(message),
                Ok(route) => {
                    let consumes = match route.consumes {
                        Some(codec) => codec,
                        None => api.consumes,
                    };
                    let produces = match route.produces {
                        Some(codec) => codec,
                        None => api.produces,
                    };
                    let auth = match route.auth {
                        Some(auth) => auth,
                        None => api.auth,
                    };
                    if consumes != Codec::Json || produces != Codec::Json {
                        Err(
                            "protobuf API codecs are declared but not implemented yet; use json"@,
                        )
                    } else {
                        endpoint_of(
                            method_of(method.attributes[index].0)->Some_0,
                            api.prefix,
                            method.function,
                            route,
                            auth,
                        )
                    }
                },
            },
        ),
    }
}

/// The endpoints of the methods from a position on, behind others, or the first
/// fault in them.
pub open spec fn api_endpoints(
    api: ApiModel,
    methods: Seq<MethodModel>,
    at: int,
    done: Seq<EndpointModel>,
) -> Result<Seq<EndpointModel>, Seq<char>>
    decreases methods.len() - at,
{
    if at < 0 || at >= methods.len() {
        Ok(done)
    } else {
        match method_endpoint(api, methods[at]) {
            None => api_endpoints(api, methods, at + 1, done),
            Some(Err(message)) => Err(message),
            Some(Ok(endpoint)) => api_endpoints(api, methods, at + 1, done.push(endpoint)),
        }
    }
}

fn read_endpoint<'a>(api: &ApiArguments, method: &'a MethodSyntax) -> (outcome: Option<
    Result<Endpoint<'a>, SyntaxError>,
>)
    ensures
        match outcome {
            None => method_endpoint(api@, method@) is None,
            Some(Ok(endpoint)) => method_endpoint(api@, method@) == Some(
                Ok::<EndpointModel, Seq<char>>(endpoint@),
            ),
            Some(Err(error)) => method_endpoint(api@, method@) == Some(
                Err::<EndpointModel, Seq<char>>(error@),
            ),
        },
{
    let (name, index) = match route_attribute(method.attributes.as_slice()) {
        None => {
            return None;
        },
        Some(found) => found,
    };
    assert(attribute_pairs(method.attributes@)[index as int] == method.attributes@[index as int]@);
    let route = match RouteArguments::parse(method.attributes[index].arguments.as_slice()) {
        Err(error) => {
            return Some(Err(error));
        },
        Ok(route) => route,
    };
    let consumes = match route.consumes {
        Some(codec) => codec,
        None => api.consumes,
    };
    let produces = match route.produces {
        Some(codec) => codec,
        None => api.produces,
    };
    let auth = match route.auth {
        Some(auth) => auth,
        None => api.auth,
    };
    if consumes != Codec::Json || produces != Codec::Json {
        return Some(
            Err(
                SyntaxError::of(
                    "protobuf API codecs are declared but not implemented yet; use json",
                ),
            ),
        );
    }
    Some(parse_endpoint(name, api.prefix.as_str(), &method.function, &route, auth))
}

/// The principals that the first of the parameters are given.
pub open spec fn parameter_principals(parameters: Seq<ParameterModel>, count: int) -> Seq<TypeModel>
    decreases count,
{
    if count <= 0 {
        Seq::empty()
    } else {
        match (parameters[count - 1].source is Authenticated, principal_of(
            parameters[count - 1].ty,
        )) {
            (true, Some((principal, _))) => parameter_principals(parameters, count - 1).push(
                principal,
            ),
            _ => parameter_principals(parameters, count - 1),
        }
    }
}

/// The principals that the first of the endpoints are given.
pub open spec fn endpoint_principals(endpoints: Seq<EndpointModel>, count: int) -> Seq<TypeModel>
    decreases count,
{
    if count <= 0 {
        Seq::empty()
    } else {
        endpoint_principals(endpoints, count - 1) + parameter_principals(
            endpoints[count - 1].parameters,
            endpoints[count - 1].parameters.len() as int,
        )
    }
}

/// The principals that the endpoints of the first of the groups are given.
pub open spec fn group_principals(groups: Seq<GroupModel>, count: int) -> Seq<TypeModel>
    decreases count,
{
    if count <= 0 {
        Seq::empty()
    } else {
        group_principals(groups, count - 1) + endpoint_principals(
            groups[count - 1].endpoints,
            groups[count - 1].endpoints.len() as int,
        )
    }
}

/// Whether all principals are written alike.
pub open spec fn one_principal(principals: Seq<TypeModel>) -> bool {
    forall|i: int, j: int|
        0 <= i < principals.len() && 0 <= j < principals.len() ==> type_text(
            #[trigger] principals[i],
        ) == type_text(#[trigger] principals[j])
}

pub open spec fn types(list: Seq<&TypeSyntax>) -> Seq<TypeModel> {
    list.map_values(|ty: &TypeSyntax| ty.model())
}

fn add_principals<'a>(found: &mut Vec<&'a TypeSyntax>, parameters: &Vec<Parameter<'a>>)
    ensures
        types(final(found)@) == types(old(found)@) + parameter_principals(
            parameter_models(parameters@),
            parameters@.len() as int,
        ),
{
    let ghost models = parameter_models(parameters@);
    let ghost before = types(found@);
    let mut i: usize = 0;
    assert(before + parameter_principals(models, 0) =~= before);
    while i < parameters.len()
        invariant
            0 <= i <= parameters@.len(),
            models == parameter_models(parameters@),
            types(found@) == before + parameter_principals(models, i as int),
        decreases parameters@.len() - i,
    {
        assert(models[i as int] == parameters@[i as int]@);
        let ghost earlier = types(found@);
        if matches!(&parameters[i].source, ParameterSource::Authenticated) {
            if let Some((principal, _)) = authenticated_inner(parameters[i].ty) {
                found.push(principal);
                assert(types(found@) =~= earlier.push(principal.model()));
            }
        }
        i += 1;
        assert(types(found@) =~= before + parameter_principals(models, i as int));
    }
}

fn collect_principals<'a>(groups: &Vec<RouteGroup<'a>>) -> (found: Vec<&'a TypeSyntax>)
    ensures
        types(found@) == group_principals(group_models(groups@), groups@.len() as int),
{
    let ghost models = group_models(groups@);
    let mut found: Vec<&'a TypeSyntax> = Vec::new();
    let mut i: usize = 0;
    assert(types(found@) =~= Seq::empty());
    while i < groups.len()
        invariant
            0 <= i <= groups@.len(),
            models == group_models(groups@),
            types(found@) == group_principals(models, i as int),
        decreases groups@.len() - i,
    {
        let group = &groups[i];
        assert(models[i as int] == group@);
        let ghost endpoints = endpoint_models(group.endpoints@);
        let ghost before = types(found@);
        let mut j: usize = 0;
        assert(before + endpoint_principals(endpoints, 0) =~= before);
        while j < group.endpoints.len()
            invariant
                0 <= j <= group.endpoints@.len(),
                endpoints == endpoint_models(group.endpoints@),
                types(found@) == before + endpoint_principals(endpoints, j as int),
            decreases group.endpoints@.len() - j,
        {
            assert(endpoints[j as int] == group.endpoints@[j as int]@);
            add_principals(&mut found, &group.endpoints[j].parameters);
            j += 1;
            assert(types(found@) =~= before + endpoint_principals(endpoints, j as int));
        }
        i += 1;
    }
    found
}

/// The principal that endpoints are given, of which there is one at most.
pub fn authentication_principal<'a>(groups: &Vec<RouteGroup<'a>>) -> (outcome: Result<
    Option<&'a TypeSyntax>,
    SyntaxError,
>)
    ensures
        ({
            let principals = group_principals(group_models(groups@), groups@.len() as int);
            match outcome {
                Ok(Some(principal)) => one_principal(principals) && principals.len() > 0
                    && principal.model() == principals.last(),
                Ok(None) => principals.len() == 0,
                Err(error) => !one_principal(principals) && error@
                    == "one #[api] impl may inject only one authenticated principal type"@,
            }
        }),
{
    let found = collect_principals(groups);
    let ghost principals = types(found@);
    if found.len() == 0 {
        return Ok(None);
    }
    let mut i: usize = 0;
    while i < found.len()
        invariant
            0 <= i <= found@.len(),
            found@.len() > 0,
            principals == types(found@),
            principals == group_principals(group_models(groups@), groups@.len() as int),
            forall|j: int|
                0 <= j < i ==> type_text(#[trigger] principals[j]) == type_text(principals[0]),
        decreases found@.len() - i,
    {
        assert(principals[i as int] == found@[i as int].model());
        assert(principals[0] == found@[0].model());
        if !same_text(found[i].text(), found[0].text()) {
            return Err(
                SyntaxError::of(
                    "one #[api] impl may inject only one authenticated principal type",
                ),
            );
        }
        i += 1;
    }
    let last: usize = found.len() - 1;
    assert(principals[last as int] == found@[last as int].model());
    Ok(Some(found[last]))
}

/// What a handler of the methods of a type is made of.
#[derive(Debug)]
pub struct ApiPlan<'a> {
    pub groups: Vec<RouteGroup<'a>>,
    /// The principal that the authenticator has to give.
    pub principal: Option<&'a TypeSyntax>,
}

/// Whether a plan is one for these endpoints.
pub open spec fn is_plan(plan: ApiPlan<'_>, endpoints: Seq<EndpointModel>) -> bool {
    let groups = group_models(plan.groups@);
    let principals = group_principals(groups, groups.len() as int);
    &&& is_grouping(groups, endpoints)
    &&& one_principal(principals)
    &&& type_model(plan.principal) == (if principals.len() == 0 {
        None
    } else {
        Some(principals.last())
    })
}

/// Plans the handler of the methods of a type.
pub fn expand_api<'a>(arguments: &ApiArguments, input: &'a ImplSyntax) -> (outcome: Result<
    ApiPlan<'a>,
    SyntaxError,
>)
    ensures
        match api_endpoints(arguments@, method_models(input.methods@), 0, Seq::empty()) {
            _ if input.of_trait => outcome matches Err(error) && error@
                == "http_server::api requires an inherent impl"@,
            Err(message) => outcome matches Err(error) && error@ == message,
            Ok(endpoints) if endpoints.len() == 0 => outcome matches Err(error) && error@
                == "http_server::api requires at least one #[get], #[post], #[put], #[patch], or #[delete] method"@,
            Ok(endpoints) => match ambiguity(endpoints, 0) {
                Some(message) => outcome matches Err(error) && error@ == message,
                None => match outcome {
                    Ok(plan) => {
                        &&& is_plan(plan, endpoints)
                        &&& forall|path: Seq<char>, method: Seq<char>|
                            !#[trigger] is_duplicate(endpoints, path, method)
                    },
                    Err(error) => {
                        ||| exists|path: Seq<char>, method: Seq<char>|
                            #[trigger] is_first_duplicate(endpoints, path, method) && error@
                                == "duplicate "@ + method + " route "@ + path
                        ||| error@
                            == "one #[api] impl may inject only one authenticated principal type"@
                            && exists|groups: Seq<GroupModel>|
                            #[trigger] is_grouping(groups, endpoints) && !one_principal(
                                group_principals(groups, groups.len() as int),
                            )
                    },
                },
            },
        },
{
    if input.of_trait {
        return Err(SyntaxError::of("http_server::api requires an inherent impl"));
    }
    let ghost methods = method_models(input.methods@);
    let mut endpoints: Vec<Endpoint<'a>> = Vec::new();
    let mut i: usize = 0;
    assert(endpoint_models(endpoints@) =~= Seq::empty());
    while i < input.methods.len()
        invariant
            0 <= i <= input.methods@.len(),
            !input.of_trait,
            methods == method_models(input.methods@),
            api_endpoints(arguments@, methods, 0, Seq::empty()) == api_endpoints(
                arguments@,
                methods,
                i as int,
                endpoint_models(endpoints@),
            ),
        decreases input.methods@.len() - i,
    {
        assert(methods[i as int] == input.methods@[i as int]@);
        match read_endpoint(arguments, &input.methods[i]) {
            None => {},
            Some(Err(error)) => {
                return Err(error);
            },
            Some(Ok(endpoint)) => {
                let ghost before = endpoint_models(endpoints@);
                let ghost model = endpoint@;
                endpoints.push(endpoint);
                assert(endpoint_models(endpoints@) =~= before.push(model));
            },
        }
        i += 1;
    }
    if endpoints.len() == 0 {
        return Err(
            SyntaxError::of(
                "http_server::api requires at least one #[get], #[post], #[put], #[patch], or #[delete] method",
            ),
        );
    }
    let groups = match group_endpoints(endpoints) {
        Err(error) => {
            return Err(error);
        },
        Ok(groups) => groups,
    };
    match authentication_principal(&groups) {
        Err(error) => Err(error),
        Ok(principal) => Ok(ApiPlan { groups, principal }),
    }
}

proof fn lemma_endpoints_sound(
    api: ApiModel,
    methods: Seq<MethodModel>,
    at: int,
    done: Seq<EndpointModel>,
)
    requires
        0 <= at,
        api_endpoints(api, methods, at, done) is Ok,
        forall|i: int|
            0 <= i < done.len() ==> auth_fault(
                (#[trigger] done[i]).auth,
                done[i].parameters,
            ) is None,
    ensures
        forall|i: int|
            0 <= i < api_endpoints(api, methods, at, done)->Ok_0.len() ==> auth_fault(
                (#[trigger] api_endpoints(api, methods, at, done)->Ok_0[i]).auth,
                api_endpoints(api, methods, at, done)->Ok_0[i].parameters,
            ) is None,
    decreases methods.len() - at,
{
    if at < methods.len() {
        match method_endpoint(api, methods[at]) {
            Some(Ok(endpoint)) => {
                lemma_endpoints_sound(api, methods, at + 1, done.push(endpoint));
            },
            None => {
                lemma_endpoints_sound(api, methods, at + 1, done);
            },
            _ => {},
        }
    }
}

/// In every planned handler, a principal is asked for only where the caller is
/// authenticated, and in the way in which it is.
pub proof fn law_planned_principals_are_authenticated(
    api: ApiModel,
    methods: Seq<MethodModel>,
    groups: Seq<GroupModel>,
    group: int,
    endpoint: int,
)
    requires
        api_endpoints(api, methods, 0, Seq::empty()) is Ok,
        is_grouping(groups, api_endpoints(api, methods, 0, Seq::empty())->Ok_0),
        0 <= group < groups.len(),
        0 <= endpoint < groups[group].endpoints.len(),
    ensures
        auth_fault(
            groups[group].endpoints[endpoint].auth,
            groups[group].endpoints[endpoint].parameters,
        ) is None,
{
    let endpoints = api_endpoints(api, methods, 0, Seq::empty())->Ok_0;
    lemma_endpoints_sound(api, methods, 0, Seq::empty());
    assert(endpoints.contains(groups[group].endpoints[endpoint]));
    let n = choose|n: int| 0 <= n < endpoints.len() && endpoints[n] == groups[group].endpoints[endpoint];
    assert(auth_fault(endpoints[n].auth, endpoints[n].parameters) is None);
}

} // verus!

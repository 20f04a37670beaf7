use std::str::FromStr;

use brz_http_server::macros::api::{
    authentication_principal, expand_api, route_attribute, AttributeSyntax, ImplSyntax,
    MethodSyntax,
};
use brz_http_server::macros::arguments::{
    bound_header, parse_auth_mode, parse_codec, ApiArguments, ArgToken, AuthMode, Codec,
    PathSyntax, RouteArguments,
};
use brz_http_server::macros::derive::{expand_derive, Layout};
use brz_http_server::macros::dispatch::{
    answer_priority, group_methods, method_bit, route_methods, route_metrics, select, Selected,
};
use brz_http_server::macros::endpoint::{
    parse_endpoint, Endpoint, FunctionSyntax, InputSyntax, ParameterAttribute, ParameterSource,
    PatternSyntax,
};
use brz_http_server::macros::function::{
    expand, fresh_alias, gating_attribute, FreeFunction, MetaSyntax,
};
use brz_http_server::macros::groups::group_endpoints;
use brz_http_server::macros::paths::{
    accept_captures, captured_names, catches_all, join_path, literal_segments, normalize_prefix,
    parse_captures, route_priority, route_shape, validate_endpoint_path, validate_prefix,
};
use brz_http_server::macros::plan::{
    expand_authentication, expand_endpoint, expand_group, AuthPlan, Extraction, OnFailure,
    RefusedInput,
};
use brz_http_server::macros::registry::{
    group_path, registry_module, registry_names, server_crate_path, unraw_name, CollectArguments,
    FoundCrate, RegistryArguments,
};
use brz_http_server::macros::syntax::{
    authenticated_inner, binding_lifetime, is_byte_slice, is_scalar, option_inner, result_kind,
    ResultKind, TypeSyntax,
};
use brz_http_server::rejection::RejectionKind;
use proc_macro2::{Delimiter, TokenStream, TokenTree};

fn value(trees: &[TokenTree]) -> Option<ArgToken> {
    let stream: TokenStream = trees.iter().cloned().collect();
    if stream.is_empty() {
        return None;
    }
    if let [TokenTree::Ident(name)] = trees {
        return Some(ArgToken::Name(name.to_string()));
    }
    if let Ok(text) = syn::parse2::<syn::LitStr>(stream.clone()) {
        return Some(ArgToken::Text(text.value()));
    }
    match syn::parse2::<syn::Path>(stream.clone()) {
        Ok(path) if path.segments.iter().all(|segment| segment.arguments.is_none()) => {
            Some(ArgToken::Path(PathSyntax {
                leading_colon: path.leading_colon.is_some(),
                segments: path
                    .segments
                    .iter()
                    .map(|segment| segment.ident.to_string())
                    .collect(),
            }))
        }
        _ => Some(ArgToken::Value(stream.to_string())),
    }
}

fn convert(stream: TokenStream, out: &mut Vec<ArgToken>) {
    let trees: Vec<TokenTree> = stream.into_iter().collect();
    let mut at = 0;
    while at < trees.len() {
        let tree = &trees[at];
        at += 1;
        match tree {
            TokenTree::Ident(name) => out.push(ArgToken::Name(name.to_string())),
            TokenTree::Literal(literal) => {
                let stream = TokenStream::from(TokenTree::Literal(literal.clone()));
                out.push(match syn::parse2::<syn::LitStr>(stream) {
                    Ok(text) => ArgToken::Text(text.value()),
                    Err(_) => ArgToken::Other,
                });
            }
            TokenTree::Group(group) if group.delimiter() == Delimiter::Parenthesis => {
                out.push(ArgToken::Open);
                convert(group.stream(), out);
                out.push(ArgToken::Close);
            }
            TokenTree::Punct(punct) => match punct.as_char() {
                ',' => out.push(ArgToken::Comma),
                ';' => out.push(ArgToken::Semicolon),
                '=' | ':' => {
                    out.push(if punct.as_char() == '=' {
                        ArgToken::Equals
                    } else {
                        ArgToken::Colon
                    });
                    let start = at;
                    while at < trees.len()
                        && !matches!(&trees[at], TokenTree::Punct(end) if end.as_char() == ',' || end.as_char() == ';')
                    {
                        at += 1;
                    }
                    out.extend(value(&trees[start..at]));
                }
                _ => out.push(ArgToken::Other),
            },
            TokenTree::Group(_) => out.push(ArgToken::Other),
        }
    }
}

fn tokens(source: &str) -> Vec<ArgToken> {
    let mut out = Vec::new();
    convert(TokenStream::from_str(source).unwrap(), &mut out);
    out
}

fn written<T>(part: &T) -> String
where
    T: quote::ToTokens,
{
    part.to_token_stream().to_string()
}

fn type_syntax(ty: &syn::Type) -> TypeSyntax {
    let text = written(ty);
    match ty {
        syn::Type::Path(path) => {
            let last = path.path.segments.last().unwrap();
            let argument = match &last.arguments {
                syn::PathArguments::AngleBracketed(arguments) => match arguments.args.first() {
                    Some(syn::GenericArgument::Type(ty)) => Some(Box::new(type_syntax(ty))),
                    _ => None,
                },
                _ => None,
            };
            TypeSyntax::Path {
                name: last.ident.to_string(),
                single: path.path.get_ident().is_some(),
                argument,
                text,
            }
        }
        syn::Type::Reference(reference) => TypeSyntax::Reference {
            mutable: reference.mutability.is_some(),
            element: Box::new(type_syntax(&reference.elem)),
            text,
        },
        syn::Type::Slice(slice) => TypeSyntax::Slice {
            element: Box::new(type_syntax(&slice.elem)),
            text,
        },
        _ => TypeSyntax::Other { text },
    }
}

fn a_type(source: &str) -> TypeSyntax {
    type_syntax(&syn::parse_str(source).unwrap())
}

fn parameter_attribute(attribute: &syn::Attribute) -> ParameterAttribute {
    if attribute.path().is_ident("inject") {
        return match attribute.parse_args::<syn::Ident>() {
            Ok(name) => ParameterAttribute::Inject(name.to_string()),
            Err(_) => ParameterAttribute::InjectMalformed,
        };
    }
    if !attribute.path().is_ident("header") {
        return ParameterAttribute::Other;
    }
    match (&attribute.meta, attribute.parse_args::<syn::LitStr>()) {
        (syn::Meta::Path(_), _) => ParameterAttribute::Header,
        (_, Ok(name)) => ParameterAttribute::HeaderNamed(name.value()),
        _ => ParameterAttribute::HeaderMalformed,
    }
}

fn signature(sig: &syn::Signature, free: bool) -> FunctionSyntax {
    FunctionSyntax {
        name: sig.ident.to_string(),
        free,
        is_async: sig.asyncness.is_some(),
        generic: sig
            .generics
            .params
            .iter()
            .any(|param| !matches!(param, syn::GenericParam::Lifetime(_))),
        unsafe_signature: sig.unsafety.is_some() || sig.abi.is_some() || sig.variadic.is_some(),
        inputs: sig
            .inputs
            .iter()
            .map(|input| match input {
                syn::FnArg::Receiver(receiver) => InputSyntax::Receiver {
                    reference: receiver.reference.is_some(),
                },
                syn::FnArg::Typed(typed) => InputSyntax::Typed {
                    pattern: match typed.pat.as_ref() {
                        syn::Pat::Ident(ident)
                            if ident.by_ref.is_none() && ident.subpat.is_none() =>
                        {
                            PatternSyntax::Plain(ident.ident.to_string())
                        }
                        syn::Pat::Ident(ident) => PatternSyntax::Decorated(ident.ident.to_string()),
                        _ => PatternSyntax::Other,
                    },
                    ty: type_syntax(&typed.ty),
                    attributes: typed.attrs.iter().map(parameter_attribute).collect(),
                },
            })
            .collect(),
        output: match &sig.output {
            syn::ReturnType::Default => None,
            syn::ReturnType::Type(_, ty) => Some(type_syntax(ty)),
        },
    }
}

fn attributes(attrs: &[syn::Attribute]) -> Vec<AttributeSyntax> {
    attrs
        .iter()
        .map(|attribute| AttributeSyntax {
            name: attribute.path().segments.last().unwrap().ident.to_string(),
            arguments: match &attribute.meta {
                syn::Meta::List(list) => tokens(&list.tokens.to_string()),
                _ => Vec::new(),
            },
        })
        .collect()
}

fn function(source: &str) -> FreeFunction {
    let item: syn::ItemFn = syn::parse_str(source).unwrap();
    FreeFunction {
        function: signature(&item.sig, true),
        attributes: attributes(&item.attrs),
        gates: Vec::new(),
    }
}

fn inherent(source: &str) -> ImplSyntax {
    let item: syn::ItemImpl = syn::parse_str(source).unwrap();
    ImplSyntax {
        of_trait: item.trait_.is_some(),
        methods: item
            .items
            .iter()
            .filter_map(|item| match item {
                syn::ImplItem::Fn(method) => Some(MethodSyntax {
                    function: signature(&method.sig, false),
                    attributes: attributes(&method.attrs),
                }),
                _ => None,
            })
            .collect(),
    }
}

#[test]
fn rejects_ambiguous_or_unsupported_function_declarations() {
    for (route, source, expected) in [
        (
            "\"/\"",
            "async fn read(#[inject] state: &str) {}",
            "expected #[inject(dependency_name)]",
        ),
        (
            "\"/\"",
            "async fn read(#[inject(a)] #[inject(b)] state: &str) {}",
            "exactly one",
        ),
        (
            "\"/\"",
            "async fn read(#[inject(a)] state: &mut String) {}",
            "dependencies are shared",
        ),
        (
            "\"/\", headers(state = \"x-state\")",
            "async fn read(#[inject(a)] state: &str) {}",
            "cannot also bind",
        ),
        ("\"/\"", "fn read() {}", "must be async"),
        ("\"/\"", "async fn read<T>() {}", "not type or const"),
        ("\"/\"", "async fn read(&self) {}", "free function"),
        (
            "\"/\"",
            "#[post(\"/other\")] async fn read() {}",
            "one HTTP route attribute",
        ),
        ("\"/\"", "async unsafe fn read() {}", "safe Rust signature"),
        (
            "\"/\"",
            "async fn read((a, b): (u32, u32)) {}",
            "patterns must be identifiers",
        ),
        (
            "\"/\", prefix = \"/v1\"",
            "async fn read() {}",
            "supported route options",
        ),
    ] {
        let input = function(source);
        let error = expand("GET", &tokens(route), &input)
            .unwrap_err()
            .to_string();
        assert!(
            error.contains(expected),
            "expected {expected}, received {error}"
        );
    }
}

fn layout(source: &str) -> Layout {
    let input: syn::DeriveInput = syn::parse_str(source).unwrap();
    match &input.data {
        syn::Data::Struct(data) => match &data.fields {
            syn::Fields::Named(fields) => Layout::Named(
                fields
                    .named
                    .iter()
                    .map(|field| field.ident.as_ref().unwrap().to_string())
                    .collect(),
            ),
            _ => Layout::Unnamed,
        },
        _ => Layout::NotAStruct,
    }
}

#[test]
fn unsupported_layouts_produce_actionable_errors() {
    for (source, expected) in [
        ("enum Api { State(u32) }", "only be derived for a struct"),
        ("union Api { state: u32 }", "only be derived for a struct"),
        ("struct Api;", "named state field"),
        ("struct Api(u32);", "named state field"),
        ("struct Api {}", "field named state"),
        ("struct Api { context: u32 }", "field named state"),
        ("struct Api { state: u32, extra: bool }", "only field"),
    ] {
        let layout = layout(source);
        let error = expand_derive(&layout).unwrap_err();
        assert!(
            error.to_string().contains(expected),
            "{source}: {}",
            error.to_string()
        );
    }
}

#[test]
fn rejects_duplicate_dependency_declarations_and_values() {
    for source in [
        "dependencies(state: String, state: u64)",
        "dependencies(), dependencies()",
        "group = first, group = second",
        "state = AppState",
    ] {
        assert!(RegistryArguments::parse(&tokens(source)).is_err(), "{source}");
    }
    for source in [
        "state = one, state = two",
        "state, state",
        "state; group = first; group = second",
        "state; auth = Auth",
    ] {
        assert!(CollectArguments::parse(&tokens(source)).is_err(), "{source}");
    }
}

#[test]
fn a_single_state_field_is_derived() {
    assert_eq!(expand_derive(&layout("struct Api { state: u32 }")).unwrap(), "state");
    assert_eq!(expand_derive(&layout("struct Api { r#state: u32 }")).unwrap(), "r#state");
}

#[test]
fn registries_and_collections_are_read() {
    let registry = RegistryArguments::parse(&tokens(
        "group = admin, auth = AdminAuth, dependencies(state: Arc<AppState>, users: u64,)",
    ))
    .unwrap();
    assert_eq!(registry.name, "admin");
    assert_eq!(registry.auth.as_deref(), Some("AdminAuth"));
    assert_eq!(registry.dependencies[0].name, "state");
    assert_eq!(registry.dependencies[0].value, "Arc < AppState >");
    assert_eq!(registry.dependencies[1].value, "u64");
    let empty = RegistryArguments::parse(&tokens("")).unwrap();
    assert_eq!(empty.name, "http_apis");
    assert!(empty.dependencies.is_empty() && empty.auth.is_none());

    let collected = CollectArguments::parse(&tokens("state = build(1), users; group = a::admin")).unwrap();
    assert_eq!(collected.dependencies[0].value, "build (1)");
    assert_eq!(collected.dependencies[1].value, "users");
    assert_eq!(collected.registry.to_text(), "a::__http_registry_admin");
    let plain = CollectArguments::parse(&tokens("")).unwrap();
    assert_eq!(plain.registry.to_text(), "crate::__http_registry_http_apis");
}

#[test]
fn groups_map_to_generated_modules() {
    let path = |leading_colon, segments: &[&str]| {
        group_path(PathSyntax {
            leading_colon,
            segments: segments.iter().map(|text| text.to_string()).collect(),
        })
        .to_text()
    };
    assert_eq!(path(false, &["admin"]), "crate::__http_registry_admin");
    assert_eq!(path(false, &["r#type"]), "crate::__http_registry_type");
    assert_eq!(path(true, &["admin"]), "::__http_registry_admin");
    assert_eq!(path(false, &["crate", "x", "admin"]), "crate::x::__http_registry_admin");
    assert_eq!(registry_module("r#raw"), "__http_registry_raw");
    assert_eq!(unraw_name("r#raw"), "raw");
    assert_eq!(unraw_name("raw"), "raw");
    let names = registry_names("admin");
    assert_eq!(names.module, "__http_registry_admin");
    assert_eq!(names.state, "__HttpDependencies_admin");
    assert_eq!(names.auth, "__HttpRegistryAuth_admin");
    assert_eq!(server_crate_path(&FoundCrate::Itself), "crate");
    assert_eq!(server_crate_path(&FoundCrate::Named("web-server".to_owned())), "::web_server");
    assert_eq!(server_crate_path(&FoundCrate::Missing), "::http_server");
}

#[test]
fn captures_are_checked() {
    assert_eq!(captured_names("/a/:id/*rest"), ["id", "rest"]);
    assert_eq!(parse_captures("/a/:id/*rest").unwrap(), ["id", "rest"]);
    assert_eq!(accept_captures("/:id", &vec![true]).unwrap(), ["id"]);
    assert!(accept_captures("/:id", &vec![false]).is_err());
    for path in ["/:", "/:1", "/:id/:id", "/*rest/more", "/:fn"] {
        assert!(parse_captures(path).is_err(), "{path}");
    }
}

#[test]
fn paths_are_checked_and_joined() {
    assert!(validate_prefix("").is_ok());
    assert!(validate_prefix("/v1").is_ok());
    assert!(validate_prefix("v1").is_err());
    assert!(validate_endpoint_path("/a").is_ok());
    assert!(validate_endpoint_path("a").is_err());
    assert!(validate_prefix("/").is_ok());
    assert!(validate_prefix("/v1/").is_err());
    assert!(validate_endpoint_path("/a/").is_err());
    assert_eq!(normalize_prefix("/".to_owned()), "");
    assert_eq!(normalize_prefix("/v1".to_owned()), "/v1");
    assert_eq!(join_path("/v1", "/users"), "/v1/users");
    assert_eq!(join_path("", "/users"), "/users");
    assert_eq!(join_path("/v1", "/"), "/v1");
    assert_eq!(route_shape("/users/:id/x/*rest"), route_shape("/users/:name/x/*all"));
    assert_ne!(route_shape("/users/:id"), route_shape("/users/id"));
    assert_eq!(literal_segments("/users/:id/x"), 3);
    assert!(catches_all("/users/*rest"));
    assert!(!catches_all("/users/:id"));
}

#[test]
fn literal_routes_come_before_captures_and_catch_alls() {
    let literal = route_priority("/users/me");
    let capture = route_priority("/users/:id");
    let rest = route_priority("/users/*rest");
    assert!(literal > capture && capture > rest, "{literal} {capture} {rest}");
    assert!(route_priority("/a/b/:c") > route_priority("/a/:b/:c"));
}

#[test]
fn options_are_read_with_their_defaults() {
    let api = ApiArguments::parse(&tokens("prefix = \"/v1\", auth = optional, consumes = json")).unwrap();
    assert_eq!(api.prefix, "/v1");
    assert_eq!(api.auth, AuthMode::Optional);
    assert_eq!((api.consumes, api.produces), (Codec::Json, Codec::Json));
    assert!(api.register);
    assert!(!ApiArguments::parse(&tokens("register = false")).unwrap().register);
    assert!(ApiArguments::parse(&tokens("register = 0")).is_err());
    assert_eq!(ApiArguments::parse(&[]).unwrap().auth, AuthMode::Off);
    assert!(ApiArguments::parse(&tokens("path = \"/\""))
        .unwrap_err()
        .to_string()
        .contains("supported api options"));
    assert_eq!(parse_codec(&tokens("protobuf"), 0).unwrap(), Codec::Protobuf);
    assert!(parse_codec(&tokens("xml"), 0).is_err());
    assert_eq!(parse_auth_mode(&tokens("required"), 0).unwrap(), AuthMode::Required);
    assert!(parse_auth_mode(&tokens("maybe"), 0).is_err());

    let route = RouteArguments::parse(&tokens(
        "\"/a\", auth = required, group = x::admin, headers(token = \"x-token\", id = \"x-id\")",
    ))
    .unwrap();
    assert_eq!(route.path, "/a");
    assert_eq!(route.auth, Some(AuthMode::Required));
    assert_eq!(bound_header(&route.headers, "id").unwrap(), "x-id");
    assert!(bound_header(&route.headers, "other").is_none());
    assert!(route.api_log);
    assert!(!RouteArguments::parse(&tokens("\"/health\", api_log = false")).unwrap().api_log);
    assert!(RouteArguments::parse(&tokens("\"/\", access = public")).is_ok());
    assert!(RouteArguments::parse(&tokens("\"/\", access = all")).is_err());
    assert!(RouteArguments::parse(&tokens("path")).is_err());
}

#[test]
fn types_are_told_apart() {
    assert_eq!(option_inner(&a_type("Option<u32>")).unwrap().text(), "u32");
    assert!(option_inner(&a_type("Vec<u32>")).is_none());
    let principal = a_type("Option<Authenticated<User>>");
    let (inner, optional) = authenticated_inner(&principal).unwrap();
    assert_eq!((inner.text(), optional), ("User", true));
    assert!(!authenticated_inner(&a_type("Authenticated<User>")).unwrap().1);
    for scalar in ["u32", "String", "bool", "&str", "f64"] {
        assert!(is_scalar(&a_type(scalar)), "{scalar}");
    }
    assert!(!is_scalar(&a_type("User")));
    assert!(is_byte_slice(&a_type("&[u8]")));
    assert!(!is_byte_slice(&a_type("&[u16]")));
    assert!(result_kind(None).is_err());
    assert_eq!(
        result_kind(Some(&a_type("Result<u8, ApiError>"))).unwrap(),
        ResultKind::Result
    );
    assert_eq!(result_kind(Some(&a_type("u8"))).unwrap(), ResultKind::Value);
    assert_eq!(binding_lifetime("static"), "static");
    assert_eq!(binding_lifetime("a"), "_");
}

fn endpoint<'a>(function: &'a FunctionSyntax, route: &str) -> Endpoint<'a> {
    let route = RouteArguments::parse(&tokens(route)).unwrap();
    let auth = route.auth.unwrap_or(AuthMode::Off);
    parse_endpoint("GET", "", function, &route, auth).unwrap()
}

fn refusal(source: &str, route: &str) -> String {
    let function = function(source).function;
    let route = RouteArguments::parse(&tokens(route)).unwrap();
    let auth = route.auth.unwrap_or(AuthMode::Off);
    parse_endpoint("GET", "", &function, &route, auth)
        .unwrap_err()
        .to_string()
}

#[test]
fn parameters_are_bound_by_place_name_and_type() {
    let input = function(
        "async fn read(#[inject(db)] store: &Db, id: u32, #[header] trace: Option<&str>, #[header(\"x-key\")] key: String, page: u32, tags: Vec<String>, filter: Option<bool>, user: Authenticated<User>, body: Input) -> Result<u8, ApiError> {}",
    )
    .function;
    let endpoint = endpoint(&input, "\"/:id\", auth = required");
    assert_eq!(endpoint.path, "/:id");
    assert_eq!(endpoint.handler, "read");
    assert_eq!(endpoint.result, ResultKind::Result);
    assert!(endpoint.has_json_body);
    let names: Vec<&str> = endpoint.parameters.iter().map(|parameter| parameter.ident).collect();
    assert_eq!(
        names,
        ["store", "id", "trace", "key", "page", "tags", "filter", "user", "body"]
    );
    let sources: Vec<&ParameterSource> = endpoint.parameters.iter().map(|parameter| &parameter.source).collect();
    assert!(matches!(sources[0], ParameterSource::Injected("db")));
    assert!(matches!(sources[1], ParameterSource::Path(0)));
    assert!(matches!(sources[2], ParameterSource::Header { name, optional_inner: Some(_) } if name == "trace"));
    assert!(matches!(sources[3], ParameterSource::Header { name, optional_inner: None } if name == "x-key"));
    assert!(matches!(sources[4], ParameterSource::Query { key: "page", optional_inner: None }));
    assert!(matches!(sources[5], ParameterSource::QueryMany(inner) if inner.text() == "String"));
    assert!(matches!(sources[6], ParameterSource::Query { key: "filter", optional_inner: Some(_) }));
    assert!(matches!(sources[7], ParameterSource::Authenticated));
    assert!(matches!(sources[8], ParameterSource::JsonBody));

    let plan = expand_endpoint(&endpoint);
    assert!(plan.checks_json);
    assert_eq!(plan.arguments, names);
    assert!(matches!(
        plan.authentication,
        AuthPlan::Bind { required: true, ident: "user", .. }
    ));
    let bound: Vec<&str> = plan.bindings.iter().map(|binding| binding.ident).collect();
    assert_eq!(bound, ["store", "id", "trace", "key", "page", "tags", "filter", "body"]);
    assert!(matches!(plan.bindings[0].extraction, Extraction::Borrowed("db")));
    assert!(matches!(plan.bindings[0].on_failure, OnFailure::Never));
    assert!(matches!(plan.bindings[1].extraction, Extraction::Path(0)));
    assert!(matches!(
        plan.bindings[1].on_failure,
        OnFailure::Reject { kind: RejectionKind::Path, input: RefusedInput::Capture(0) }
    ));
    assert!(matches!(
        plan.bindings[3].on_failure,
        OnFailure::Reject { kind: RejectionKind::Header, input: RefusedInput::Header("x-key") }
    ));
    assert!(matches!(plan.bindings[7].extraction, Extraction::Json));
}

#[test]
fn bodies_are_told_apart() {
    for (ty, expected) in [
        ("Form<Input>", "FormBody"),
        ("Multipart", "MultipartBody"),
        ("Body<'_>", "RawBody"),
        ("&[u8]", "BorrowedBody"),
        ("Query<Input>", "QueryObject"),
        ("Input", "JsonBody"),
    ] {
        let input = function(&format!("async fn read(input: {ty}) -> u8 {{}}")).function;
        let endpoint = endpoint(&input, "\"/\"");
        assert_eq!(format!("{:?}", endpoint.parameters[0].source), expected, "{ty}");
    }
}

#[test]
fn faulty_endpoints_are_refused() {
    for (source, route, expected) in [
        ("async fn read() -> u8 {}", "\"/:id\"", "route has more path captures than method parameters"),
        ("async fn read(other: u32) -> u8 {}", "\"/:id\"", "path capture :id must bind parameter id in route order"),
        ("async fn read(a: A, b: B) -> u8 {}", "\"/\"", "an HTTP API method may have at most one body parameter"),
        ("async fn read(user: Authenticated<User>) -> u8 {}", "\"/\"", "Authenticated<T> requires auth = required or auth = optional"),
        (
            "async fn read(user: Option<Authenticated<User>>) -> u8 {}",
            "\"/\", auth = required",
            "auth = required injects Authenticated<T>, not Option<Authenticated<T>>",
        ),
        ("async fn read(#[header(1)] a: u32) -> u8 {}", "\"/\"", "header"),
        ("async fn read(#[header] #[header] a: u32) -> u8 {}", "\"/\"", "header"),
        ("async fn read() -> u8 {}", "\"/\", headers(a = \"b\")", "headers(...) binds unknown parameter a"),
        ("async fn read() -> u8 {}", "\"no-slash\"", "endpoint paths must start with /"),
    ] {
        let message = refusal(source, route);
        assert!(message.contains(expected), "{source} {route}: {message}");
    }
}

#[test]
fn unauthenticated_arguments_are_planned_without_principals() {
    for (route, required) in [
        ("\"/\", auth = required", Some(true)),
        ("\"/\", auth = optional", Some(false)),
        ("\"/\"", None),
    ] {
        let input = function("async fn read() -> u8 {}").function;
        let endpoint = endpoint(&input, route);
        let plan = expand_authentication(&endpoint);
        match required {
            Some(expected) => {
                assert!(matches!(plan, AuthPlan::Check { required } if required == expected))
            }
            None => assert!(matches!(plan, AuthPlan::Nothing)),
        }
    }
}

const USERS: &str = "impl Api {
    #[get(\"/users/:id\")] async fn read(&self, id: u32) -> u8 { 0 }
    #[get(\"/users/me\")] async fn me(&self) -> u8 { 0 }
    #[put(\"/users/:id\")] async fn write(&self, id: u32) -> u8 { 0 }
    #[get(\"/users/*rest\")] async fn rest(&self, rest: String) -> u8 { 0 }
    fn helper(&self) -> u8 {}
}";

#[test]
fn methods_are_grouped_and_selected() {
    let input = inherent(USERS);
    let plan = expand_api(&ApiArguments::parse(&[]).unwrap(), &input).unwrap();
    assert!(plan.principal.is_none());
    let paths: Vec<&str> = plan.groups.iter().map(|group| group.path.as_str()).collect();
    assert_eq!(paths, ["/users/me", "/users/:id", "/users/*rest"]);
    assert_eq!(method_bit("GET") | method_bit("PUT"), group_methods(&plan.groups[1]));
    assert_eq!(expand_group(&plan.groups[1]).arms.len(), 2);
    assert_eq!(
        select(&plan.groups, "/users/me", "GET"),
        Selected::Endpoint { group: 0, endpoint: 0 }
    );
    // A more specific path that does not answer the method leaves it to the next.
    let Selected::Endpoint { group, endpoint } = select(&plan.groups, "/users/me", "PUT") else {
        panic!("the capture answers");
    };
    assert_eq!(plan.groups[group].endpoints[endpoint].handler, "write");
    assert_eq!(
        select(&plan.groups, "/users/me", "DELETE"),
        Selected::Unmatched { methods: method_bit("GET") | method_bit("PUT") }
    );
    assert_eq!(
        select(&plan.groups, "/other", "GET"),
        Selected::Unmatched { methods: 0 }
    );
    assert_eq!(route_methods(&plan.groups, "/users/a/b"), method_bit("GET"));
    assert_eq!(route_metrics(&plan.groups, "/users/7", "PUT"), Some(1));
    assert_eq!(
        answer_priority(&plan.groups, "/users/me", "PUT"),
        Some(route_priority("/users/:id"))
    );
    assert_eq!(answer_priority(&plan.groups, "/other", "PUT"), None);
}

#[test]
fn faulty_impls_are_refused() {
    for (source, expected) in [
        ("impl Trait for Api { #[get(\"/\")] async fn a(&self) -> u8 {} }", "inherent impl"),
        ("impl Api { fn a(&self) {} }", "at least one"),
        (
            "impl Api { #[get(\"/a\")] async fn a(&self) -> u8 {} #[get(\"/a\")] async fn b(&self) -> u8 {} }",
            "duplicate GET route /a",
        ),
        (
            "impl Api { #[get(\"/:a\")] async fn a(&self, a: u8) -> u8 {} #[put(\"/:b\")] async fn b(&self, b: u8) -> u8 {} }",
            "/:",
        ),
        (
            "impl Api { #[get(\"/a\", auth = required)] async fn a(&self, u: Authenticated<A>) -> u8 {} #[get(\"/b\", auth = required)] async fn b(&self, u: Authenticated<B>) -> u8 {} }",
            "only one authenticated principal type",
        ),
        ("impl Api { #[get(\"/a\")] async fn a(self) -> u8 {} }", "HTTP API methods must begin with &self"),
        (
            "impl Api { #[get(\"/a\", consumes = protobuf)] async fn a(&self) -> u8 {} }",
            "protobuf",
        ),
    ] {
        let input = inherent(source);
        let error = expand_api(&ApiArguments::parse(&[]).unwrap(), &input)
            .unwrap_err()
            .to_string();
        assert!(error.contains(expected), "{source}: {error}");
    }
}

#[test]
fn one_principal_is_found_among_groups() {
    let input = inherent(
        "impl Api { #[get(\"/a\", auth = required)] async fn a(&self, u: Authenticated<A>) -> u8 {} #[get(\"/b\", auth = optional)] async fn b(&self, u: Option<Authenticated<A>>) -> u8 {} }",
    );
    let plan = expand_api(&ApiArguments::parse(&[]).unwrap(), &input).unwrap();
    assert_eq!(plan.principal.unwrap().text(), "A");
    assert_eq!(
        authentication_principal(&plan.groups).unwrap().unwrap().text(),
        "A"
    );
    assert!(group_endpoints(Vec::new()).unwrap().is_empty());
}

#[test]
fn route_attributes_are_found_by_their_last_name() {
    let found = attributes(
        &syn::parse_str::<syn::ItemFn>("#[doc = \"x\"] #[http::post(\"/\")] fn a() -> u8 {}")
            .unwrap()
            .attrs,
    );
    assert_eq!(route_attribute(&found), Some(("POST", 1)));
    assert_eq!(route_attribute(&[]), None);
}

#[test]
fn functions_are_exported_under_fresh_names() {
    let input = function("async fn r#read(__http_business_function: u32) -> u8 { 0 }");
    let plan = expand("GET", &tokens("\"/a\""), &input).unwrap();
    assert_eq!(plan.registry.to_text(), "crate::__http_registry_http_apis");
    assert_eq!(plan.adapter, "__HttpEndpoint_read");
    assert_eq!(plan.alias, "__http_business_function_");
    assert_eq!(plan.endpoint.path, "/a");
    assert!(plan.endpoint.api_log);
    let quiet = expand("GET", &tokens("\"/a\", api_log = false"), &input).unwrap();
    assert!(!quiet.endpoint.api_log);
    assert!(plan.gates.is_empty());
    assert_eq!(fresh_alias(&Vec::new()), "__http_business_function");
}

#[test]
fn only_gates_are_passed_on() {
    let gate = |meta: MetaSyntax| gating_attribute(&meta);
    assert_eq!(
        gate(MetaSyntax::Cfg("cfg(a)".to_owned())).unwrap().as_deref(),
        Some("cfg(a)")
    );
    assert_eq!(gate(MetaSyntax::Other).unwrap(), None);
    assert!(gate(MetaSyntax::CfgAttr { condition: None, entries: Vec::new() }).is_err());
    assert_eq!(
        gate(MetaSyntax::CfgAttr {
            condition: Some("unix".to_owned()),
            entries: vec![MetaSyntax::Other, MetaSyntax::Cfg("cfg(b)".to_owned())],
        })
        .unwrap()
        .as_deref(),
        Some("cfg_attr(unix, cfg(b))")
    );
    assert_eq!(
        gate(MetaSyntax::CfgAttr {
            condition: Some("unix".to_owned()),
            entries: vec![MetaSyntax::Other],
        })
        .unwrap(),
        None
    );
}

//! Endpoints: functions that answer a route.
use vstd::prelude::*;

use crate::macros::arguments::{bound_header, AuthMode, HeaderBinding, RouteArguments};
#[allow(unused_imports)]
use crate::macros::arguments::{binding_models, names_pair, RouteModel};
use crate::macros::paths::{holds_text, join_path, parse_captures, route_shape, validate_endpoint_path};
#[allow(unused_imports)]
use crate::macros::paths::{endpoint_path_fault, joined_path, shape_of, template_captures, texts_or_message};
#[allow(unused_imports)]
use crate::macros::registry::unraw;
use crate::macros::registry::unraw_name;
#[allow(unused_imports)]
use crate::macros::syntax::{
    byte_slice, inner_of, kind_of_result, named, optional_of, principal_of, scalar, type_model,
    TypeModel,
};
use crate::macros::syntax::{
    authenticated_inner, generic_inner, has_name, is_byte_slice, is_scalar, option_inner,
    result_kind, ResultKind, TypeSyntax,
};
use crate::macros::SyntaxError;
#[allow(unused_imports)]
use crate::text::string_texts;
use crate::text::same_text;

verus! {

/// The pattern of a parameter.
#[derive(Debug)]
pub enum PatternSyntax {
    /// An identifier.
    Plain(String),
    /// An identifier that is bound by reference or has a pattern of its own.
    Decorated(String),
    Other,
}

/// An annotation of a parameter.
#[derive(Debug)]
pub enum ParameterAttribute {
    /// `#[inject(name)]`
    Inject(String),
    /// `#[inject]` without an identifier in it.
    InjectMalformed,
    /// `#[header]`
    Header,
    /// `#[header("name")]`
    HeaderNamed(String),
    /// `#[header]` with anything else in it.
    HeaderMalformed,
    Other,
}

/// What a [`ParameterAttribute`] says.
pub enum AttributeModel {
    Inject(Seq<char>),
    InjectMalformed,
    Header,
    HeaderNamed(Seq<char>),
    HeaderMalformed,
    Other,
}

impl View for ParameterAttribute {
    type V = AttributeModel;

    open spec fn view(&self) -> AttributeModel {
        match self {
            ParameterAttribute::Inject(name) => AttributeModel::Inject(name@),
            ParameterAttribute::InjectMalformed => AttributeModel::InjectMalformed,
            ParameterAttribute::Header => AttributeModel::Header,
            ParameterAttribute::HeaderNamed(name) => AttributeModel::HeaderNamed(name@),
            ParameterAttribute::HeaderMalformed => AttributeModel::HeaderMalformed,
            ParameterAttribute::Other => AttributeModel::Other,
        }
    }
}

pub open spec fn attribute_models(attributes: Seq<ParameterAttribute>) -> Seq<AttributeModel> {
    attributes.map_values(|attribute: ParameterAttribute| attribute@)
}

/// A parameter of a function.
#[derive(Debug)]
pub enum InputSyntax {
    /// `self`, and whether it is a reference.
    Receiver { reference: bool },
    Typed { pattern: PatternSyntax, ty: TypeSyntax, attributes: Vec<ParameterAttribute> },
}

/// What an [`InputSyntax`] says: the identifier is absent where the pattern has
/// none.
pub enum InputModel {
    Receiver { reference: bool },
    Typed { ident: Option<Seq<char>>, ty: TypeModel, attributes: Seq<AttributeModel> },
}

pub open spec fn pattern_ident(pattern: PatternSyntax) -> Option<Seq<char>> {
    match pattern {
        PatternSyntax::Plain(ident) => Some(ident@),
        PatternSyntax::Decorated(ident) => Some(ident@),
        PatternSyntax::Other => None,
    }
}

impl View for InputSyntax {
    type V = InputModel;

    open spec fn view(&self) -> InputModel {
        match self {
            InputSyntax::Receiver { reference } => InputModel::Receiver { reference: *reference },
            InputSyntax::Typed { pattern, ty, attributes } => InputModel::Typed {
                ident: pattern_ident(*pattern),
                ty: ty.model(),
                attributes: attribute_models(attributes@),
            },
        }
    }
}

pub open spec fn input_models(inputs: Seq<InputSyntax>) -> Seq<InputModel> {
    inputs.map_values(|input: InputSyntax| input@)
}

/// A function, as far as the rules for routes read it.
#[derive(Debug)]
pub struct FunctionSyntax {
    pub name: String,
    /// Whether it stands alone, and not among the methods of a type.
    pub free: bool,
    pub is_async: bool,
    /// Whether it has type or constant parameters.
    pub generic: bool,
    /// Whether it is unsafe, foreign or variadic.
    pub unsafe_signature: bool,
    pub inputs: Vec<InputSyntax>,
    pub output: Option<TypeSyntax>,
}

/// What a [`FunctionSyntax`] says.
pub struct FunctionModel {
    pub name: Seq<char>,
    pub free: bool,
    pub is_async: bool,
    pub generic: bool,
    pub inputs: Seq<InputModel>,
    pub output: Option<TypeModel>,
}

impl View for FunctionSyntax {
    type V = FunctionModel;

    open spec fn view(&self) -> FunctionModel {
        FunctionModel {
            name: self.name@,
            free: self.free,
            is_async: self.is_async,
            generic: self.generic,
            inputs: input_models(self.inputs@),
            output: match self.output {
                Some(ty) => Some(ty.model()),
                None => None,
            },
        }
    }
}

/// The dependency that annotations name, or what is wrong with them.
pub open spec fn injected(
    attributes: Seq<AttributeModel>,
    at: int,
    found: Option<Seq<char>>,
) -> Result<Option<Seq<char>>, Seq<char>>
    decreases attributes.len() - at,
{
    if at < 0 || at >= attributes.len() {
        Ok(found)
    } else {
        match attributes[at] {
            AttributeModel::Inject(name) => if found is Some {
                Err("specify exactly one #[inject(name)] per parameter"@)
            } else {
                injected(attributes, at + 1, Some(name))
            },
            AttributeModel::InjectMalformed => if found is Some {
                Err("specify exactly one #[inject(name)] per parameter"@)
            } else {
                Err("expected #[inject(dependency_name)]"@)
            },
            _ => injected(attributes, at + 1, found),
        }
    }
}

/// The dependency that a parameter is given.
pub open spec fn injection_of(ty: TypeModel, attributes: Seq<AttributeModel>) -> Result<
    Option<Seq<char>>,
    Seq<char>,
> {
    match injected(attributes, 0, None) {
        Err(message) => Err(message),
        Ok(None) => Ok(None),
        Ok(Some(name)) => match ty {
            TypeModel::Reference { mutable: true, .. } => Err(
                "injected dependencies are shared; use &T or an owned Clone type with interior mutability"@,
            ),
            _ => Ok(Some(name)),
        },
    }
}

pub open spec fn name_or_message(outcome: Result<Option<&str>, SyntaxError>) -> Result<
    Option<Seq<char>>,
    Seq<char>,
> {
    match outcome {
        Ok(Some(name)) => Ok(Some(name@)),
        Ok(None) => Ok(None),
        Err(error) => Err(error@),
    }
}

pub fn injection<'a>(ty: &TypeSyntax, attributes: &'a Vec<ParameterAttribute>) -> (outcome: Result<
    Option<&'a str>,
    SyntaxError,
>)
    ensures
        name_or_message(outcome) == injection_of(ty.model(), attribute_models(attributes@)),
{
    let ghost models = attribute_models(attributes@);
    let mut found: Option<&str> = None;
    let mut i: usize = 0;
    while i < attributes.len()
        invariant
            0 <= i <= attributes@.len(),
            models == attribute_models(attributes@),
            injected(models, 0, None) == injected(
                models,
                i as int,
                match found {
                    Some(name) => Some(name@),
                    None => None,
                },
            ),
        decreases attributes@.len() - i,
    {
        assert(models[i as int] == attributes@[i as int]@);
        match &attributes[i] {
            ParameterAttribute::Inject(name) => {
                if found.is_some() {
                    return Err(SyntaxError::of("specify exactly one #[inject(name)] per parameter"));
                }
                found = Some(name.as_str());
            },
            ParameterAttribute::InjectMalformed => {
                if found.is_some() {
                    return Err(SyntaxError::of("specify exactly one #[inject(name)] per parameter"));
                }
                return Err(SyntaxError::of("expected #[inject(dependency_name)]"));
            },
            _ => {},
        }
        i += 1;
    }
    if found.is_some() {
        if let TypeSyntax::Reference { mutable, .. } = ty {
            if *mutable {
                return Err(
                    SyntaxError::of(
                        "injected dependencies are shared; use &T or an owned Clone type with interior mutability",
                    ),
                );
            }
        }
    }
    Ok(found)
}

/// The header that annotations name for a parameter, or what is wrong with them.
pub open spec fn annotated_header(
    ident: Seq<char>,
    attributes: Seq<AttributeModel>,
    at: int,
    found: Option<Seq<char>>,
) -> Result<Option<Seq<char>>, Seq<char>>
    decreases attributes.len() - at,
{
    if at < 0 || at >= attributes.len() {
        Ok(found)
    } else {
        match attributes[at] {
            AttributeModel::Header => if found is Some {
                Err("specify exactly one #[header] per parameter"@)
            } else {
                annotated_header(ident, attributes, at + 1, Some(unraw(ident)))
            },
            AttributeModel::HeaderNamed(name) => if found is Some {
                Err("specify exactly one #[header] per parameter"@)
            } else {
                annotated_header(ident, attributes, at + 1, Some(name))
            },
            AttributeModel::HeaderMalformed => if found is Some {
                Err("specify exactly one #[header] per parameter"@)
            } else {
                Err("expected #[header] or #[header(\"name\")]"@)
            },
            _ => annotated_header(ident, attributes, at + 1, found),
        }
    }
}

/// The header that a parameter is annotated with: its own name, or a given one.
pub fn header_annotation<'a>(ident: &'a str, attributes: &'a Vec<ParameterAttribute>) -> (outcome:
    Result<Option<&'a str>, SyntaxError>)
    ensures
        name_or_message(outcome) == annotated_header(
            ident@,
            attribute_models(attributes@),
            0,
            None,
        ),
{
    let ghost models = attribute_models(attributes@);
    let mut found: Option<&str> = None;
    let mut i: usize = 0;
    while i < attributes.len()
        invariant
            0 <= i <= attributes@.len(),
            models == attribute_models(attributes@),
            annotated_header(ident@, models, 0, None) == annotated_header(
                ident@,
                models,
                i as int,
                match found {
                    Some(name) => Some(name@),
                    None => None,
                },
            ),
        decreases attributes@.len() - i,
    {
        assert(models[i as int] == attributes@[i as int]@);
        match &attributes[i] {
            ParameterAttribute::Header => {
                if found.is_some() {
                    return Err(SyntaxError::of("specify exactly one #[header] per parameter"));
                }
                found = Some(unraw_name(ident));
            },
            ParameterAttribute::HeaderNamed(name) => {
                if found.is_some() {
                    return Err(SyntaxError::of("specify exactly one #[header] per parameter"));
                }
                found = Some(name.as_str());
            },
            ParameterAttribute::HeaderMalformed => {
                if found.is_some() {
                    return Err(SyntaxError::of("specify exactly one #[header] per parameter"));
                }
                return Err(SyntaxError::of("expected #[header] or #[header(\"name\")]"));
            },
            _ => {},
        }
        i += 1;
    }
    Ok(found)
}


/// How a parameter is bound by its annotations.
#[derive(Debug)]
pub enum Binding<'a> {
    /// Not at all: it is bound by its place, its name and its type.
    Plain,
    /// To a dependency.
    Injected(&'a str),
    /// To a header.
    Header(&'a str),
}

/// What a [`Binding`] says.
pub enum BindingModel {
    Plain,
    Injected(Seq<char>),
    Header(Seq<char>),
}

impl<'a> View for Binding<'a> {
    type V = BindingModel;

    open spec fn view(&self) -> BindingModel {
        match self {
            Binding::Plain => BindingModel::Plain,
            Binding::Injected(name) => BindingModel::Injected(name@),
            Binding::Header(name) => BindingModel::Header(name@),
        }
    }
}

/// A parameter with the binding of its annotations.
#[derive(Debug)]
pub struct Declared<'a> {
    pub ident: &'a str,
    pub ty: &'a TypeSyntax,
    pub binding: Binding<'a>,
}

/// What a [`Declared`] says.
#[verifier::ext_equal]
pub struct DeclaredModel {
    pub ident: Seq<char>,
    pub ty: TypeModel,
    pub binding: BindingModel,
}

impl<'a> View for Declared<'a> {
    type V = DeclaredModel;

    open spec fn view(&self) -> DeclaredModel {
        DeclaredModel { ident: self.ident@, ty: self.ty.model(), binding: self.binding@ }
    }
}

pub open spec fn declared_models(declared: Seq<Declared<'_>>) -> Seq<DeclaredModel> {
    declared.map_values(|parameter: Declared<'_>| parameter@)
}

/// How a parameter is bound by its annotations, given the captures of the
/// template and the headers that the route binds.
pub open spec fn annotated_binding(
    ident: Seq<char>,
    ty: TypeModel,
    attributes: Seq<AttributeModel>,
    captures: Seq<Seq<char>>,
    headers: Seq<(Seq<char>, Seq<char>)>,
) -> Result<BindingModel, Seq<char>> {
    match (injection_of(ty, attributes), annotated_header(ident, attributes, 0, None)) {
        (Err(message), _) => Err(message),
        (_, Err(message)) => Err(message),
        (Ok(Some(dependency)), Ok(header)) => if header is Some || names_pair(headers, ident)
            || captures.contains(ident) {
            Err("an injected parameter cannot also bind a path capture or an HTTP header"@)
        } else {
            Ok(BindingModel::Injected(dependency))
        },
        (Ok(None), Ok(Some(header))) => if names_pair(headers, ident) {
            Err("a parameter may only bind one HTTP header"@)
        } else if captures.contains(ident) {
            Err("a header parameter cannot also bind a path capture"@)
        } else {
            Ok(BindingModel::Header(header))
        },
        (Ok(None), Ok(None)) => Ok(BindingModel::Plain),
    }
}

/// The parameters from a position on, behind others, or the first fault in them.
pub open spec fn declared_from(
    inputs: Seq<InputModel>,
    free: bool,
    captures: Seq<Seq<char>>,
    headers: Seq<(Seq<char>, Seq<char>)>,
    at: int,
    done: Seq<DeclaredModel>,
) -> Result<Seq<DeclaredModel>, Seq<char>>
    decreases inputs.len() - at,
{
    if at < 0 || at >= inputs.len() {
        Ok(done)
    } else {
        match inputs[at] {
            InputModel::Receiver { .. } => Err(
                if free {
                    "HTTP route attributes require a free function without self"@
                } else {
                    "HTTP API methods may only have one self receiver"@
                },
            ),
            InputModel::Typed { ident: None, .. } => Err(
                "HTTP API parameter patterns must be identifiers"@,
            ),
            InputModel::Typed { ident: Some(ident), ty, attributes } => match annotated_binding(
                ident,
                ty,
                attributes,
                captures,
                headers,
            ) {
                Err(message) => Err(message),
                Ok(binding) => declared_from(
                    inputs,
                    free,
                    captures,
                    headers,
                    at + 1,
                    done.push(DeclaredModel { ident, ty, binding }),
                ),
            },
        }
    }
}

/// The parameters of a function besides its receiver, or the first fault in them.
pub open spec fn declared_inputs(
    function: FunctionModel,
    captures: Seq<Seq<char>>,
    headers: Seq<(Seq<char>, Seq<char>)>,
) -> Result<Seq<DeclaredModel>, Seq<char>> {
    if function.free {
        declared_from(function.inputs, true, captures, headers, 0, Seq::empty())
    } else if function.inputs.len() > 0 && (function.inputs[0] matches InputModel::Receiver {
        reference: true,
    }) {
        declared_from(function.inputs, false, captures, headers, 1, Seq::empty())
    } else {
        Err("HTTP API methods must begin with &self"@)
    }
}

fn read_binding<'a>(
    ident: &'a str,
    ty: &TypeSyntax,
    attributes: &'a Vec<ParameterAttribute>,
    captures: &Vec<String>,
    headers: &Vec<HeaderBinding>,
) -> (outcome: Result<Binding<'a>, SyntaxError>)
    ensures
        match outcome {
            Ok(binding) => annotated_binding(
                ident@,
                ty.model(),
                attribute_models(attributes@),
                string_texts(captures@),
                binding_models(headers@),
            ) == Ok::<BindingModel, Seq<char>>(binding@),
            Err(error) => annotated_binding(
                ident@,
                ty.model(),
                attribute_models(attributes@),
                string_texts(captures@),
                binding_models(headers@),
            ) == Err::<BindingModel, Seq<char>>(error@),
        },
{
    let dependency = match injection(ty, attributes) {
        Err(error) => {
            return Err(error);
        },
        Ok(dependency) => dependency,
    };
    let header = match header_annotation(ident, attributes) {
        Err(error) => {
            return Err(error);
        },
        Ok(header) => header,
    };
    let routed = is_routed(headers, ident);
    let captured = holds_text(captures, ident);
    match (dependency, header) {
        (Some(dependency), header) => {
            if header.is_some() || routed || captured {
                Err(
                    SyntaxError::of(
                        "an injected parameter cannot also bind a path capture or an HTTP header",
                    ),
                )
            } else {
                Ok(Binding::Injected(dependency))
            }
        },
        (None, Some(header)) => {
            if routed {
                Err(SyntaxError::of("a parameter may only bind one HTTP header"))
            } else if captured {
                Err(SyntaxError::of("a header parameter cannot also bind a path capture"))
            } else {
                Ok(Binding::Header(header))
            }
        },
        (None, None) => Ok(Binding::Plain),
    }
}

/// Whether a route binds a header to this parameter.
fn is_routed(headers: &Vec<HeaderBinding>, ident: &str) -> (routed: bool)
    ensures
        routed == names_pair(binding_models(headers@), ident@),
{
    let found = bound_header(headers, ident);
    proof {
        if found is Some {
            let i = choose|i: int|
                0 <= i < headers@.len() && (#[trigger] headers@[i])@.0 == ident@;
            assert(binding_models(headers@)[i] == headers@[i]@);
        }
    }
    found.is_some()
}

fn declare_parameters<'a>(
    function: &'a FunctionSyntax,
    captures: &Vec<String>,
    headers: &Vec<HeaderBinding>,
) -> (outcome: Result<Vec<Declared<'a>>, SyntaxError>)
    ensures
        match outcome {
            Ok(declared) => declared_inputs(
                function@,
                string_texts(captures@),
                binding_models(headers@),
            ) == Ok::<Seq<DeclaredModel>, Seq<char>>(declared_models(declared@)),
            Err(error) => declared_inputs(
                function@,
                string_texts(captures@),
                binding_models(headers@),
            ) == Err::<Seq<DeclaredModel>, Seq<char>>(error@),
        },
{
    let ghost inputs = function@.inputs;
    let mut i: usize = 0;
    if !function.free {
        let mut receives = false;
        if function.inputs.len() > 0 {
            assert(inputs[0] == function.inputs@[0]@);
            if let InputSyntax::Receiver { reference } = &function.inputs[0] {
                receives = *reference;
            }
        }
        if !receives {
            return Err(SyntaxError::of("HTTP API methods must begin with &self"));
        }
        i = 1;
    }
    let ghost start = i as int;
    let mut declared: Vec<Declared<'a>> = Vec::new();
    assert(declared_models(declared@) =~= Seq::empty());
    while i < function.inputs.len()
        invariant
            0 <= i <= function.inputs@.len(),
            inputs == input_models(function.inputs@),
            inputs == function@.inputs,
            declared_inputs(function@, string_texts(captures@), binding_models(headers@))
                == declared_from(
                inputs,
                function.free,
                string_texts(captures@),
                binding_models(headers@),
                i as int,
                declared_models(declared@),
            ),
        decreases function.inputs@.len() - i,
    {
        assert(inputs[i as int] == function.inputs@[i as int]@);
        match &function.inputs[i] {
            InputSyntax::Receiver { .. } => {
                return Err(
                    if function.free {
                        SyntaxError::of("HTTP route attributes require a free function without self")
                    } else {
                        SyntaxError::of("HTTP API methods may only have one self receiver")
                    },
                );
            },
            InputSyntax::Typed { pattern, ty, attributes } => {
                let ident = match pattern {
                    PatternSyntax::Plain(ident) => ident.as_str(),
                    PatternSyntax::Decorated(ident) => ident.as_str(),
                    PatternSyntax::Other => {
                        return Err(
                            SyntaxError::of("HTTP API parameter patterns must be identifiers"),
                        );
                    },
                };
                match read_binding(ident, ty, attributes, captures, headers) {
                    Err(error) => {
                        return Err(error);
                    },
                    Ok(binding) => {
                        let ghost before = declared_models(declared@);
                        let parameter = Declared { ident, ty, binding };
                        let ghost model = parameter@;
                        declared.push(parameter);
                        assert(declared_models(declared@) =~= before.push(model));
                    },
                }
            },
        }
        i += 1;
    }
    Ok(declared)
}

/// Where the value of a parameter comes from.
#[derive(Debug)]
pub enum ParameterSource<'a> {
    /// The capture with this index.
    Path(usize),
    Query { key: &'a str, optional_inner: Option<&'a TypeSyntax> },
    Header { name: String, optional_inner: Option<&'a TypeSyntax> },
    Authenticated,
    JsonBody,
    QueryObject,
    QueryMany(&'a TypeSyntax),
    FormBody,
    MultipartBody,
    RawBody,
    BorrowedBody,
    /// The dependency of this name.
    Injected(&'a str),
}

/// What a [`ParameterSource`] says.
pub enum SourceModel {
    Path(usize),
    Query { key: Seq<char>, optional_inner: Option<TypeModel> },
    Header { name: Seq<char>, optional_inner: Option<TypeModel> },
    Authenticated,
    JsonBody,
    QueryObject,
    QueryMany(TypeModel),
    FormBody,
    MultipartBody,
    RawBody,
    BorrowedBody,
    Injected(Seq<char>),
}

impl<'a> View for ParameterSource<'a> {
    type V = SourceModel;

    open spec fn view(&self) -> SourceModel {
        match self {
            ParameterSource::Path(index) => SourceModel::Path(*index),
            ParameterSource::Query { key, optional_inner } => SourceModel::Query {
                key: key@,
                optional_inner: type_model(*optional_inner),
            },
            ParameterSource::Header { name, optional_inner } => SourceModel::Header {
                name: name@,
                optional_inner: type_model(*optional_inner),
            },
            ParameterSource::Authenticated => SourceModel::Authenticated,
            ParameterSource::JsonBody => SourceModel::JsonBody,
            ParameterSource::QueryObject => SourceModel::QueryObject,
            ParameterSource::QueryMany(inner) => SourceModel::QueryMany(inner.model()),
            ParameterSource::FormBody => SourceModel::FormBody,
            ParameterSource::MultipartBody => SourceModel::MultipartBody,
            ParameterSource::RawBody => SourceModel::RawBody,
            ParameterSource::BorrowedBody => SourceModel::BorrowedBody,
            ParameterSource::Injected(name) => SourceModel::Injected(name@),
        }
    }
}

/// Whether a source is the body.
pub open spec fn is_body(source: SourceModel) -> bool {
    source is JsonBody || source is FormBody || source is MultipartBody || source is RawBody
        || source is BorrowedBody
}

/// The value that is given for a name.
pub open spec fn value_for(pairs: Seq<(Seq<char>, Seq<char>)>, name: Seq<char>) -> Option<Seq<char>>
    decreases pairs.len(),
{
    if pairs.len() == 0 {
        None
    } else if pairs[0].0 == name {
        Some(pairs[0].1)
    } else {
        value_for(pairs.skip(1), name)
    }
}

/// Where the value of a parameter comes from that neither its annotations nor
/// its place bind.
pub open spec fn source_of(
    ident: Seq<char>,
    ty: TypeModel,
    headers: Seq<(Seq<char>, Seq<char>)>,
) -> SourceModel {
    if principal_of(ty) is Some {
        SourceModel::Authenticated
    } else if let Some(name) = value_for(headers, ident) {
        SourceModel::Header { name, optional_inner: optional_of(ty) }
    } else if named(ty) == Some("Query"@) {
        SourceModel::QueryObject
    } else if let Some(inner) = inner_of(ty, "Vec"@) {
        SourceModel::QueryMany(inner)
    } else if scalar(ty) {
        SourceModel::Query { key: ident, optional_inner: optional_of(ty) }
    } else if byte_slice(ty) {
        SourceModel::BorrowedBody
    } else if named(ty) == Some("Form"@) {
        SourceModel::FormBody
    } else if named(ty) == Some("Multipart"@) {
        SourceModel::MultipartBody
    } else if named(ty) == Some("Body"@) {
        SourceModel::RawBody
    } else {
        SourceModel::JsonBody
    }
}

/// The header that a route binds to a parameter.
fn routed_header<'a>(headers: &'a Vec<HeaderBinding>, ident: &str) -> (found: Option<&'a str>)
    ensures
        match found {
            Some(name) => value_for(binding_models(headers@), ident@) == Some(name@),
            None => value_for(binding_models(headers@), ident@) is None,
        },
{
    let ghost pairs = binding_models(headers@);
    let mut i: usize = 0;
    assert(pairs.skip(0) =~= pairs);
    while i < headers.len()
        invariant
            0 <= i <= headers@.len(),
            pairs == binding_models(headers@),
            value_for(pairs, ident@) == value_for(pairs.skip(i as int), ident@),
        decreases headers@.len() - i,
    {
        assert(pairs.skip(i as int)[0] == headers@[i as int]@);
        assert(pairs.skip(i as int).skip(1) =~= pairs.skip(i + 1));
        if same_text(headers[i].parameter.as_str(), ident) {
            return Some(headers[i].header.as_str());
        }
        i += 1;
    }
    None
}

fn free_source<'a>(
    ident: &'a str,
    ty: &'a TypeSyntax,
    headers: &Vec<HeaderBinding>,
) -> (source: ParameterSource<'a>)
    ensures
        source@ == source_of(ident@, ty.model(), binding_models(headers@)),
{
    if authenticated_inner(ty).is_some() {
        return ParameterSource::Authenticated;
    }
    if let Some(name) = routed_header(headers, ident) {
        return ParameterSource::Header {
            name: name.to_owned(),
            optional_inner: option_inner(ty),
        };
    }
    if has_name(ty, "Query") {
        return ParameterSource::QueryObject;
    }
    if let Some(inner) = generic_inner(ty, "Vec") {
        return ParameterSource::QueryMany(inner);
    }
    if is_scalar(ty) {
        return ParameterSource::Query { key: ident, optional_inner: option_inner(ty) };
    }
    if is_byte_slice(ty) {
        ParameterSource::BorrowedBody
    } else if has_name(ty, "Form") {
        ParameterSource::FormBody
    } else if has_name(ty, "Multipart") {
        ParameterSource::MultipartBody
    } else if has_name(ty, "Body") {
        ParameterSource::RawBody
    } else {
        ParameterSource::JsonBody
    }
}


/// How many of the first parameters no annotation binds.
pub open spec fn plain_before(declared: Seq<DeclaredModel>, count: int) -> nat
    decreases count,
{
    if count <= 0 {
        0
    } else if declared[count - 1].binding is Plain {
        plain_before(declared, count - 1) + 1
    } else {
        plain_before(declared, count - 1)
    }
}

/// Whether the place of a parameter binds it to a capture.
pub open spec fn is_captured(declared: Seq<DeclaredModel>, captures: nat, at: int) -> bool {
    declared[at].binding is Plain && plain_before(declared, at) < captures
}

/// What is wrong with the names of the parameters that captures are bound to.
pub open spec fn capture_mismatch(
    declared: Seq<DeclaredModel>,
    captures: Seq<Seq<char>>,
    at: int,
) -> Option<Seq<char>>
    decreases declared.len() - at,
{
    if at < 0 || at >= declared.len() {
        None
    } else if is_captured(declared, captures.len(), at) && declared[at].ident
        != captures[plain_before(declared, at) as int] {
        let capture = captures[plain_before(declared, at) as int];
        Some(
            "path capture :"@ + capture + " must bind parameter "@ + capture + " in route order"@,
        )
    } else {
        capture_mismatch(declared, captures, at + 1)
    }
}

/// Whether a parameter has this name.
pub open spec fn names_parameter(declared: Seq<DeclaredModel>, name: Seq<char>) -> bool {
    exists|i: int| 0 <= i < declared.len() && (#[trigger] declared[i]).ident == name
}

/// The first of the headers from a position on that a route binds to no parameter.
pub open spec fn unknown_header(
    declared: Seq<DeclaredModel>,
    headers: Seq<(Seq<char>, Seq<char>)>,
    at: int,
) -> Option<Seq<char>>
    decreases headers.len() - at,
{
    if at < 0 || at >= headers.len() {
        None
    } else if !names_parameter(declared, headers[at].0) {
        Some("headers(...) binds unknown parameter "@ + headers[at].0)
    } else {
        unknown_header(declared, headers, at + 1)
    }
}

/// Where the value of a parameter comes from.
pub open spec fn assigned_source(
    declared: Seq<DeclaredModel>,
    captures: nat,
    headers: Seq<(Seq<char>, Seq<char>)>,
    at: int,
) -> SourceModel {
    match declared[at].binding {
        BindingModel::Injected(name) => SourceModel::Injected(name),
        BindingModel::Header(name) => SourceModel::Header {
            name,
            optional_inner: optional_of(declared[at].ty),
        },
        BindingModel::Plain => if is_captured(declared, captures, at) {
            SourceModel::Path(plain_before(declared, at) as usize)
        } else {
            source_of(declared[at].ident, declared[at].ty, headers)
        },
    }
}

/// The first fault of the parameters from a position on, given whether one
/// before it was authenticated and whether one was the body.
pub open spec fn source_conflict(
    declared: Seq<DeclaredModel>,
    captures: nat,
    headers: Seq<(Seq<char>, Seq<char>)>,
    at: int,
    authenticated: bool,
    body: bool,
) -> Option<Seq<char>>
    decreases declared.len() - at,
{
    if at < 0 || at >= declared.len() {
        None
    } else {
        let source = assigned_source(declared, captures, headers, at);
        if source is Authenticated {
            if names_pair(headers, declared[at].ident) {
                Some("Authenticated<T> is injected by auth, not headers(...) "@)
            } else if authenticated {
                Some("an HTTP API method may have at most one Authenticated<T> parameter"@)
            } else {
                source_conflict(declared, captures, headers, at + 1, true, body)
            }
        } else if is_body(source) {
            if body {
                Some("an HTTP API method may have at most one body parameter"@)
            } else {
                source_conflict(declared, captures, headers, at + 1, authenticated, true)
            }
        } else {
            source_conflict(declared, captures, headers, at + 1, authenticated, body)
        }
    }
}

/// A parameter and where its value comes from.
#[derive(Debug)]
pub struct Parameter<'a> {
    pub ident: &'a str,
    pub ty: &'a TypeSyntax,
    pub source: ParameterSource<'a>,
}

/// What a [`Parameter`] says.
#[verifier::ext_equal]
pub struct ParameterModel {
    pub ident: Seq<char>,
    pub ty: TypeModel,
    pub source: SourceModel,
}

impl<'a> View for Parameter<'a> {
    type V = ParameterModel;

    open spec fn view(&self) -> ParameterModel {
        ParameterModel { ident: self.ident@, ty: self.ty.model(), source: self.source@ }
    }
}

pub open spec fn parameter_models(parameters: Seq<Parameter<'_>>) -> Seq<ParameterModel> {
    parameters.map_values(|parameter: Parameter<'_>| parameter@)
}

/// The parameters with where their values come from.
pub open spec fn assigned(
    declared: Seq<DeclaredModel>,
    captures: nat,
    headers: Seq<(Seq<char>, Seq<char>)>,
) -> Seq<ParameterModel> {
    Seq::new(
        declared.len(),
        |at: int|
            ParameterModel {
                ident: declared[at].ident,
                ty: declared[at].ty,
                source: assigned_source(declared, captures, headers, at),
            },
    )
}

/// The parameters of a function with where their values come from, or the first
/// fault in them.
pub open spec fn bound_parameters(
    function: FunctionModel,
    captures: Seq<Seq<char>>,
    headers: Seq<(Seq<char>, Seq<char>)>,
) -> Result<Seq<ParameterModel>, Seq<char>> {
    match declared_inputs(function, captures, headers) {
        Err(message) => Err(message),
        Ok(declared) => if plain_before(declared, declared.len() as int) < captures.len() {
            Err("route has more path captures than method parameters"@)
        } else {
            match (
                capture_mismatch(declared, captures, 0),
                unknown_header(declared, headers, 0),
                source_conflict(declared, captures.len(), headers, 0, false, false),
            ) {
                (Some(message), _, _) => Err(message),
                (None, Some(message), _) => Err(message),
                (None, None, Some(message)) => Err(message),
                (None, None, None) => Ok(assigned(declared, captures.len(), headers)),
            }
        },
    }
}

pub open spec fn parameters_outcome(outcome: Result<Vec<Parameter<'_>>, SyntaxError>) -> Result<
    Seq<ParameterModel>,
    Seq<char>,
> {
    match outcome {
        Ok(parameters) => Ok(parameter_models(parameters@)),
        Err(error) => Err(error@),
    }
}

fn check_captures(declared: &Vec<Declared<'_>>, captures: &Vec<String>) -> (outcome: Result<
    (),
    SyntaxError,
>)
    ensures
        match outcome {
            Ok(()) => plain_before(declared_models(declared@), declared@.len() as int)
                >= captures@.len() && capture_mismatch(
                declared_models(declared@),
                string_texts(captures@),
                0,
            ) is None,
            Err(error) => if plain_before(declared_models(declared@), declared@.len() as int)
                < captures@.len() {
                error@ == "route has more path captures than method parameters"@
            } else {
                capture_mismatch(declared_models(declared@), string_texts(captures@), 0) == Some(
                    error@,
                )
            },
        },
{
    let ghost models = declared_models(declared@);
    let ghost names = string_texts(captures@);
    let mut plain: usize = 0;
    let mut i: usize = 0;
    while i < declared.len()
        invariant
            0 <= i <= declared@.len(),
            models == declared_models(declared@),
            plain == plain_before(models, i as int),
            plain <= i,
        decreases declared@.len() - i,
    {
        assert(models[i as int] == declared@[i as int]@);
        if matches!(&declared[i].binding, Binding::Plain) {
            plain += 1;
        }
        i += 1;
    }
    if plain < captures.len() {
        return Err(SyntaxError::of("route has more path captures than method parameters"));
    }
    let mut bound: usize = 0;
    let mut at: usize = 0;
    while at < declared.len()
        invariant
            0 <= at <= declared@.len(),
            models == declared_models(declared@),
            names == string_texts(captures@),
            plain_before(models, declared@.len() as int) >= captures@.len(),
            bound == plain_before(models, at as int),
            bound <= at,
            capture_mismatch(models, names, 0) == capture_mismatch(models, names, at as int),
        decreases declared@.len() - at,
    {
        assert(models[at as int] == declared@[at as int]@);
        if matches!(&declared[at].binding, Binding::Plain) {
            if bound < captures.len() && !same_text(declared[at].ident, captures[bound].as_str()) {
                let capture = captures[bound].as_str();
                assert(names[bound as int] == capture@);
                let message = "path capture :".to_owned().concat(capture).concat(
                    " must bind parameter ",
                ).concat(capture).concat(" in route order");
                return Err(SyntaxError::new(message));
            }
            assert(bound < captures@.len() ==> names[bound as int] == captures@[bound as int]@);
            bound += 1;
        }
        at += 1;
    }
    Ok(())
}

fn check_headers(declared: &Vec<Declared<'_>>, headers: &Vec<HeaderBinding>) -> (outcome: Result<
    (),
    SyntaxError,
>)
    ensures
        match outcome {
            Ok(()) => unknown_header(
                declared_models(declared@),
                binding_models(headers@),
                0,
            ) is None,
            Err(error) => unknown_header(declared_models(declared@), binding_models(headers@), 0)
                == Some(error@),
        },
{
    let ghost models = declared_models(declared@);
    let ghost pairs = binding_models(headers@);
    let mut i: usize = 0;
    while i < headers.len()
        invariant
            0 <= i <= headers@.len(),
            models == declared_models(declared@),
            pairs == binding_models(headers@),
            unknown_header(models, pairs, 0) == unknown_header(models, pairs, i as int),
        decreases headers@.len() - i,
    {
        let name = headers[i].parameter.as_str();
        assert(pairs[i as int] == headers@[i as int]@);
        let mut known = false;
        let mut j: usize = 0;
        while j < declared.len()
            invariant
                0 <= j <= declared@.len(),
                models == declared_models(declared@),
                known ==> names_parameter(models, name@),
                !known ==> forall|k: int| 0 <= k < j ==> (#[trigger] models[k]).ident != name@,
            decreases declared@.len() - j,
        {
            assert(models[j as int] == declared@[j as int]@);
            if same_text(declared[j].ident, name) {
                known = true;
            }
            j += 1;
        }
        if !known {
            return Err(
                SyntaxError::new("headers(...) binds unknown parameter ".to_owned().concat(name)),
            );
        }
        i += 1;
    }
    Ok(())
}

/// Binds the parameters of a function: those with annotations as these say,
/// then the captures in route order, then the others by name and type.
pub fn bind_parameters<'a>(
    function: &'a FunctionSyntax,
    captures: &Vec<String>,
    headers: &Vec<HeaderBinding>,
) -> (outcome: Result<Vec<Parameter<'a>>, SyntaxError>)
    ensures
        parameters_outcome(outcome) == bound_parameters(
            function@,
            string_texts(captures@),
            binding_models(headers@),
        ),
{
    let declared = match declare_parameters(function, captures, headers) {
        Err(error) => {
            return Err(error);
        },
        Ok(declared) => declared,
    };
    if let Err(error) = check_captures(&declared, captures) {
        return Err(error);
    }
    if let Err(error) = check_headers(&declared, headers) {
        return Err(error);
    }
    let ghost models = declared_models(declared@);
    let ghost pairs = binding_models(headers@);
    let ghost count = captures@.len();
    let mut parameters: Vec<Parameter<'a>> = Vec::new();
    let mut plain: usize = 0;
    let mut authenticated = false;
    let mut body = false;
    let mut i: usize = 0;
    proof {
        assert(parameter_models(parameters@) =~= assigned(models, count, pairs).take(0));
    }
    while i < declared.len()
        invariant
            0 <= i <= declared@.len(),
            models == declared_models(declared@),
            pairs == binding_models(headers@),
            count == captures@.len(),
            declared_inputs(function@, string_texts(captures@), pairs) == Ok::<
                Seq<DeclaredModel>,
                Seq<char>,
            >(models),
            plain_before(models, models.len() as int) >= count,
            capture_mismatch(models, string_texts(captures@), 0) is None,
            unknown_header(models, pairs, 0) is None,
            plain == plain_before(models, i as int),
            plain <= i,
            parameter_models(parameters@) == assigned(models, count, pairs).take(i as int),
            source_conflict(models, count, pairs, 0, false, false) == source_conflict(
                models,
                count,
                pairs,
                i as int,
                authenticated,
                body,
            ),
        decreases declared@.len() - i,
    {
        let ident = declared[i].ident;
        let ty = declared[i].ty;
        assert(models[i as int] == declared@[i as int]@);
        let source = match &declared[i].binding {
            Binding::Injected(name) => ParameterSource::Injected(*name),
            Binding::Header(name) => ParameterSource::Header {
                name: (*name).to_owned(),
                optional_inner: option_inner(ty),
            },
            Binding::Plain => {
                let place: usize = plain;
                plain += 1;
                if place < captures.len() {
                    ParameterSource::Path(place)
                } else {
                    free_source(ident, ty, headers)
                }
            },
        };
        assert(source@ == assigned_source(models, count, pairs, i as int));
        match &source {
            ParameterSource::Authenticated => {
                if is_routed(headers, ident) {
                    return Err(
                        SyntaxError::of("Authenticated<T> is injected by auth, not headers(...) "),
                    );
                }
                if authenticated {
                    return Err(
                        SyntaxError::of(
                            "an HTTP API method may have at most one Authenticated<T> parameter",
                        ),
                    );
                }
                authenticated = true;
            },
            ParameterSource::JsonBody
            | ParameterSource::FormBody
            | ParameterSource::MultipartBody
            | ParameterSource::RawBody
            | ParameterSource::BorrowedBody => {
                if body {
                    return Err(
                        SyntaxError::of("an HTTP API method may have at most one body parameter"),
                    );
                }
                body = true;
            },
            _ => {},
        }
        let ghost before = parameter_models(parameters@);
        let parameter = Parameter { ident, ty, source };
        let ghost model = parameter@;
        parameters.push(parameter);
        i += 1;
        assert(parameter_models(parameters@) =~= before.push(model));
        assert(parameter_models(parameters@) =~= assigned(models, count, pairs).take(i as int));
    }
    assert(assigned(models, count, pairs).take(i as int) =~= assigned(models, count, pairs));
    Ok(parameters)
}

/// The first parameter that is authenticated.
pub open spec fn authenticated_from(parameters: Seq<ParameterModel>, at: int) -> Option<
    ParameterModel,
>
    decreases parameters.len() - at,
{
    if at < 0 || at >= parameters.len() {
        None
    } else if parameters[at].source is Authenticated {
        Some(parameters[at])
    } else {
        authenticated_from(parameters, at + 1)
    }
}

/// Whether the authenticated parameter suits the authentication of the route.
pub open spec fn auth_fault(auth: AuthMode, parameters: Seq<ParameterModel>) -> Option<Seq<char>> {
    match authenticated_from(parameters, 0) {
        None => None,
        Some(parameter) => {
            let optional = match principal_of(parameter.ty) {
                Some((_, optional)) => optional,
                None => false,
            };
            match auth {
                AuthMode::Off => Some(
                    "Authenticated<T> requires auth = required or auth = optional"@,
                ),
                AuthMode::Required => if optional {
                    Some(
                        "auth = required injects Authenticated<T>, not Option<Authenticated<T>>"@,
                    )
                } else {
                    None
                },
                AuthMode::Optional => if !optional {
                    Some("auth = optional injects Option<Authenticated<T>>"@)
                } else {
                    None
                },
            }
        },
    }
}

pub fn validate_auth_parameters(auth: AuthMode, parameters: &Vec<Parameter<'_>>) -> (outcome:
    Result<(), SyntaxError>)
    ensures
        match outcome {
            Ok(()) => auth_fault(auth, parameter_models(parameters@)) is None,
            Err(error) => auth_fault(auth, parameter_models(parameters@)) == Some(error@),
        },
{
    let ghost models = parameter_models(parameters@);
    let mut i: usize = 0;
    while i < parameters.len()
        invariant
            0 <= i <= parameters@.len(),
            models == parameter_models(parameters@),
            authenticated_from(models, 0) == authenticated_from(models, i as int),
        decreases parameters@.len() - i,
    {
        assert(models[i as int] == parameters@[i as int]@);
        if matches!(&parameters[i].source, ParameterSource::Authenticated) {
            let optional = match authenticated_inner(parameters[i].ty) {
                Some((_, optional)) => optional,
                None => false,
            };
            return match auth {
                AuthMode::Off => Err(
                    SyntaxError::of("Authenticated<T> requires auth = required or auth = optional"),
                ),
                AuthMode::Required => {
                    if optional {
                        Err(
                            SyntaxError::of(
                                "auth = required injects Authenticated<T>, not Option<Authenticated<T>>",
                            ),
                        )
                    } else {
                        Ok(())
                    }
                },
                AuthMode::Optional => {
                    if !optional {
                        Err(SyntaxError::of("auth = optional injects Option<Authenticated<T>>"))
                    } else {
                        Ok(())
                    }
                },
            };
        }
        i += 1;
    }
    Ok(())
}

/// An endpoint.
#[derive(Debug)]
pub struct Endpoint<'a> {
    pub method: &'static str,
    /// The template, behind the prefix.
    pub path: String,
    /// The template without the names of its captures.
    pub shape: String,
    /// The function.
    pub handler: &'a str,
    pub parameters: Vec<Parameter<'a>>,
    pub result: ResultKind,
    pub has_json_body: bool,
    pub auth: AuthMode,
    /// Whether its requests are written to the API log.
    pub api_log: bool,
}

/// What an [`Endpoint`] says.
#[verifier::ext_equal]
pub struct EndpointModel {
    pub method: Seq<char>,
    pub path: Seq<char>,
    pub shape: Seq<char>,
    pub handler: Seq<char>,
    pub parameters: Seq<ParameterModel>,
    pub result: ResultKind,
    pub has_json_body: bool,
    pub auth: AuthMode,
    pub api_log: bool,
}

impl<'a> View for Endpoint<'a> {
    type V = EndpointModel;

    open spec fn view(&self) -> EndpointModel {
        EndpointModel {
            method: self.method@,
            path: self.path@,
            shape: self.shape@,
            handler: self.handler@,
            parameters: parameter_models(self.parameters@),
            result: self.result,
            has_json_body: self.has_json_body,
            auth: self.auth,
            api_log: self.api_log,
        }
    }
}

/// Whether a parameter is read from a JSON body.
pub open spec fn reads_json(parameters: Seq<ParameterModel>) -> bool {
    exists|i: int| 0 <= i < parameters.len() && (#[trigger] parameters[i]).source is JsonBody
}

/// The endpoint that a function is, or the first fault of its declaration,
/// given what its template captures.
pub open spec fn endpoint_with(
    method: Seq<char>,
    prefix: Seq<char>,
    function: FunctionModel,
    route: RouteModel,
    auth: AuthMode,
    captures: Result<Seq<Seq<char>>, Seq<char>>,
) -> Result<EndpointModel, Seq<char>> {
    let path = joined_path(prefix, route.path);
    if !function.is_async {
        Err("HTTP API methods must be async"@)
    } else if function.generic {
        Err("HTTP API methods may have lifetime parameters but not type or const parameters"@)
    } else {
        match (endpoint_path_fault(route.path), captures) {
            (Err(message), _) => Err(message),
            (Ok(()), Err(message)) => Err(message),
            (Ok(()), Ok(captures)) => match bound_parameters(function, captures, route.headers) {
                Err(message) => Err(message),
                Ok(parameters) => match (auth_fault(auth, parameters), kind_of_result(
                    function.output,
                )) {
                    (Some(message), _) => Err(message),
                    (None, Err(message)) => Err(message),
                    (None, Ok(result)) => Ok(
                        EndpointModel {
                            method,
                            path,
                            shape: shape_of(path),
                            handler: function.name,
                            parameters,
                            result,
                            has_json_body: reads_json(parameters),
                            auth,
                            api_log: route.api_log,
                        },
                    ),
                },
            },
        }
    }
}

/// The endpoint that a function is, or the first fault of its declaration.
pub open spec fn endpoint_of(
    method: Seq<char>,
    prefix: Seq<char>,
    function: FunctionModel,
    route: RouteModel,
    auth: AuthMode,
) -> Result<EndpointModel, Seq<char>> {
    endpoint_with(
        method,
        prefix,
        function,
        route,
        auth,
        template_captures(joined_path(prefix, route.path)),
    )
}

pub open spec fn endpoint_outcome(outcome: Result<Endpoint<'_>, SyntaxError>) -> Result<
    EndpointModel,
    Seq<char>,
> {
    match outcome {
        Ok(endpoint) => Ok(endpoint@),
        Err(error) => Err(error@),
    }
}

/// Makes an endpoint of a function, given what its template captures.
pub fn endpoint_from<'a>(
    method: &'static str,
    prefix: &str,
    function: &'a FunctionSyntax,
    route: &RouteArguments,
    auth: AuthMode,
    captured: Result<Vec<String>, SyntaxError>,
) -> (outcome: Result<Endpoint<'a>, SyntaxError>)
    ensures
        endpoint_outcome(outcome) == endpoint_with(
            method@,
            prefix@,
            function@,
            route@,
            auth,
            texts_or_message(captured),
        ),
{
    if !function.is_async {
        return Err(SyntaxError::of("HTTP API methods must be async"));
    }
    if function.generic {
        return Err(
            SyntaxError::of(
                "HTTP API methods may have lifetime parameters but not type or const parameters",
            ),
        );
    }
    if let Err(error) = validate_endpoint_path(route.path.as_str()) {
        return Err(error);
    }
    let captures = match captured {
        Err(error) => {
            return Err(error);
        },
        Ok(captures) => captures,
    };
    let path = join_path(prefix, route.path.as_str());
    let shape = route_shape(path.as_str());
    let parameters = match bind_parameters(function, &captures, &route.headers) {
        Err(error) => {
            return Err(error);
        },
        Ok(parameters) => parameters,
    };
    if let Err(error) = validate_auth_parameters(auth, &parameters) {
        return Err(error);
    }
    let result = match result_kind(function.output.as_ref()) {
        Err(error) => {
            return Err(error);
        },
        Ok(result) => result,
    };
    let ghost models = parameter_models(parameters@);
    let mut has_json_body = false;
    let mut i: usize = 0;
    while i < parameters.len()
        invariant
            0 <= i <= parameters@.len(),
            models == parameter_models(parameters@),
            has_json_body ==> reads_json(models),
            !has_json_body ==> forall|j: int|
                0 <= j < i ==> !((#[trigger] models[j]).source is JsonBody),
        decreases parameters@.len() - i,
    {
        assert(models[i as int] == parameters@[i as int]@);
        if matches!(&parameters[i].source, ParameterSource::JsonBody) {
            has_json_body = true;
        }
        i += 1;
    }
    Ok(
        Endpoint {
            method,
            path,
            shape,
            handler: function.name.as_str(),
            parameters,
            result,
            has_json_body,
            auth,
            api_log: route.api_log,
        },
    )
}

/// Makes an endpoint of a function.
pub fn parse_endpoint<'a>(
    method: &'static str,
    prefix: &str,
    function: &'a FunctionSyntax,
    route: &RouteArguments,
    auth: AuthMode,
) -> (outcome: Result<Endpoint<'a>, SyntaxError>)
    ensures
        endpoint_outcome(outcome) == endpoint_of(method@, prefix@, function@, route@, auth),
{
    let path = join_path(prefix, route.path.as_str());
    endpoint_from(method, prefix, function, route, auth, parse_captures(path.as_str()))
}


/// What holds of parameters in which no fault was found.
proof fn lemma_no_conflict(
    declared: Seq<DeclaredModel>,
    captures: nat,
    headers: Seq<(Seq<char>, Seq<char>)>,
    at: int,
    authenticated: bool,
    body: bool,
)
    requires
        0 <= at <= declared.len(),
        source_conflict(declared, captures, headers, at, authenticated, body) is None,
    ensures
        forall|i: int|
            at <= i < declared.len() && body ==> !is_body(
                #[trigger] assigned_source(declared, captures, headers, i),
            ),
        forall|i: int|
            at <= i < declared.len() && authenticated ==> !(#[trigger] assigned_source(
                declared,
                captures,
                headers,
                i,
            ) is Authenticated),
        forall|i: int, j: int|
            at <= i < j < declared.len() && is_body(
                #[trigger] assigned_source(declared, captures, headers, i),
            ) ==> !is_body(#[trigger] assigned_source(declared, captures, headers, j)),
        forall|i: int, j: int|
            at <= i < j < declared.len() && #[trigger] assigned_source(
                declared,
                captures,
                headers,
                i,
            ) is Authenticated ==> !(#[trigger] assigned_source(
                declared,
                captures,
                headers,
                j,
            ) is Authenticated),
    decreases declared.len() - at,
{
    if at < declared.len() {
        let source = assigned_source(declared, captures, headers, at);
        lemma_no_conflict(
            declared,
            captures,
            headers,
            at + 1,
            authenticated || source is Authenticated,
            body || is_body(source),
        );
    }
}

/// An endpoint reads the body at most once, and is given its principal at most
/// once.
pub proof fn law_one_body_and_one_principal(
    function: FunctionModel,
    captures: Seq<Seq<char>>,
    headers: Seq<(Seq<char>, Seq<char>)>,
    first: int,
    second: int,
)
    requires
        bound_parameters(function, captures, headers) is Ok,
        0 <= first < second < bound_parameters(function, captures, headers)->Ok_0.len(),
    ensures
        ({
            let parameters = bound_parameters(function, captures, headers)->Ok_0;
            &&& !(is_body(parameters[first].source) && is_body(parameters[second].source))
            &&& !(parameters[first].source is Authenticated && parameters[second].source is Authenticated)
        }),
{
    let declared = declared_inputs(function, captures, headers)->Ok_0;
    lemma_no_conflict(declared, captures.len(), headers, 0, false, false);
    let one = assigned_source(declared, captures.len(), headers, first);
    let two = assigned_source(declared, captures.len(), headers, second);
    assert(assigned(declared, captures.len(), headers)[first].source == one);
    assert(assigned(declared, captures.len(), headers)[second].source == two);
}

proof fn lemma_no_mismatch(
    declared: Seq<DeclaredModel>,
    captures: Seq<Seq<char>>,
    start: int,
    at: int,
)
    requires
        0 <= start <= at < declared.len(),
        capture_mismatch(declared, captures, start) is None,
        is_captured(declared, captures.len(), at),
    ensures
        declared[at].ident == captures[plain_before(declared, at) as int],
    decreases at - start,
{
    if start < at {
        lemma_no_mismatch(declared, captures, start + 1, at);
    }
}

proof fn lemma_place_exists(declared: Seq<DeclaredModel>, count: int, place: nat) -> (at: int)
    requires
        0 <= count <= declared.len(),
        place < plain_before(declared, count),
    ensures
        0 <= at < count,
        declared[at].binding is Plain,
        plain_before(declared, at) == place,
    decreases count,
{
    if place < plain_before(declared, count - 1) {
        lemma_place_exists(declared, count - 1, place)
    } else {
        count - 1
    }
}

/// Whether one of the parameters is given the capture with this index, under
/// this name.
pub open spec fn binds_capture(
    parameters: Seq<ParameterModel>,
    index: int,
    name: Seq<char>,
) -> bool {
    exists|i: int|
        0 <= i < parameters.len() && (#[trigger] parameters[i]).source is Path
            && parameters[i].source->Path_0 == index && parameters[i].ident == name
}

/// Every capture of a template is bound to a parameter of its name, and a
/// parameter that is bound to a capture has its name.
pub proof fn law_captures_bind_by_name(
    function: FunctionModel,
    captures: Seq<Seq<char>>,
    headers: Seq<(Seq<char>, Seq<char>)>,
)
    requires
        bound_parameters(function, captures, headers) is Ok,
        captures.len() <= usize::MAX,
    ensures
        forall|i: int|
            0 <= i < bound_parameters(function, captures, headers)->Ok_0.len() && (
            #[trigger] bound_parameters(function, captures, headers)->Ok_0[i]).source is Path ==> {
                let parameter = bound_parameters(function, captures, headers)->Ok_0[i];
                parameter.source->Path_0 < captures.len() && parameter.ident
                    == captures[parameter.source->Path_0 as int]
            },
        forall|k: int|
            0 <= k < captures.len() ==> binds_capture(
                bound_parameters(function, captures, headers)->Ok_0,
                k,
                #[trigger] captures[k],
            ),
{
    let declared = declared_inputs(function, captures, headers)->Ok_0;
    let parameters = bound_parameters(function, captures, headers)->Ok_0;
    assert(parameters == assigned(declared, captures.len(), headers));
    assert forall|i: int|
        0 <= i < parameters.len() && (#[trigger] parameters[i]).source is Path implies {
        parameters[i].source->Path_0 < captures.len() && parameters[i].ident
            == captures[parameters[i].source->Path_0 as int]
    } by {
        assert(is_captured(declared, captures.len(), i));
        lemma_no_mismatch(declared, captures, 0, i);
    }
    assert forall|k: int| 0 <= k < captures.len() implies binds_capture(
        parameters,
        k,
        #[trigger] captures[k],
    ) by {
        let at = lemma_place_exists(declared, declared.len() as int, k as nat);
        assert(is_captured(declared, captures.len(), at));
        lemma_no_mismatch(declared, captures, 0, at);
        assert(parameters[at].source is Path);
    }
}

proof fn lemma_declared_types(
    inputs: Seq<InputModel>,
    free: bool,
    captures: Seq<Seq<char>>,
    headers: Seq<(Seq<char>, Seq<char>)>,
    at: int,
    done: Seq<DeclaredModel>,
)
    requires
        0 <= at <= inputs.len(),
        declared_from(inputs, free, captures, headers, at, done) is Ok,
    ensures
        ({
            let all = declared_from(inputs, free, captures, headers, at, done)->Ok_0;
            &&& all.len() == done.len() + inputs.len() - at
            &&& done == all.take(done.len() as int)
            &&& forall|i: int|
                at <= i < inputs.len() ==> (#[trigger] inputs[i] matches InputModel::Typed {
                    ident: Some(ident),
                    ty,
                    ..
                } && all[done.len() + i - at].ident == ident && all[done.len() + i - at].ty == ty)
        }),
    decreases inputs.len() - at,
{
    if at < inputs.len() {
        let ident = inputs[at]->Typed_ident->Some_0;
        let ty = inputs[at]->Typed_ty;
        let attributes = inputs[at]->Typed_attributes;
        let binding = annotated_binding(ident, ty, attributes, captures, headers)->Ok_0;
        let next = done.push(DeclaredModel { ident, ty, binding });
        lemma_declared_types(inputs, free, captures, headers, at + 1, next);
        let all = declared_from(inputs, free, captures, headers, at, done)->Ok_0;
        assert(done =~= all.take(done.len() as int)) by {
            assert(next.take(done.len() as int) =~= done);
            assert(all.take(next.len() as int).take(done.len() as int) =~= all.take(
                done.len() as int,
            ));
        }
        assert(all[done.len() as int] == next[done.len() as int]) by {
            assert(all.take(next.len() as int)[done.len() as int] == next[done.len() as int]);
        }
        assert forall|i: int| at <= i < inputs.len() implies (#[trigger] inputs[i] matches
            InputModel::Typed { ident: Some(ident), ty, .. } && all[done.len() + i - at].ident
            == ident && all[done.len() + i - at].ty == ty) by {
            if i > at {
                assert(next.len() + i - (at + 1) == done.len() + i - at);
            }
        }
    } else {
        assert(done =~= done.take(done.len() as int));
    }
}

/// A free function is called with its parameters in the order in which they
/// are declared.
pub proof fn law_arguments_keep_their_order(
    function: FunctionModel,
    captures: Seq<Seq<char>>,
    headers: Seq<(Seq<char>, Seq<char>)>,
    at: int,
)
    requires
        function.free,
        bound_parameters(function, captures, headers) is Ok,
        0 <= at < function.inputs.len(),
    ensures
        bound_parameters(function, captures, headers)->Ok_0.len() == function.inputs.len(),
        function.inputs[at] matches InputModel::Typed { ident: Some(ident), ty, .. } && ident
            == bound_parameters(function, captures, headers)->Ok_0[at].ident && ty
            == bound_parameters(function, captures, headers)->Ok_0[at].ty,
{
    lemma_declared_types(function.inputs, true, captures, headers, 0, Seq::empty());
    let declared = declared_inputs(function, captures, headers)->Ok_0;
    assert(assigned(declared, captures.len(), headers)[at].ident == declared[at].ident);
}

} // verus!

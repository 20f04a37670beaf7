//! Laws of endpoints: where the values of a function's parameters come from.
use vstd::prelude::*;

use crate::extract::FromQuery;
#[allow(unused_imports)]
use crate::macros::arguments::names_pair;
use crate::macros::arguments::{AuthMode, RouteModel};
#[allow(unused_imports)]
use crate::macros::endpoint::{
    annotated_binding, annotated_header, assigned, assigned_source, auth_fault, authenticated_from,
    bound_parameters, capture_mismatch, declared_from, declared_inputs, endpoint_of, injected,
    injection_of, is_body, is_captured, plain_before, reads_json, source_conflict, source_of,
    unknown_header, value_for, BindingModel, DeclaredModel,
};
use crate::macros::endpoint::{
    AttributeModel, EndpointModel, FunctionModel, InputModel, ParameterModel, SourceModel,
};
#[allow(unused_imports)]
use crate::macros::paths::{joined_path, template_captures};
#[allow(unused_imports)]
use crate::macros::plan::{binding_plan, extraction_of, failure_of};
use crate::macros::plan::{ExtractionModel, FailureModel, RefusedModel};
#[allow(unused_imports)]
use crate::macros::registry::unraw;
use crate::macros::syntax::TypeModel;
#[allow(unused_imports)]
use crate::macros::syntax::{
    byte_slice, inner_of, kind_of_result, named, optional_of, principal_of, scalar, scalar_name,
    ResultKind,
};
use crate::rejection::RejectionKind;

verus! {

/// The names of the types that are read from one piece of text.
pub open spec fn scalar_types() -> Seq<Seq<char>> {
    seq![
        "i8"@,
        "i16"@,
        "i32"@,
        "i64"@,
        "i128"@,
        "isize"@,
        "u8"@,
        "u16"@,
        "u32"@,
        "u64"@,
        "u128"@,
        "usize"@,
        "f32"@,
        "f64"@,
        "bool"@,
        "String"@,
    ]
}

/// Every integer type, every type of floating-point numbers, truth values and
/// strings are scalars, and no other named type is.
pub proof fn law_scalars_are_numbers_truth_values_and_strings(name: Seq<char>)
    ensures
        scalar_name(name) <==> scalar_types().contains(name),
{
    let all = scalar_types();
    assert(all[0] == "i8"@ && all[1] == "i16"@ && all[2] == "i32"@ && all[3] == "i64"@ && all[4]
        == "i128"@ && all[5] == "isize"@ && all[6] == "u8"@ && all[7] == "u16"@ && all[8]
        == "u32"@ && all[9] == "u64"@ && all[10] == "u128"@ && all[11] == "usize"@ && all[12]
        == "f32"@ && all[13] == "f64"@ && all[14] == "bool"@ && all[15] == "String"@);
}

/// A type that a query value is decoded into, with the name that it is written
/// by.
pub trait QueryScalar<'a>: FromQuery<'a> {
    /// The name of the type.
    spec fn written() -> Seq<char>;

    /// A parameter of the type is bound to a query key.
    proof fn law_is_bound_to_a_query_key()
        ensures
            scalar_name(Self::written()),
    ;
}

impl<'a> QueryScalar<'a> for i8 {
    open spec fn written() -> Seq<char> {
        "i8"@
    }

    proof fn law_is_bound_to_a_query_key() {
    }
}

impl<'a> QueryScalar<'a> for i16 {
    open spec fn written() -> Seq<char> {
        "i16"@
    }

    proof fn law_is_bound_to_a_query_key() {
    }
}

impl<'a> QueryScalar<'a> for i32 {
    open spec fn written() -> Seq<char> {
        "i32"@
    }

    proof fn law_is_bound_to_a_query_key() {
    }
}

impl<'a> QueryScalar<'a> for i64 {
    open spec fn written() -> Seq<char> {
        "i64"@
    }

    proof fn law_is_bound_to_a_query_key() {
    }
}

impl<'a> QueryScalar<'a> for i128 {
    open spec fn written() -> Seq<char> {
        "i128"@
    }

    proof fn law_is_bound_to_a_query_key() {
    }
}

impl<'a> QueryScalar<'a> for isize {
    open spec fn written() -> Seq<char> {
        "isize"@
    }

    proof fn law_is_bound_to_a_query_key() {
    }
}

impl<'a> QueryScalar<'a> for u8 {
    open spec fn written() -> Seq<char> {
        "u8"@
    }

    proof fn law_is_bound_to_a_query_key() {
    }
}

impl<'a> QueryScalar<'a> for u16 {
    open spec fn written() -> Seq<char> {
        "u16"@
    }

    proof fn law_is_bound_to_a_query_key() {
    }
}

impl<'a> QueryScalar<'a> for u32 {
    open spec fn written() -> Seq<char> {
        "u32"@
    }

    proof fn law_is_bound_to_a_query_key() {
    }
}

impl<'a> QueryScalar<'a> for u64 {
    open spec fn written() -> Seq<char> {
        "u64"@
    }

    proof fn law_is_bound_to_a_query_key() {
    }
}

impl<'a> QueryScalar<'a> for u128 {
    open spec fn written() -> Seq<char> {
        "u128"@
    }

    proof fn law_is_bound_to_a_query_key() {
    }
}

impl<'a> QueryScalar<'a> for usize {
    open spec fn written() -> Seq<char> {
        "usize"@
    }

    proof fn law_is_bound_to_a_query_key() {
    }
}

impl<'a> QueryScalar<'a> for bool {
    open spec fn written() -> Seq<char> {
        "bool"@
    }

    proof fn law_is_bound_to_a_query_key() {
    }
}

impl<'a> QueryScalar<'a> for String {
    open spec fn written() -> Seq<char> {
        "String"@
    }

    proof fn law_is_bound_to_a_query_key() {
    }
}

/// Whether a type is written as this name alone.
pub open spec fn is_written(ty: TypeModel, name: Seq<char>) -> bool {
    ty matches TypeModel::Path { name: last, argument: None, .. } && last == name
}

/// Whether a type is written as this name with this argument.
pub open spec fn is_written_with(ty: TypeModel, name: Seq<char>, inner: TypeModel) -> bool {
    ty matches TypeModel::Path { name: last, argument: Some(argument), .. } && last == name
        && *argument == inner
}

/// Whether a type is `&str`.
pub open spec fn is_string_slice(ty: TypeModel) -> bool {
    ty matches TypeModel::Reference { element, .. } && (*element matches TypeModel::Path {
        name,
        single: true,
        ..
    } && name == "str"@)
}

/// Whether a type is `&[u8]`.
pub open spec fn is_slice_of_bytes(ty: TypeModel) -> bool {
    ty matches TypeModel::Reference { element, .. } && (*element matches TypeModel::Slice {
        element: item,
        ..
    } && (*item matches TypeModel::Path { name, single: true, .. } && name == "u8"@))
}

/// Whether no annotation says what a parameter is bound to.
pub open spec fn unannotated(attributes: Seq<AttributeModel>) -> bool {
    forall|i: int| 0 <= i < attributes.len() ==> #[trigger] attributes[i] is Other
}

proof fn lemma_unannotated(ident: Seq<char>, attributes: Seq<AttributeModel>, at: int)
    requires
        unannotated(attributes),
        0 <= at <= attributes.len(),
    ensures
        injected(attributes, at, None) == Ok::<Option<Seq<char>>, Seq<char>>(None),
        annotated_header(ident, attributes, at, None) == Ok::<Option<Seq<char>>, Seq<char>>(None),
    decreases attributes.len() - at,
{
    if at < attributes.len() {
        assert(attributes[at] is Other);
        lemma_unannotated(ident, attributes, at + 1);
    }
}

/// Which annotation binds a parameter, where exactly one does.
pub open spec fn only_annotation(attributes: Seq<AttributeModel>, index: int) -> bool {
    &&& 0 <= index < attributes.len()
    &&& forall|i: int|
        0 <= i < attributes.len() && i != index ==> #[trigger] attributes[i] is Other
}

proof fn lemma_only_annotation(
    ident: Seq<char>,
    attributes: Seq<AttributeModel>,
    index: int,
    at: int,
)
    requires
        only_annotation(attributes, index),
        0 <= at <= index,
    ensures
        attributes[index] matches AttributeModel::Inject(name) ==> injected(attributes, at, None)
            == Ok::<Option<Seq<char>>, Seq<char>>(Some(name)) && annotated_header(
            ident,
            attributes,
            at,
            None,
        ) == Ok::<Option<Seq<char>>, Seq<char>>(None),
        attributes[index] matches AttributeModel::HeaderNamed(name) ==> annotated_header(
            ident,
            attributes,
            at,
            None,
        ) == Ok::<Option<Seq<char>>, Seq<char>>(Some(name)) && injected(attributes, at, None)
            == Ok::<Option<Seq<char>>, Seq<char>>(None),
        attributes[index] is Header ==> annotated_header(ident, attributes, at, None) == Ok::<
            Option<Seq<char>>,
            Seq<char>,
        >(Some(unraw(ident))) && injected(attributes, at, None) == Ok::<
            Option<Seq<char>>,
            Seq<char>,
        >(None),
    decreases index - at,
{
    if at < index {
        assert(attributes[at] is Other);
        lemma_only_annotation(ident, attributes, index, at + 1);
    } else {
        lemma_found(ident, attributes, at + 1, unraw(ident));
        if let AttributeModel::HeaderNamed(name) = attributes[at] {
            lemma_found(ident, attributes, at + 1, name);
        }
        if let AttributeModel::Inject(name) = attributes[at] {
            lemma_found(ident, attributes, at + 1, name);
        }
    }
}

proof fn lemma_found(
    ident: Seq<char>,
    attributes: Seq<AttributeModel>,
    at: int,
    name: Seq<char>,
)
    requires
        0 <= at <= attributes.len(),
        forall|i: int| at <= i < attributes.len() ==> #[trigger] attributes[i] is Other,
    ensures
        injected(attributes, at, Some(name)) == Ok::<Option<Seq<char>>, Seq<char>>(Some(name)),
        injected(attributes, at, None) == Ok::<Option<Seq<char>>, Seq<char>>(None),
        annotated_header(ident, attributes, at, Some(name)) == Ok::<Option<Seq<char>>, Seq<char>>(
            Some(name),
        ),
        annotated_header(ident, attributes, at, None) == Ok::<Option<Seq<char>>, Seq<char>>(None),
    decreases attributes.len() - at,
{
    if at < attributes.len() {
        assert(attributes[at] is Other);
        lemma_found(ident, attributes, at + 1, name);
    }
}

/// Where the parameters of a function begin: behind `&self`, where it has one.
pub open spec fn first_parameter(function: FunctionModel) -> int {
    if function.free {
        0
    } else {
        1
    }
}

proof fn lemma_declared(
    inputs: Seq<InputModel>,
    free: bool,
    captures: Seq<Seq<char>>,
    headers: Seq<(Seq<char>, Seq<char>)>,
    at: int,
    done: Seq<DeclaredModel>,
)
    requires
        0 <= at <= inputs.len(),
        declared_from(inputs, free, captures, headers, at, done) is Ok,
    ensures
        ({
            let all = declared_from(inputs, free, captures, headers, at, done)->Ok_0;
            &&& all.len() == done.len() + inputs.len() - at
            &&& done == all.take(done.len() as int)
            &&& forall|i: int|
                at <= i < inputs.len() ==> (#[trigger] inputs[i] matches InputModel::Typed {
                    ident: Some(ident),
                    ty,
                    attributes,
                } && all[done.len() + i - at].ident == ident && all[done.len() + i - at].ty == ty
                    && annotated_binding(ident, ty, attributes, captures, headers) == Ok::<
                    BindingModel,
                    Seq<char>,
                >(all[done.len() + i - at].binding))
        }),
    decreases inputs.len() - at,
{
    if at < inputs.len() {
        let ident = inputs[at]->Typed_ident->Some_0;
        let ty = inputs[at]->Typed_ty;
        let attributes = inputs[at]->Typed_attributes;
        let binding = annotated_binding(ident, ty, attributes, captures, headers)->Ok_0;
        let next = done.push(DeclaredModel { ident, ty, binding });
        lemma_declared(inputs, free, captures, headers, at + 1, next);
        let all = declared_from(inputs, free, captures, headers, at, done)->Ok_0;
        assert(done =~= all.take(done.len() as int)) by {
            assert(next.take(done.len() as int) =~= done);
            assert(all.take(next.len() as int).take(done.len() as int) =~= all.take(
                done.len() as int,
            ));
        }
        assert(all[done.len() as int] == next[done.len() as int]) by {
            assert(all.take(next.len() as int)[done.len() as int] == next[done.len() as int]);
        }
        assert forall|i: int| at <= i < inputs.len() implies (#[trigger] inputs[i] matches
            InputModel::Typed { ident: Some(ident), ty, attributes } && all[done.len() + i
            - at].ident == ident && all[done.len() + i - at].ty == ty && annotated_binding(
            ident,
            ty,
            attributes,
            captures,
            headers,
        ) == Ok::<BindingModel, Seq<char>>(all[done.len() + i - at].binding)) by {
            if i > at {
                assert(next.len() + i - (at + 1) == done.len() + i - at);
            }
        }
    } else {
        assert(done =~= done.take(done.len() as int));
    }
}

/// What is known of the parameter that stands at a place of a bound function.
proof fn lemma_bound(
    function: FunctionModel,
    captures: Seq<Seq<char>>,
    headers: Seq<(Seq<char>, Seq<char>)>,
    at: int,
) -> (declared: Seq<DeclaredModel>)
    requires
        bound_parameters(function, captures, headers) is Ok,
        first_parameter(function) <= at < function.inputs.len(),
    ensures
        ({
            let parameters = bound_parameters(function, captures, headers)->Ok_0;
            let index = at - first_parameter(function);
            &&& parameters.len() == function.inputs.len() - first_parameter(function)
            &&& function.inputs[at] matches InputModel::Typed {
                ident: Some(ident),
                ty,
                attributes,
            } && parameters[index].ident == ident && parameters[index].ty == ty
                && declared[index].ident == ident && declared[index].ty == ty && annotated_binding(
                ident,
                ty,
                attributes,
                captures,
                headers,
            ) == Ok::<BindingModel, Seq<char>>(declared[index].binding)
            &&& declared.len() == parameters.len()
            &&& parameters[index].source == assigned_source(
                declared,
                captures.len(),
                headers,
                index,
            )
            &&& capture_mismatch(declared, captures, 0) is None
        }),
{
    let declared = declared_inputs(function, captures, headers)->Ok_0;
    lemma_declared(
        function.inputs,
        function.free,
        captures,
        headers,
        first_parameter(function),
        Seq::empty(),
    );
    let index = at - first_parameter(function);
    assert(assigned(declared, captures.len(), headers)[index].ident == declared[index].ident);
    assert(function.inputs[at] is Typed);
    declared
}

proof fn lemma_not_captured(
    declared: Seq<DeclaredModel>,
    captures: Seq<Seq<char>>,
    start: int,
    at: int,
)
    requires
        0 <= start <= at < declared.len(),
        capture_mismatch(declared, captures, start) is None,
        !captures.contains(declared[at].ident),
    ensures
        !is_captured(declared, captures.len(), at),
    decreases at - start,
{
    if start < at {
        lemma_not_captured(declared, captures, start + 1, at);
    }
}

proof fn lemma_no_pair(headers: Seq<(Seq<char>, Seq<char>)>, name: Seq<char>)
    requires
        !names_pair(headers, name),
    ensures
        value_for(headers, name) is None,
    decreases headers.len(),
{
    if headers.len() > 0 {
        assert(headers[0].0 != name);
        assert(!names_pair(headers.skip(1), name)) by {
            if names_pair(headers.skip(1), name) {
                let i = choose|i: int|
                    0 <= i < headers.skip(1).len() && (#[trigger] headers.skip(1)[i]).0 == name;
                assert(headers[i + 1].0 == name);
            }
        }
        lemma_no_pair(headers.skip(1), name);
    }
}

/// Whether these are the captures of an endpoint's template.
pub open spec fn captures_are(
    prefix: Seq<char>,
    route: RouteModel,
    captures: Seq<Seq<char>>,
) -> bool {
    template_captures(joined_path(prefix, route.path)) == Ok::<Seq<Seq<char>>, Seq<char>>(captures)
}

/// A parameter without an annotation, whose name is neither a capture of the
/// template nor given a header by the route, is bound by its type. A scalar, a
/// string slice or an optional one of these is read from the query under its
/// own name. Several values of a key make a `Vec`, all keys a `Query`. The
/// other types that the library knows are principals and bodies, and what it
/// does not know is a JSON body.
pub proof fn law_parameters_are_bound_by_their_types(
    method: Seq<char>,
    prefix: Seq<char>,
    function: FunctionModel,
    route: RouteModel,
    auth: AuthMode,
    captures: Seq<Seq<char>>,
    at: int,
    ident: Seq<char>,
    ty: TypeModel,
    attributes: Seq<AttributeModel>,
    inner: TypeModel,
)
    requires
        endpoint_of(method, prefix, function, route, auth) is Ok,
        captures_are(prefix, route, captures),
        first_parameter(function) <= at < function.inputs.len(),
        function.inputs[at] == (InputModel::Typed { ident: Some(ident), ty, attributes }),
        unannotated(attributes),
        !captures.contains(ident),
        !names_pair(route.headers, ident),
    ensures
        ({
            let parameter = endpoint_of(method, prefix, function, route, auth)->Ok_0.parameters[at
                - first_parameter(function)];
            &&& parameter.ident == ident
            &&& parameter.ty == ty
            &&& (forall|k: int|
                0 <= k < scalar_types().len() && is_written(ty, #[trigger] scalar_types()[k])
                    ==> parameter.source == (SourceModel::Query {
                    key: ident,
                    optional_inner: None,
                }))
            &&& (is_string_slice(ty) ==> parameter.source == (SourceModel::Query {
                key: ident,
                optional_inner: None,
            }))
            &&& (forall|k: int|
                0 <= k < scalar_types().len() && is_written_with(ty, "Option"@, inner)
                    && is_written(inner, #[trigger] scalar_types()[k]) ==> parameter.source == (
                SourceModel::Query { key: ident, optional_inner: Some(inner) }))
            &&& (is_written_with(ty, "Option"@, inner) && is_string_slice(inner)
                ==> parameter.source == (SourceModel::Query {
                key: ident,
                optional_inner: Some(inner),
            }))
            &&& (is_written_with(ty, "Vec"@, inner) ==> parameter.source == SourceModel::QueryMany(
                inner,
            ))
            &&& (is_written_with(ty, "Query"@, inner) || is_written(ty, "Query"@)
                ==> parameter.source is QueryObject)
            &&& (is_slice_of_bytes(ty) ==> parameter.source is BorrowedBody)
            &&& (is_written_with(ty, "Form"@, inner) ==> parameter.source is FormBody)
            &&& (is_written(ty, "Multipart"@) ==> parameter.source is MultipartBody)
            &&& (is_written(ty, "Body"@) ==> parameter.source is RawBody)
            &&& (is_written_with(ty, "Authenticated"@, inner) ==> parameter.source is Authenticated)
            &&& (ty matches TypeModel::Path { name, argument: None, .. } && !scalar_types().contains(
                name,
            ) && name != "Query"@ && name != "Form"@ && name != "Multipart"@ && name != "Body"@
                ==> parameter.source is JsonBody)
        }),
{
    lemma_literals();
    let declared = lemma_bound(function, captures, route.headers, at);
    let index = at - first_parameter(function);
    lemma_unannotated(ident, attributes, 0);
    assert(declared[index].binding is Plain);
    lemma_not_captured(declared, captures, 0, index);
    lemma_no_pair(route.headers, ident);
    reveal_with_fuel(scalar, 3);
    assert forall|name: Seq<char>| #[trigger] scalar_name(name) == scalar_types().contains(name) by {
        law_scalars_are_numbers_truth_values_and_strings(name);
    }
    assert forall|k: int| 0 <= k < scalar_types().len() implies scalar_name(
        #[trigger] scalar_types()[k],
    ) && scalar_types()[k] != "Option"@ && scalar_types()[k] != "Query"@ && scalar_types()[k]
        != "Vec"@ by {
        assert(scalar_types().contains(scalar_types()[k]));
        law_scalars_are_numbers_truth_values_and_strings(scalar_types()[k]);
    }
    if let TypeModel::Path { name, .. } = ty {
        law_scalars_are_numbers_truth_values_and_strings(name);
    }
}

/// The names that the rules tell apart are different names.
proof fn lemma_literals()
    ensures
        !scalar_name("Option"@) && !scalar_name("Query"@) && !scalar_name("Vec"@) && !scalar_name(
            "Form"@,
        ) && !scalar_name("Multipart"@) && !scalar_name("Body"@) && !scalar_name("Authenticated"@),
        "Option"@ != "Query"@ && "Option"@ != "Vec"@ && "Option"@ != "Authenticated"@ && "Vec"@
            != "Query"@ && "Vec"@ != "Authenticated"@ && "Query"@ != "Authenticated"@ && "Form"@
            != "Query"@ && "Form"@ != "Vec"@ && "Form"@ != "Option"@ && "Form"@ != "Authenticated"@,
        "Multipart"@ != "Query"@ && "Multipart"@ != "Form"@ && "Body"@ != "Query"@ && "Body"@
            != "Form"@ && "Body"@ != "Multipart"@ && "Multipart"@ != "Option"@ && "Body"@
            != "Option"@ && "Query"@ != "Option"@ && "Multipart"@ != "Vec"@ && "Body"@ != "Vec"@,
{
    reveal_strlit("Option");
    reveal_strlit("Query");
    reveal_strlit("Vec");
    reveal_strlit("Form");
    reveal_strlit("Multipart");
    reveal_strlit("Body");
    reveal_strlit("Authenticated");
    reveal_strlit("i8");
    reveal_strlit("i16");
    reveal_strlit("i32");
    reveal_strlit("i64");
    reveal_strlit("i128");
    reveal_strlit("isize");
    reveal_strlit("u8");
    reveal_strlit("u16");
    reveal_strlit("u32");
    reveal_strlit("u64");
    reveal_strlit("u128");
    reveal_strlit("usize");
    reveal_strlit("f32");
    reveal_strlit("f64");
    reveal_strlit("bool");
    reveal_strlit("String");
    assert("Option"@[0] == 'O');
    assert("Query"@[0] == 'Q');
    assert("Vec"@[0] == 'V');
    assert("Form"@[0] == 'F');
    assert("Multipart"@[0] == 'M');
    assert("Body"@[0] == 'B');
    assert("Authenticated"@[0] == 'A');
    assert("i8"@[0] == 'i' && "i16"@[0] == 'i' && "i32"@[0] == 'i' && "i64"@[0] == 'i'
        && "i128"@[0] == 'i' && "isize"@[0] == 'i' && "u8"@[0] == 'u' && "u16"@[0] == 'u'
        && "u32"@[0] == 'u' && "u64"@[0] == 'u' && "u128"@[0] == 'u' && "usize"@[0] == 'u'
        && "f32"@[0] == 'f' && "f64"@[0] == 'f' && "bool"@[0] == 'b' && "String"@[0] == 'S');
}

/// The last name of a named type.
pub open spec fn is_named(ty: TypeModel, wanted: Seq<char>) -> bool {
    ty matches TypeModel::Path { name, .. } && name == wanted
}

/// Scalars are written by their names, string slices as `&str` and optional ones
/// as options of these; nothing else is one. Slices of bytes are `&[u8]` alone.
pub proof fn law_scalars_are_written_as_such(ty: TypeModel)
    ensures
        scalar(ty) <==> {
            ||| is_string_slice(ty)
            ||| exists|k: int|
                0 <= k < scalar_types().len() && is_named(ty, #[trigger] scalar_types()[k])
            ||| ty matches TypeModel::Path { name, argument: Some(argument), .. } && name
                == "Option"@ && scalar(*argument)
        },
        byte_slice(ty) <==> is_slice_of_bytes(ty),
        optional_of(ty) matches Some(inner) ==> is_written_with(ty, "Option"@, inner),
        optional_of(ty) is None ==> (ty matches TypeModel::Path {
            name,
            argument: Some(_),
            ..
        } ==> name != "Option"@),
{
    lemma_literals();
    reveal_with_fuel(scalar, 2);
    if let TypeModel::Path { name, .. } = ty {
        law_scalars_are_numbers_truth_values_and_strings(name);
        if scalar_types().contains(name) {
            let k = choose|k: int|
                0 <= k < scalar_types().len() && scalar_types()[k] == name;
            assert(is_named(ty, scalar_types()[k]));
        }
        if exists|k: int|
            0 <= k < scalar_types().len() && is_named(ty, #[trigger] scalar_types()[k]) {
            let k = choose|k: int|
                0 <= k < scalar_types().len() && is_named(ty, #[trigger] scalar_types()[k]);
            assert(scalar_types().contains(scalar_types()[k]));
        }
    }
}

/// Every type that is neither a principal nor given a header by the route is
/// bound in one way, by what it is written as; what is written as none of the
/// known ones is a JSON body.
pub proof fn law_types_are_told_apart(
    ident: Seq<char>,
    ty: TypeModel,
    headers: Seq<(Seq<char>, Seq<char>)>,
    inner: TypeModel,
)
    requires
        !names_pair(headers, ident),
        principal_of(ty) is None,
    ensures
        ({
            let source = source_of(ident, ty, headers);
            &&& source is QueryObject <==> is_named(ty, "Query"@)
            &&& source == SourceModel::QueryMany(inner) <==> is_written_with(ty, "Vec"@, inner)
            &&& source is Query <==> scalar(ty)
            &&& source is Query ==> source == (SourceModel::Query {
                key: ident,
                optional_inner: optional_of(ty),
            })
            &&& source is BorrowedBody <==> is_slice_of_bytes(ty)
            &&& source is FormBody <==> is_named(ty, "Form"@)
            &&& source is MultipartBody <==> is_named(ty, "Multipart"@)
            &&& source is RawBody <==> is_named(ty, "Body"@)
            &&& !(source is Header || source is Path || source is Injected || source
                is Authenticated)
        }),
{
    lemma_literals();
    lemma_no_pair(headers, ident);
    law_scalars_are_written_as_such(ty);
    reveal_with_fuel(scalar, 2);
    if let TypeModel::Path { name, .. } = ty {
        law_scalars_are_numbers_truth_values_and_strings(name);
    }
}

/// A parameter with one annotation is bound to what that says: the dependency
/// of that name, the header of that name, or the header of its own name.
pub proof fn law_annotations_bind_parameters(
    method: Seq<char>,
    prefix: Seq<char>,
    function: FunctionModel,
    route: RouteModel,
    auth: AuthMode,
    captures: Seq<Seq<char>>,
    at: int,
    ident: Seq<char>,
    ty: TypeModel,
    attributes: Seq<AttributeModel>,
    index: int,
)
    requires
        endpoint_of(method, prefix, function, route, auth) is Ok,
        captures_are(prefix, route, captures),
        first_parameter(function) <= at < function.inputs.len(),
        function.inputs[at] == (InputModel::Typed { ident: Some(ident), ty, attributes }),
        only_annotation(attributes, index),
    ensures
        ({
            let source = endpoint_of(method, prefix, function, route, auth)->Ok_0.parameters[at
                - first_parameter(function)].source;
            &&& attributes[index] matches AttributeModel::Inject(name) ==> source
                == SourceModel::Injected(name)
            &&& attributes[index] matches AttributeModel::HeaderNamed(name) ==> (source matches SourceModel::Header {
                name: header,
                ..
            } && header == name)
            &&& attributes[index] is Header ==> (source matches SourceModel::Header {
                name: header,
                ..
            } && header == unraw(ident))
        }),
{
    let declared = lemma_bound(function, captures, route.headers, at);
    lemma_only_annotation(ident, attributes, index, 0);
}

/// A parameter that the route gives a header is read from that header.
pub proof fn law_routes_bind_headers(
    method: Seq<char>,
    prefix: Seq<char>,
    function: FunctionModel,
    route: RouteModel,
    auth: AuthMode,
    captures: Seq<Seq<char>>,
    at: int,
    ident: Seq<char>,
    ty: TypeModel,
    attributes: Seq<AttributeModel>,
    pair: int,
)
    requires
        endpoint_of(method, prefix, function, route, auth) is Ok,
        captures_are(prefix, route, captures),
        first_parameter(function) <= at < function.inputs.len(),
        function.inputs[at] == (InputModel::Typed { ident: Some(ident), ty, attributes }),
        unannotated(attributes),
        !captures.contains(ident),
        0 <= pair < route.headers.len(),
        route.headers[pair].0 == ident,
        forall|j: int| 0 <= j < pair ==> (#[trigger] route.headers[j]).0 != ident,
        principal_of(ty) is None,
    ensures
        endpoint_of(method, prefix, function, route, auth)->Ok_0.parameters[at - first_parameter(
            function,
        )].source == (SourceModel::Header {
            name: route.headers[pair].1,
            optional_inner: optional_of(ty),
        }),
{
    let declared = lemma_bound(function, captures, route.headers, at);
    let index = at - first_parameter(function);
    lemma_unannotated(ident, attributes, 0);
    lemma_not_captured(declared, captures, 0, index);
    lemma_value_for(route.headers, ident, pair);
}

proof fn lemma_value_for(headers: Seq<(Seq<char>, Seq<char>)>, name: Seq<char>, pair: int)
    requires
        0 <= pair < headers.len(),
        headers[pair].0 == name,
        forall|j: int| 0 <= j < pair ==> (#[trigger] headers[j]).0 != name,
    ensures
        value_for(headers, name) == Some(headers[pair].1),
    decreases pair,
{
    if pair > 0 {
        let rest = headers.skip(1);
        assert(headers[0].0 != name);
        assert forall|j: int| 0 <= j < pair - 1 implies (#[trigger] rest[j]).0 != name by {
            assert(rest[j] == headers[j + 1]);
        }
        lemma_value_for(rest, name, pair - 1);
    }
}

/// An endpoint has the method, the template and the function that it was made
/// of, expects a JSON body exactly where a parameter is one, and answers a
/// result as a result.
pub proof fn law_endpoints_say_what_they_are_made_of(
    method: Seq<char>,
    prefix: Seq<char>,
    function: FunctionModel,
    route: RouteModel,
    auth: AuthMode,
    endpoint: EndpointModel,
)
    requires
        endpoint_of(method, prefix, function, route, auth) == Ok::<EndpointModel, Seq<char>>(
            endpoint,
        ),
    ensures
        endpoint.method == method,
        endpoint.path == joined_path(prefix, route.path),
        endpoint.handler == function.name,
        endpoint.auth == auth,
        endpoint.api_log == route.api_log,
        function.is_async,
        !function.generic,
        endpoint.has_json_body <==> exists|i: int|
            0 <= i < endpoint.parameters.len() && (
            #[trigger] endpoint.parameters[i]).source is JsonBody,
        endpoint.result is Result <==> (function.output matches Some(TypeModel::Path { name, .. })
            && (name == "Result"@ || name == "ApiResult"@)),
        function.output is Some,
{
}

/// A principal is given where the route authenticates: a required one as it is,
/// an optional one as an option, and none where authentication is off.
pub proof fn law_principals_suit_the_authentication(
    method: Seq<char>,
    prefix: Seq<char>,
    function: FunctionModel,
    route: RouteModel,
    auth: AuthMode,
    endpoint: EndpointModel,
    index: int,
)
    requires
        endpoint_of(method, prefix, function, route, auth) == Ok::<EndpointModel, Seq<char>>(
            endpoint,
        ),
        0 <= index < endpoint.parameters.len(),
        endpoint.parameters[index].source is Authenticated,
        forall|j: int|
            0 <= j < index ==> !((#[trigger] endpoint.parameters[j]).source is Authenticated),
    ensures
        auth !is Off,
        principal_of(endpoint.parameters[index].ty) matches Some((_, optional)) ==> (optional
            <==> auth is Optional),
{
    lemma_authenticated(endpoint.parameters, index, 0);
}

proof fn lemma_authenticated(parameters: Seq<ParameterModel>, index: int, at: int)
    requires
        0 <= at <= index < parameters.len(),
        parameters[index].source is Authenticated,
        forall|j: int| 0 <= j < index ==> !((#[trigger] parameters[j]).source is Authenticated),
    ensures
        authenticated_from(parameters, at) == Some(parameters[index]),
    decreases index - at,
{
    if at < index {
        lemma_authenticated(parameters, index, at + 1);
    }
}

/// The principal of a parameter is what `Authenticated` is written with, also
/// behind one `Option`, which makes it optional.
pub proof fn law_principals_are_written_as_authenticated(
    principal: TypeModel,
    ty: TypeModel,
    outer: TypeModel,
)
    requires
        is_written_with(ty, "Authenticated"@, principal),
        is_written_with(outer, "Option"@, ty),
    ensures
        principal_of(ty) == Some((principal, false)),
        principal_of(outer) == Some((principal, true)),
        principal_of(principal) is Some ==> (principal matches TypeModel::Path { name, .. } && (name
            == "Option"@ || name == "Authenticated"@)),
{
    lemma_literals();
}

/// Nothing else is a principal.
pub proof fn law_only_authenticated_parameters_are_principals(
    ty: TypeModel,
    inner: TypeModel,
    principal: TypeModel,
)
    ensures
        principal_of(ty) == Some((principal, false)) ==> is_written_with(
            ty,
            "Authenticated"@,
            principal,
        ),
        principal_of(ty) == Some((principal, true)) && is_written_with(ty, "Option"@, inner)
            ==> is_written_with(inner, "Authenticated"@, principal),
        principal_of(ty) == Some((principal, true)) ==> is_named(ty, "Option"@),
        is_written_with(ty, "Option"@, inner) && is_named(inner, "Option"@) ==> principal_of(ty)
            is None,
{
    lemma_literals();
}

/// The value of a parameter is made from where it comes from: a required value
/// as its type, an optional one as what it holds, and a dependency by borrowing
/// where the parameter is a reference.
pub proof fn law_values_are_made_from_their_sources(parameter: ParameterModel)
    ensures
        extraction_of(parameter) is None <==> parameter.source is Authenticated,
        parameter.source matches SourceModel::Path(index) ==> extraction_of(parameter) == Some(
            ExtractionModel::Path(index),
        ),
        parameter.source matches SourceModel::Query { key, optional_inner: None }
            ==> extraction_of(parameter) == Some(
            ExtractionModel::QueryRequired { key, ty: parameter.ty },
        ),
        parameter.source matches SourceModel::Query { key, optional_inner: Some(inner) }
            ==> extraction_of(parameter) == Some(ExtractionModel::QueryOptional { key, inner }),
        parameter.source matches SourceModel::Header { name, optional_inner: None }
            ==> extraction_of(parameter) == Some(
            ExtractionModel::HeaderRequired { name, ty: parameter.ty },
        ),
        parameter.source matches SourceModel::Header { name, optional_inner: Some(inner) }
            ==> extraction_of(parameter) == Some(ExtractionModel::HeaderOptional { name, inner }),
        parameter.source matches SourceModel::QueryMany(inner) ==> extraction_of(parameter)
            == Some(ExtractionModel::QueryMany { key: parameter.ident, inner }),
        parameter.source is QueryObject ==> extraction_of(parameter) == Some(
            ExtractionModel::QueryObject,
        ),
        parameter.source is JsonBody ==> extraction_of(parameter) == Some(ExtractionModel::Json),
        parameter.source is FormBody ==> extraction_of(parameter) == Some(ExtractionModel::Form),
        parameter.source is MultipartBody ==> extraction_of(parameter) == Some(
            ExtractionModel::Multipart,
        ),
        parameter.source is RawBody ==> extraction_of(parameter) == Some(ExtractionModel::RawBody),
        parameter.source is BorrowedBody ==> extraction_of(parameter) == Some(
            ExtractionModel::BorrowedBody,
        ),
        parameter.source matches SourceModel::Injected(name) ==> extraction_of(parameter) == Some(
            if parameter.ty is Reference {
                ExtractionModel::Borrowed(name)
            } else {
                ExtractionModel::Cloned(name)
            },
        ),
{
}

/// A value that cannot be made is refused as a fault of where it comes from.
pub proof fn law_refusals_name_where_values_come_from(parameter: ParameterModel)
    ensures
        parameter.source matches SourceModel::Path(index) ==> failure_of(parameter) == (
        FailureModel::Reject { kind: RejectionKind::Path, input: RefusedModel::Capture(index) }),
        parameter.source is Query || parameter.source is QueryMany
            || parameter.source is QueryObject ==> failure_of(parameter) == (FailureModel::Reject {
            kind: RejectionKind::Query,
            input: RefusedModel::Query(parameter.ident),
        }),
        parameter.source matches SourceModel::Header { name, .. } ==> failure_of(parameter) == (
        FailureModel::Reject { kind: RejectionKind::Header, input: RefusedModel::Header(name) }),
        parameter.source is JsonBody ==> failure_of(parameter) == (FailureModel::Reject {
            kind: RejectionKind::Body,
            input: RefusedModel::Body,
        }),
        failure_of(parameter) is RejectBody <==> parameter.source is FormBody
            || parameter.source is MultipartBody,
        failure_of(parameter) is Never <==> parameter.source is Injected
            || parameter.source is Authenticated || parameter.source is RawBody
            || parameter.source is BorrowedBody,
{
}

} // verus!

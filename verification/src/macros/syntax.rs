//! Declarations, as far as the rules for routes read them.
use vstd::prelude::*;

use crate::macros::SyntaxError;
use crate::text::same_text;

verus! {

/// A type as it was written.
#[derive(Debug)]
pub enum TypeSyntax {
    /// A named type.
    Path {
        /// The last identifier of its path.
        name: String,
        /// Whether the path is that identifier alone.
        single: bool,
        /// The first of its generic arguments, where that is a type.
        argument: Option<Box<TypeSyntax>>,
        text: String,
    },
    Reference { mutable: bool, element: Box<TypeSyntax>, text: String },
    Slice { element: Box<TypeSyntax>, text: String },
    Other { text: String },
}

/// What a [`TypeSyntax`] says.
pub enum TypeModel {
    Path { name: Seq<char>, single: bool, argument: Option<Box<TypeModel>>, text: Seq<char> },
    Reference { mutable: bool, element: Box<TypeModel>, text: Seq<char> },
    Slice { element: Box<TypeModel>, text: Seq<char> },
    Other { text: Seq<char> },
}

impl TypeSyntax {
    pub open spec fn model(self) -> TypeModel
        decreases self,
    {
        match self {
            TypeSyntax::Path { name, single, argument, text } => TypeModel::Path {
                name: name@,
                single,
                argument: match argument {
                    Some(argument) => Some(Box::new(argument.model())),
                    None => None,
                },
                text: text@,
            },
            TypeSyntax::Reference { mutable, element, text } => TypeModel::Reference {
                mutable,
                element: Box::new(element.model()),
                text: text@,
            },
            TypeSyntax::Slice { element, text } => TypeModel::Slice {
                element: Box::new(element.model()),
                text: text@,
            },
            TypeSyntax::Other { text } => TypeModel::Other { text: text@ },
        }
    }

    /// The type as it was written.
    pub fn text(&self) -> (text: &str)
        ensures
            text@ == type_text(self.model()),
    {
        match self {
            TypeSyntax::Path { text, .. } => text.as_str(),
            TypeSyntax::Reference { text, .. } => text.as_str(),
            TypeSyntax::Slice { text, .. } => text.as_str(),
            TypeSyntax::Other { text } => text.as_str(),
        }
    }
}

pub open spec fn type_text(ty: TypeModel) -> Seq<char> {
    match ty {
        TypeModel::Path { text, .. } => text,
        TypeModel::Reference { text, .. } => text,
        TypeModel::Slice { text, .. } => text,
        TypeModel::Other { text } => text,
    }
}

/// A type that may be missing.
pub open spec fn type_model(ty: Option<&TypeSyntax>) -> Option<TypeModel> {
    match ty {
        Some(ty) => Some(ty.model()),
        None => None,
    }
}

/// The argument of a generic type of this name.
pub open spec fn inner_of(ty: TypeModel, wanted: Seq<char>) -> Option<TypeModel> {
    match ty {
        TypeModel::Path { name, argument: Some(argument), .. } => if name == wanted {
            Some(*argument)
        } else {
            None
        },
        _ => None,
    }
}

/// The argument of a generic type of this name.
pub fn generic_inner<'a>(ty: &'a TypeSyntax, wanted: &str) -> (inner: Option<&'a TypeSyntax>)
    ensures
        type_model(inner) == inner_of(ty.model(), wanted@),
        inner matches Some(inner) ==> decreases_to!(ty => inner),
{
    match ty {
        TypeSyntax::Path { name, argument: Some(argument), .. } => {
            if same_text(name.as_str(), wanted) {
                Some(argument)
            } else {
                None
            }
        },
        _ => None,
    }
}

/// The type that an optional one holds.
pub open spec fn optional_of(ty: TypeModel) -> Option<TypeModel> {
    inner_of(ty, "Option"@)
}

pub fn option_inner<'a>(ty: &'a TypeSyntax) -> (inner: Option<&'a TypeSyntax>)
    ensures
        type_model(inner) == optional_of(ty.model()),
        inner matches Some(inner) ==> decreases_to!(ty => inner),
{
    generic_inner(ty, "Option")
}

/// The principal of an authenticated parameter, and whether it may be missing.
pub open spec fn principal_of(ty: TypeModel) -> Option<(TypeModel, bool)> {
    match optional_of(ty) {
        Some(inner) => match (optional_of(inner), inner_of(inner, "Authenticated"@)) {
            (None, Some(principal)) => Some((principal, true)),
            _ => None,
        },
        None => match inner_of(ty, "Authenticated"@) {
            Some(principal) => Some((principal, false)),
            None => None,
        },
    }
}

pub fn authenticated_inner<'a>(ty: &'a TypeSyntax) -> (found: Option<(&'a TypeSyntax, bool)>)
    ensures
        match found {
            Some((principal, optional)) => principal_of(ty.model()) == Some(
                (principal.model(), optional),
            ),
            None => principal_of(ty.model()) is None,
        },
{
    match option_inner(ty) {
        Some(inner) => {
            if option_inner(inner).is_some() {
                return None;
            }
            match generic_inner(inner, "Authenticated") {
                Some(principal) => Some((principal, true)),
                None => None,
            }
        },
        None => match generic_inner(ty, "Authenticated") {
            Some(principal) => Some((principal, false)),
            None => None,
        },
    }
}

/// The names of the types that are read from one piece of text.
pub open spec fn scalar_name(name: Seq<char>) -> bool {
    ||| name == "String"@
    ||| name == "bool"@
    ||| name == "i8"@
    ||| name == "i16"@
    ||| name == "i32"@
    ||| name == "i64"@
    ||| name == "i128"@
    ||| name == "isize"@
    ||| name == "u8"@
    ||| name == "u16"@
    ||| name == "u32"@
    ||| name == "u64"@
    ||| name == "u128"@
    ||| name == "usize"@
    ||| name == "f32"@
    ||| name == "f64"@
}

/// Whether a type is read from one piece of text: a string slice, a scalar, or
/// an optional one of these.
pub open spec fn scalar(ty: TypeModel) -> bool
    decreases ty,
{
    match ty {
        TypeModel::Path { name, argument: Some(argument), .. } => if name == "Option"@ {
            scalar(*argument)
        } else {
            scalar_name(name)
        },
        TypeModel::Path { name, .. } => scalar_name(name),
        TypeModel::Reference { element, .. } => match *element {
            TypeModel::Path { name, single, .. } => single && name == "str"@,
            _ => false,
        },
        _ => false,
    }
}

fn is_scalar_name(name: &str) -> (found: bool)
    ensures
        found == scalar_name(name@),
{
    same_text(name, "String") || same_text(name, "bool") || same_text(name, "i8") || same_text(
        name,
        "i16",
    ) || same_text(name, "i32") || same_text(name, "i64") || same_text(name, "i128") || same_text(
        name,
        "isize",
    ) || same_text(name, "u8") || same_text(name, "u16") || same_text(name, "u32") || same_text(
        name,
        "u64",
    ) || same_text(name, "u128") || same_text(name, "usize") || same_text(name, "f32") || same_text(
        name,
        "f64",
    )
}

pub fn is_scalar(ty: &TypeSyntax) -> (found: bool)
    ensures
        found == scalar(ty.model()),
    decreases ty,
{
    proof {
        reveal_with_fuel(TypeSyntax::model, 2);
        reveal_with_fuel(scalar, 2);
    }
    if let Some(inner) = option_inner(ty) {
        return is_scalar(inner);
    }
    match ty {
        TypeSyntax::Path { name, .. } => is_scalar_name(name.as_str()),
        TypeSyntax::Reference { element, .. } => match &**element {
            TypeSyntax::Path { name, single, .. } => *single && same_text(name.as_str(), "str"),
            _ => false,
        },
        _ => false,
    }
}

/// The last identifier of a named type.
pub open spec fn named(ty: TypeModel) -> Option<Seq<char>> {
    match ty {
        TypeModel::Path { name, .. } => Some(name),
        _ => None,
    }
}

/// Whether the last identifier of a type is this one.
pub fn has_name(ty: &TypeSyntax, wanted: &str) -> (same: bool)
    ensures
        same == (named(ty.model()) == Some(wanted@)),
{
    match ty {
        TypeSyntax::Path { name, .. } => same_text(name.as_str(), wanted),
        _ => false,
    }
}

/// Whether a type is a slice of bytes.
pub open spec fn byte_slice(ty: TypeModel) -> bool {
    match ty {
        TypeModel::Reference { element, .. } => match *element {
            TypeModel::Slice { element, .. } => match *element {
                TypeModel::Path { name, single, .. } => single && name == "u8"@,
                _ => false,
            },
            _ => false,
        },
        _ => false,
    }
}

pub fn is_byte_slice(ty: &TypeSyntax) -> (found: bool)
    ensures
        found == byte_slice(ty.model()),
{
    proof {
        reveal_with_fuel(TypeSyntax::model, 3);
    }
    match ty {
        TypeSyntax::Reference { element, .. } => match &**element {
            TypeSyntax::Slice { element, .. } => match &**element {
                TypeSyntax::Path { name, single, .. } => *single && same_text(name.as_str(), "u8"),
                _ => false,
            },
            _ => false,
        },
        _ => false,
    }
}

/// Whether what a function returns is a value, or a value or an error.
#[derive(Clone, Copy, Debug, PartialEq, Eq, Structural)]
pub enum ResultKind {
    Value,
    Result,
}

/// How a function's result is answered.
pub open spec fn kind_of_result(output: Option<TypeModel>) -> Result<ResultKind, Seq<char>> {
    match output {
        None => Err("HTTP API methods must return a JSON-serializable value or ApiResult<T>"@),
        Some(ty) => if named(ty) == Some("Result"@) || named(ty) == Some("ApiResult"@) {
            Ok(ResultKind::Result)
        } else {
            Ok(ResultKind::Value)
        },
    }
}

pub open spec fn kind_or_message(outcome: Result<ResultKind, SyntaxError>) -> Result<
    ResultKind,
    Seq<char>,
> {
    match outcome {
        Ok(kind) => Ok(kind),
        Err(error) => Err(error@),
    }
}

pub fn result_kind(output: Option<&TypeSyntax>) -> (kind: Result<ResultKind, SyntaxError>)
    ensures
        kind_or_message(kind) == kind_of_result(type_model(output)),
{
    match output {
        None => Err(
            SyntaxError::of(
                "HTTP API methods must return a JSON-serializable value or ApiResult<T>",
            ),
        ),
        Some(ty) => {
            if has_name(ty, "Result") || has_name(ty, "ApiResult") {
                Ok(ResultKind::Result)
            } else {
                Ok(ResultKind::Value)
            }
        },
    }
}

/// The lifetime that stands for this one in a binding: the named ones of a
/// function are not known there.
pub open spec fn bound_lifetime(name: Seq<char>) -> Seq<char> {
    if name == "static"@ {
        name
    } else {
        "_"@
    }
}

pub fn binding_lifetime<'a>(name: &'a str) -> (bound: &'a str)
    ensures
        bound@ == bound_lifetime(name@),
{
    if same_text(name, "static") {
        name
    } else {
        "_"
    }
}

} // verus!

//! Failed parameter bindings and their default responses.
use vstd::prelude::*;

use crate::body::BodyError;
#[allow(unused_imports)]
use crate::response::ResponseModel;
use crate::response::{Response, StatusCode};

verus! {

/// The binding that failed before the application's code could run.
#[derive(Clone, Copy, Debug, PartialEq, Eq, Structural)]
pub enum RejectionKind {
    Path,
    Query,
    Header,
    Body,
    ContentType,
}

/// What an application is told of a failed binding.
#[derive(Debug)]
pub struct Rejection {
    pub kind: RejectionKind,
    pub parameter: &'static str,
    pub input: Option<String>,
    pub message: String,
}

impl Rejection {
    pub fn new(
        kind: RejectionKind,
        parameter: &'static str,
        input: Option<&str>,
        message: String,
    ) -> (rejection: Self)
        ensures
            rejection.kind == kind,
            rejection.parameter == parameter,
            match (rejection.input, input) {
                (Some(kept), Some(input)) => kept@ == input@,
                (None, None) => true,
                _ => false,
            },
            rejection.message == message,
    {
        Rejection {
            kind,
            parameter,
            input: match input {
                Some(input) => Some(input.to_owned()),
                None => None,
            },
            message,
        }
    }

    /// What an application is told of a body that could not be decoded.
    pub fn of_body(error: &BodyError, parameter: &'static str) -> (rejection: Self)
        ensures
            rejection.kind == (match error {
                BodyError::UnsupportedMediaType => RejectionKind::ContentType,
                BodyError::Invalid(_) => RejectionKind::Body,
            }),
            rejection.parameter == parameter,
            rejection.input is None,
            rejection.message@ == error.message(),
    {
        let kind = match error {
            BodyError::UnsupportedMediaType => RejectionKind::ContentType,
            BodyError::Invalid(_) => RejectionKind::Body,
        };
        Rejection::new(kind, parameter, None, error.to_string())
    }
}

/// The response where the application does not map failed bindings itself.
pub fn default_rejection(error: &Rejection) -> (response: Response)
    ensures
        response@ == ResponseModel::empty(
            if error.kind is ContentType {
                415
            } else {
                400
            },
        ),
{
    Response::empty(
        match error.kind {
            RejectionKind::ContentType => StatusCode::new(415),
            _ => StatusCode::new(400),
        },
    )
}

} // verus!

//! Authentication of requests.
use brz_ds::EphemeralBytesArena;

use vstd::prelude::*;
use vstd::string::StringSliceAdditionalSpecFns;

#[allow(unused_imports)]
use crate::request::{header_value};
use crate::request::{find_header, Header, Request};
#[allow(unused_imports)]
use crate::response::{text_of, ResponseModel};
use crate::response::{Response, StatusCode};
#[allow(unused_imports)]
use crate::text::cut;

verus! {

/// What an authenticator sees of a request: neither its body nor the arena.
#[derive(Clone, Copy, Debug)]
pub struct AuthRequest<'a> {
    method: &'a str,
    path: &'a str,
    query: Option<&'a str>,
    headers: &'a [Header<'a>],
    peer_addr: &'a str,
}

impl<'a> AuthRequest<'a> {
    pub closed spec fn method_text(self) -> Seq<char> {
        self.method@
    }

    pub closed spec fn path_text(self) -> Seq<char> {
        self.path@
    }

    pub closed spec fn query_text(self) -> Option<Seq<char>> {
        text_of(self.query)
    }

    pub closed spec fn header_list(self) -> Seq<Header<'a>> {
        self.headers@
    }

    pub closed spec fn peer_text(self) -> Seq<char> {
        self.peer_addr@
    }

    pub fn from_request(request: &Request<'a>) -> (view: Self)
        ensures
            view.method_text() == request@.method,
            view.path_text() == cut(request@.target, '?').0,
            view.query_text() == cut(request@.target, '?').1,
            view.header_list() == request@.headers,
            view.peer_text() == request@.peer_addr,
    {
        AuthRequest {
            method: request.method(),
            path: request.path(),
            query: request.query(),
            headers: request.headers(),
            peer_addr: request.peer_addr(),
        }
    }

    /// The method as it was sent.
    pub fn method(self) -> (method: &'a str)
        ensures
            method@ == self.method_text(),
    {
        self.method
    }

    /// The path without the query.
    pub fn path(self) -> (path: &'a str)
        ensures
            path@ == self.path_text(),
    {
        self.path
    }

    /// The query as it was sent.
    pub fn query(self) -> (query: Option<&'a str>)
        ensures
            text_of(query) == self.query_text(),
    {
        self.query
    }

    /// The value of the first header of this name, in any case.
    pub fn header(self, name: &str) -> (value: Option<&'a [u8]>)
        ensures
            match value {
                Some(value) => header_value(self.header_list(), name.spec_bytes()) == Some(value@),
                None => header_value(self.header_list(), name.spec_bytes()) is None,
            },
    {
        find_header(self.headers, name)
    }

    /// The remote address of the connection.
    pub fn peer_addr(self) -> (peer_addr: &'a str)
        ensures
            peer_addr@ == self.peer_text(),
    {
        self.peer_addr
    }
}

/// Why a request was not authenticated.
#[derive(Clone, Copy, Debug, PartialEq, Eq)]
pub enum AuthFailure {
    /// The request had no credentials.
    MissingCredentials { challenge: &'static str },
    /// The request's credentials were not accepted.
    InvalidCredentials { challenge: &'static str },
    /// The authority cannot be reached for the time being.
    Unavailable,
    /// Authentication failed unexpectedly.
    Internal,
}

impl AuthFailure {
    pub fn missing_credentials(challenge: &'static str) -> (failure: Self)
        ensures
            failure == (AuthFailure::MissingCredentials { challenge }),
    {
        AuthFailure::MissingCredentials { challenge }
    }

    pub fn invalid_credentials(challenge: &'static str) -> (failure: Self)
        ensures
            failure == (AuthFailure::InvalidCredentials { challenge }),
    {
        AuthFailure::InvalidCredentials { challenge }
    }

    /// The response where the application does not map failures itself.
    pub open spec fn response(self) -> ResponseModel {
        match self {
            AuthFailure::MissingCredentials { challenge } => ResponseModel {
                www_authenticate: Some(challenge@),
                ..ResponseModel::empty(401)
            },
            AuthFailure::InvalidCredentials { challenge } => ResponseModel {
                www_authenticate: Some(challenge@),
                ..ResponseModel::empty(401)
            },
            AuthFailure::Unavailable => ResponseModel::empty(503),
            AuthFailure::Internal => ResponseModel { close: true, ..ResponseModel::empty(500) },
        }
    }

    pub fn into_response(self) -> (response: Response)
        ensures
            response@ == self.response(),
    {
        match self {
            AuthFailure::MissingCredentials { challenge } => Response::unauthorized(challenge),
            AuthFailure::InvalidCredentials { challenge } => Response::unauthorized(challenge),
            AuthFailure::Unavailable => Response::empty(StatusCode::new(503)),
            AuthFailure::Internal => Response::empty(StatusCode::new(500)).close(),
        }
    }
}

/// How an application answers requests that it does not authenticate.
pub trait Authenticator {
    fn reject(
        &self,
        request: AuthRequest<'_>,
        failure: AuthFailure,
        arena: &EphemeralBytesArena,
    ) -> (response: Response)
        default_ensures
            response@ == failure.response(),
    {
        failure.into_response()
    }
}

/// The authenticator of a server that has none: no request has credentials.
#[derive(Clone, Copy, Debug, Default)]
pub struct NoAuthenticator;

impl Authenticator for NoAuthenticator {

}

impl NoAuthenticator {
    pub fn authenticate<P>(&self, request: AuthRequest<'_>) -> (outcome: Result<P, AuthFailure>)
        ensures
            outcome matches Err(AuthFailure::MissingCredentials { challenge }) && challenge@
                == "Bearer"@,
    {
        Err(AuthFailure::missing_credentials("Bearer"))
    }
}

/// Lets an authenticated request through and answers any other.
pub fn authenticate_required<A: Authenticator, P>(
    authenticator: &A,
    outcome: Result<P, AuthFailure>,
    request: AuthRequest<'_>,
    arena: &EphemeralBytesArena,
) -> (admitted: Result<P, Response>)
    ensures
        match outcome {
            Ok(principal) => admitted == Ok::<P, Response>(principal),
            Err(failure) => admitted matches Err(response) && call_ensures(
                A::reject,
                (authenticator, request, failure, arena),
                response,
            ),
        },
{
    match outcome {
        Ok(principal) => Ok(principal),
        Err(failure) => Err(authenticator.reject(request, failure, arena)),
    }
}

/// Lets a request without credentials through as well; one whose credentials
/// could not be confirmed is answered.
pub fn authenticate_optional<A: Authenticator, P>(
    authenticator: &A,
    outcome: Result<P, AuthFailure>,
    request: AuthRequest<'_>,
    arena: &EphemeralBytesArena,
) -> (admitted: Result<Option<P>, Response>)
    ensures
        match outcome {
            Ok(principal) => admitted == Ok::<Option<P>, Response>(Some(principal)),
            Err(AuthFailure::MissingCredentials { challenge }) => admitted == Ok::<
                Option<P>,
                Response,
            >(None),
            Err(failure) => admitted matches Err(response) && call_ensures(
                A::reject,
                (authenticator, request, failure, arena),
                response,
            ),
        },
{
    match outcome {
        Ok(principal) => Ok(Some(principal)),
        Err(AuthFailure::MissingCredentials { .. }) => Ok(None),
        Err(failure) => Err(authenticator.reject(request, failure, arena)),
    }
}

/// A server without an authenticator answers every request that needs one with
/// a challenge, and lets every request through that does not.
pub proof fn law_no_authenticator_challenges(failure: AuthFailure)
    requires
        failure matches AuthFailure::MissingCredentials { challenge } && challenge@ == "Bearer"@,
    ensures
        failure.response().status == 401,
        failure.response().www_authenticate == Some("Bearer"@),
{
}

} // verus!

//! A bounded HTTP/1.1 server library with verified request and response logic.

pub mod api_metrics;
pub mod arena;
pub mod auth;
pub mod body;
pub mod cors;
pub mod error;
pub mod extract;
pub mod filter;
pub mod headers;
pub mod laws;
pub mod macros;
pub mod methods;
pub mod params;
pub mod registry;
pub mod rejection;
pub mod reply;
pub mod request;
pub mod response;
pub mod route;
pub mod router;
pub mod server;
pub mod text;

pub use api_metrics::ApiMetrics;
pub use auth::{AuthFailure, AuthRequest, Authenticator, NoAuthenticator};
pub use body::{Body, BodyError, Form, Multipart, Upload};
pub use brz_ds::{EphemeralBytes, EphemeralBytesArena, EphemeralBytesMut};
pub use bytes::Bytes;
pub use cors::Cors;
pub use error::Error;
pub use extract::{ExtractError, FromHeader, FromPath, FromQuery};
pub use filter::{FilterDecision, Filtered, HttpFilter};
pub use params::Query;
pub use registry::{FromState, RegistryError};
pub use rejection::{Rejection, RejectionKind};
pub use reply::{
    ApiError, Binary, Html, HttpResponse, IntoHttpError, IntoHttpResponse, Redirect, Text,
};
pub use request::{Header, Request};
pub use response::{
    HeaderBlock, HeaderBlockError, Response, ResponseBody, ResponseStream, StatusCode,
};
pub use router::Router;
pub use server::ServerConfig;

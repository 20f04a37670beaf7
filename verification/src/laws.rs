//! What holds of the library as a whole.
//!
//! Each law is a proof function. It says what a caller may rely on in terms of
//! what goes in and what comes out.

pub mod bindings;
pub mod bodies;
pub mod connections;
pub mod declarations;
pub mod decoding;
pub mod framing;
pub mod heads;
pub mod logs;
pub mod plans;
pub mod policies;
pub mod queries;
pub mod replies;
pub mod routing;
pub mod signatures;
pub mod templates;
pub mod texts;
pub mod values;

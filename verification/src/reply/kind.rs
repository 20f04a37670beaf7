//! The ways in which a result becomes a response.
use std::marker::PhantomData;

use vstd::prelude::*;

verus! {

/// A value that is serialized.
pub struct Json;

/// A value that is a response already, or names one.
pub struct Direct;

/// A body that comes in chunks.
pub struct Stream;

/// A result with a status.
pub struct Status<T>(pub PhantomData<T>);

/// A result with headers.
pub struct Headers<T>(pub PhantomData<T>);

} // verus!

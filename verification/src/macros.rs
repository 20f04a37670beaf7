//! The rules by which functions and their annotations become routes.
use vstd::prelude::*;

pub mod api;
pub mod arguments;
pub mod derive;
pub mod dispatch;
pub mod endpoint;
pub mod function;
pub mod groups;
pub mod paths;
pub mod plan;
pub mod registry;
pub mod syntax;

verus! {

/// Why a declaration is refused.
#[derive(Debug)]
pub struct SyntaxError {
    message: String,
}

impl View for SyntaxError {
    type V = Seq<char>;

    closed spec fn view(&self) -> Seq<char> {
        self.message@
    }
}

impl SyntaxError {
    pub fn new(message: String) -> (error: Self)
        ensures
            error@ == message@,
    {
        SyntaxError { message }
    }

    /// An error with a fixed message.
    pub fn of(message: &str) -> (error: Self)
        ensures
            error@ == message@,
    {
        SyntaxError { message: message.to_owned() }
    }

    pub fn to_string(&self) -> (message: String)
        ensures
            message@ == self@,
    {
        self.message.clone()
    }
}

/// What a check says, over the message of its error.
pub open spec fn checked(outcome: Result<(), SyntaxError>) -> Result<(), Seq<char>> {
    match outcome {
        Ok(()) => Ok(()),
        Err(error) => Err(error@),
    }
}

} // verus!

//! Warnings and what is done about them.
use vstd::prelude::*;

use crate::pull_parser::error::Error;

verus! {

/// Something odd in a document that does not keep it from being read.
#[derive(Debug, Clone, Copy, PartialEq, Eq, Hash, Structural)]
#[non_exhaustive]
pub enum Warning {
    /// A node has an empty name.
    EmptyNodeName,
}

/// The error that a warning was answered with, if it was not let pass.
pub open spec fn refusal_of(answer: Result<(), Error>) -> Option<Error> {
    match answer {
        Ok(()) => None,
        Err(e) => Some(e),
    }
}

/// Something that is told of every warning and decides whether the parser goes
/// on.
pub trait WarningHandler: Sized {
    /// Whether the handler, as it is, may answer `warning` with the error `refusal`,
    /// or let it pass if there is none, and be `after` afterwards.
    ///
    /// A handler that does not say may do anything.
    open spec fn answers(&self, warning: Warning, refusal: Option<Error>, after: Self) -> bool {
        true
    }

    /// Takes note of a warning. An error makes the parser fail with it.
    fn handle(&mut self, warning: Warning) -> (answer: Result<(), Error>)
        ensures
            old(self).answers(warning, refusal_of(answer), *final(self)),
    ;
}

/// A handler that lets every warning pass.
#[derive(Debug, Clone, Copy, PartialEq, Eq, Hash)]
pub struct IgnoreWarnings;

impl WarningHandler for IgnoreWarnings {
    open spec fn answers(&self, warning: Warning, refusal: Option<Error>, after: Self) -> bool {
        refusal is None
    }

    fn handle(&mut self, warning: Warning) -> (answer: Result<(), Error>) {
        Ok(())
    }
}

} // verus!

//! The failures of a translation.

use crate::arena::Token;
use crate::binding::BindSource;
use crate::ir::{ExecutionModel, Function, GlobalVariable};
use vstd::prelude::*;
use vstd::std_specs::convert::FromSpecImpl;

verus! {

/// `core::fmt::Error`, the error of a formatting sink. It carries no data;
/// nothing is claimed of it.
#[verifier::external_type_specification]
#[verifier::external_body]
pub struct ExFmtError(core::fmt::Error);

/// Why a module could not be translated.
#[derive(Debug, PartialEq, Eq)]
pub enum Error {
    /// The sink refused a piece of text.
    Format(core::fmt::Error),
    /// An entry point is written for a stage that has no keyword.
    UnsupportedExecutionModel(ExecutionModel),
    /// Entry points of different stages start the same function.
    MixedExecutionModels(Token<Function>),
    /// A member of a struct that this output variable points to has no binding.
    MissingBinding(Token<GlobalVariable>),
    /// The binding map has no entry for this descriptor.
    MissingBindTarget(BindSource),
    /// A name cannot be used. No translation fails with it yet.
    BadName(String),
}

impl From<core::fmt::Error> for Error {
    fn from(e: core::fmt::Error) -> (error: Self) {
        Error::Format(e)
    }
}

impl FromSpecImpl<core::fmt::Error> for Error {
    open spec fn obeys_from_spec() -> bool {
        true
    }

    open spec fn from_spec(e: core::fmt::Error) -> Self {
        Error::Format(e)
    }
}

} // verus!

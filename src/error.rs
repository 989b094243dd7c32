//! The ways a call can fail.
use vstd::prelude::*;

verus! {

#[verifier::external_type_specification]
#[verifier::external_body]
pub struct ExIoError(std::io::Error);

/// The error that a call of [`crate::fix_vars`] can end with.
#[derive(Debug)]
pub enum Error {
    /// The shell could not be started at all.
    Shell(std::io::Error),
    /// The shell's output did not hold two delimiters; carries the whole output.
    InvalidOutput(String),
    /// The shell exited with failure; carries what it wrote to standard error.
    EchoFailed(String),
}

} // verus!

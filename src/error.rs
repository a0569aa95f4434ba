use vstd::prelude::*;

verus! {

/// The failures the front end reports as values.
#[derive(Debug)]
pub enum Error {
    /// A syntax error, with its message.
    ParseErr(String),
    /// A failure while evaluating an expression.
    EvalErr(String),
    /// Any other failure.
    GeneralErr(String),
}

} // verus!

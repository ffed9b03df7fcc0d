//! The error of a whole run: that of the phase that failed.

use crate::interpreter::{RuntimeError, RuntimeErrorView};
use crate::scanner::{ParseError, ParseErrorView};
use vstd::prelude::*;
use vstd::std_specs::convert::FromSpecImpl;

verus! {

/// A lexical or syntactic error, or a runtime error.
#[derive(Debug, PartialEq)]
pub enum InterpreterError {
    Parse(ParseError),
    Runtime(RuntimeError),
}

/// The mathematical content of an [`InterpreterError`].
pub enum InterpreterErrorView {
    Parse(ParseErrorView),
    Runtime(RuntimeErrorView),
}

impl View for InterpreterError {
    type V = InterpreterErrorView;

    open spec fn view(&self) -> InterpreterErrorView {
        match self {
            InterpreterError::Parse(error) => InterpreterErrorView::Parse(error@),
            InterpreterError::Runtime(error) => InterpreterErrorView::Runtime(error@),
        }
    }
}

impl InterpreterErrorView {
    /// The message of the error: the phase first, then the message of the
    /// error of that phase.
    pub open spec fn message(self) -> Seq<char> {
        match self {
            InterpreterErrorView::Parse(error) => "Parse error: "@ + error.message(),
            InterpreterErrorView::Runtime(error) => "Runtime error: "@ + error.message(),
        }
    }
}

impl InterpreterError {
    /// The message of the error.
    pub fn to_string(&self) -> (r: String)
        ensures
            r@ == self@.message(),
    {
        match self {
            InterpreterError::Parse(error) => {
                let mut s = String::from_str("Parse error: ");
                s.append(error.to_string().as_str());
                s
            },
            InterpreterError::Runtime(error) => {
                let mut s = String::from_str("Runtime error: ");
                s.append(error.to_string().as_str());
                s
            },
        }
    }
}

impl From<ParseError> for InterpreterError {
    fn from(err: ParseError) -> (r: Self) {
        InterpreterError::Parse(err)
    }
}

impl FromSpecImpl<ParseError> for InterpreterError {
    open spec fn obeys_from_spec() -> bool {
        true
    }

    open spec fn from_spec(err: ParseError) -> Self {
        InterpreterError::Parse(err)
    }
}

impl From<RuntimeError> for InterpreterError {
    fn from(err: RuntimeError) -> (r: Self) {
        InterpreterError::Runtime(err)
    }
}

impl FromSpecImpl<RuntimeError> for InterpreterError {
    open spec fn obeys_from_spec() -> bool {
        true
    }

    open spec fn from_spec(err: RuntimeError) -> Self {
        InterpreterError::Runtime(err)
    }
}

} // verus!

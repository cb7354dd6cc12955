//! The error surfaced by parsing and evaluation.
use vstd::prelude::*;
use vstd::string::StringExecFns;

verus! {

/// The mathematical view of a [`RollerError`].
pub ghost enum ErrV {
    Eval(Seq<char>),
    Parser(Seq<char>),
    Other,
}

/// What can go wrong while handling one input line: the input did not match
/// the grammar, evaluation failed with a message, or something unclassified
/// happened.
#[derive(Debug, PartialEq)]
pub enum RollerError {
    EvalError(String),
    ParserError(String),
    OtherError,
}

impl RollerError {
    /// The view of this error (see [`ErrV`]).
    pub open spec fn view(self) -> ErrV {
        match self {
            RollerError::EvalError(m) => ErrV::Eval(m@),
            RollerError::ParserError(m) => ErrV::Parser(m@),
            RollerError::OtherError => ErrV::Other,
        }
    }

    /// The user-visible text of this error.
    pub open spec fn msg_spec(self) -> Seq<char> {
        match self {
            RollerError::EvalError(m) => m@,
            RollerError::ParserError(m) => m@,
            RollerError::OtherError => "an unknown error"@,
        }
    }

    /// Renders the user-visible text of this error.
    pub fn message(&self) -> (r: String)
        ensures
            r@ == self.msg_spec(),
    {
        match self {
            RollerError::EvalError(m) => m.clone(),
            RollerError::ParserError(m) => m.clone(),
            RollerError::OtherError => String::from_str("an unknown error"),
        }
    }
}

} // verus!

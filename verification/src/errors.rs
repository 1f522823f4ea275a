//! The error taxonomy of a script run.
//!
//! Parse-time failures abort before any evaluation; evaluation-time failures
//! abort the remainder of the script at once. No partial project is handed
//! out on error.

use vstd::prelude::*;

verus! {

/// A terminal script failure.
#[derive(Debug)]
pub enum ScriptError {
    /// Malformed script text; `pos` is the character offset of the offence.
    Syntax { pos: usize, message: String },
    /// Use of an unbound identifier during evaluation.
    Reference { name: String },
    /// An intrinsic invoked with an argument of the wrong type, or a call on
    /// a value that is not callable.
    Type { message: String },
    /// Any other uncaught failure raised during execution; reserved — the
    /// current intrinsics and statement forms raise only the kinds above.
    Runtime { message: String },
}

/// The mathematical form of a `ScriptError`.
pub enum ErrorModel {
    Syntax { pos: int, message: Seq<char> },
    Reference { name: Seq<char> },
    Type { message: Seq<char> },
    Runtime { message: Seq<char> },
}

impl View for ScriptError {
    type V = ErrorModel;

    open spec fn view(&self) -> ErrorModel {
        match self {
            ScriptError::Syntax { pos, message } => ErrorModel::Syntax {
                pos: *pos as int,
                message: message@,
            },
            ScriptError::Reference { name } => ErrorModel::Reference { name: name@ },
            ScriptError::Type { message } => ErrorModel::Type { message: message@ },
            ScriptError::Runtime { message } => ErrorModel::Runtime { message: message@ },
        }
    }
}

impl DeepView for ScriptError {
    type V = ErrorModel;

    open spec fn deep_view(&self) -> ErrorModel {
        self@
    }
}

impl ScriptError {
    /// A short kind word for reporting, alongside the message.
    pub fn kind_name(&self) -> (r: &'static str)
        ensures
            self@ is Syntax ==> r@ == "SyntaxError"@,
            self@ is Reference ==> r@ == "ReferenceError"@,
            self@ is Type ==> r@ == "TypeError"@,
            self@ is Runtime ==> r@ == "RuntimeError"@,
    {
        match self {
            ScriptError::Syntax { .. } => "SyntaxError",
            ScriptError::Reference { .. } => "ReferenceError",
            ScriptError::Type { .. } => "TypeError",
            ScriptError::Runtime { .. } => "RuntimeError",
        }
    }
}

} // verus!

use vstd::prelude::*;

verus! {

/// Why a query string was rejected before any step ran.
///
/// Every variant names the character position the scanner was at,
/// counted in characters of the trimmed query text.
#[derive(Debug, Clone, Copy, PartialEq, Eq, Structural)]
pub enum QueryError {
    /// A leading character that no rule of the grammar matches.
    Syntax { at: usize },
    /// An object body whose closing brace is missing.
    Unclosed { at: usize },
    /// An object entry of the wrong shape: a bare-key entry whose key
    /// part is not a plain identifier, or a separator reached with the
    /// wrong number of pending parts.
    Entry { at: usize },
    /// Boundary resolution ran out of text without finding any prefix
    /// that is a valid embedded expression.
    Boundary { at: usize },
    /// A bracketed index whose digits do not fit a machine integer.
    IndexRange { at: usize },
    /// An accepted segment consumed no characters.  This reports a
    /// defect of the parser itself, never bad input, and is kept
    /// distinct from the ordinary syntax errors above.
    Invariant { at: usize },
}

/// Why evaluation of a parsed plan aborted.
#[derive(Debug, PartialEq)]
pub enum EvalError {
    /// A key selection reached a state that is not an object.
    NotAnObject,
    /// An index step reached a state that is not an array.
    NotAnArray,
    /// An index fell outside the array even after a negative offset
    /// was counted from the end.
    IndexOutOfRange,
    /// An object-building entry resolved its key to a non-string.
    KeyNotString,
    /// An object-building entry held a part of a shape the evaluator
    /// does not accept.
    BadEntry,
    /// A reserved step, or an object-building form whose semantics are
    /// deliberately left undefined.
    Unsupported,
    /// The expression bridge reported a syntax or runtime failure.
    Script { message: String },
    /// The expression bridge returned text that is not valid JSON.
    Undecodable,
}

/// The mathematical model of an `EvalError`.
pub enum EvalErrorModel {
    NotAnObject,
    NotAnArray,
    IndexOutOfRange,
    KeyNotString,
    BadEntry,
    Unsupported,
    Script(Seq<char>),
    Undecodable,
}

impl View for EvalError {
    type V = EvalErrorModel;

    open spec fn view(&self) -> EvalErrorModel {
        match self {
            EvalError::NotAnObject => EvalErrorModel::NotAnObject,
            EvalError::NotAnArray => EvalErrorModel::NotAnArray,
            EvalError::IndexOutOfRange => EvalErrorModel::IndexOutOfRange,
            EvalError::KeyNotString => EvalErrorModel::KeyNotString,
            EvalError::BadEntry => EvalErrorModel::BadEntry,
            EvalError::Unsupported => EvalErrorModel::Unsupported,
            EvalError::Script { message } => EvalErrorModel::Script(message@),
            EvalError::Undecodable => EvalErrorModel::Undecodable,
        }
    }
}

} // verus!

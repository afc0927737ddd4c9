//! The error taxonomy shared by the tokenizer, the flag translator and
//! the interactive shell around the library.

use vstd::prelude::*;

verus! {

/// A failed conversion. Every variant carries the text it is about:
/// the argument with no known translation, the bare word with no flag to
/// attach to, or the command the interactive shell did not recognize
/// (the shell's variant only; `convert` never produces it).
#[derive(Debug, PartialEq)]
pub enum Errors {
    ArgConversion(String),
    InvalidArgument(String),
    UnrecognisedCommand(String),
}

/// The mathematical shape of an `Errors` value: the same three variants
/// over character sequences.
pub enum ErrorsView {
    ArgConversion(Seq<char>),
    InvalidArgument(Seq<char>),
    UnrecognisedCommand(Seq<char>),
}

impl View for Errors {
    type V = ErrorsView;

    open spec fn view(&self) -> ErrorsView {
        match self {
            Errors::ArgConversion(s) => ErrorsView::ArgConversion(s@),
            Errors::InvalidArgument(s) => ErrorsView::InvalidArgument(s@),
            Errors::UnrecognisedCommand(s) => ErrorsView::UnrecognisedCommand(s@),
        }
    }
}

/// The message text that describes an error: a fixed label for the
/// variant, then the text the error carries.
pub open spec fn spec_message(e: ErrorsView) -> Seq<char> {
    match e {
        ErrorsView::ArgConversion(s) => "Conversion: "@ + s,
        ErrorsView::InvalidArgument(s) => "Invalid Argument: "@ + s,
        ErrorsView::UnrecognisedCommand(s) => "Unrecognized command: "@ + s,
    }
}

impl Errors {
    /// Renders the error as a line of text.
    pub fn message(&self) -> (r: String)
        ensures
            r@ == spec_message(self@),
    {
        match self {
            Errors::ArgConversion(s) => String::from_str("Conversion: ").concat(s.as_str()),
            Errors::InvalidArgument(s) => String::from_str("Invalid Argument: ").concat(
                s.as_str(),
            ),
            Errors::UnrecognisedCommand(s) => String::from_str("Unrecognized command: ").concat(
                s.as_str(),
            ),
        }
    }
}

} // verus!

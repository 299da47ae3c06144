use vstd::prelude::*;
use vstd::string::StringExecFns;

verus! {

/// Everything that can go wrong between fetching a playlist and handing back
/// its typed form. Each variant carries a human-readable cause.
#[derive(Debug, PartialEq)]
pub enum Error {
    /// The playlist text could not be obtained at all.
    HTTP(String),
    /// The text does not follow the tag and attribute grammar.
    Parse(String),
    /// The text is grammatical but a record fails validation.
    HLSFormat(String),
}

/// An `Error` with its cause as text.
pub enum ErrorView {
    HTTP(Seq<char>),
    Parse(Seq<char>),
    HLSFormat(Seq<char>),
}

impl View for Error {
    type V = ErrorView;

    open spec fn view(&self) -> ErrorView {
        match self {
            Error::HTTP(cause) => ErrorView::HTTP(cause@),
            Error::Parse(cause) => ErrorView::Parse(cause@),
            Error::HLSFormat(cause) => ErrorView::HLSFormat(cause@),
        }
    }
}

impl ErrorView {
    /// The line shown to a user: the kind of the error, then its cause.
    pub open spec fn message(self) -> Seq<char> {
        match self {
            ErrorView::HTTP(cause) => "API Error: "@ + cause,
            ErrorView::Parse(cause) => "Parse Error: "@ + cause,
            ErrorView::HLSFormat(cause) => "Invalid HLS: "@ + cause,
        }
    }
}

impl Error {
    /// The line shown to a user: the kind of the error, then its cause.
    pub fn to_string(&self) -> (line: String)
        ensures
            line@ == self@.message(),
    {
        match self {
            Error::HTTP(cause) => String::from_str("API Error: ").concat(cause.as_str()),
            Error::Parse(cause) => String::from_str("Parse Error: ").concat(cause.as_str()),
            Error::HLSFormat(cause) => String::from_str("Invalid HLS: ").concat(cause.as_str()),
        }
    }
}

} // verus!

//! The ways in which a block can fail to parse.

use vstd::prelude::*;
use vstd::string::*;

verus! {

/// Why a block was refused.
#[derive(Debug, Clone, PartialEq, Eq)]
pub enum Error {
    /// The value of `method:` names no known method; holds the name as read.
    InvalidMethod(String),
    /// A line's key is no known section; holds the key as read.
    InvalidSection(String),
    /// The value of `statuscode:` is no 16-bit unsigned number; holds the value.
    FailedToParseStatusCode(String),
    /// A line under `headers:` has no `:`.
    HeaderExpectsKV,
    /// A line under `payload:` has no `:`.
    PayloadExpectsKV,
    /// A line under `assertions:` has an unknown key; holds the key as read.
    InvalidKeyInAssertions(String),
}

/// An [`Error`] with its texts as character sequences.
pub enum ErrorView {
    InvalidMethod(Seq<char>),
    InvalidSection(Seq<char>),
    FailedToParseStatusCode(Seq<char>),
    HeaderExpectsKV,
    PayloadExpectsKV,
    InvalidKeyInAssertions(Seq<char>),
}

impl ErrorView {
    /// The sentence that reports the error.
    pub open spec fn message(self) -> Seq<char> {
        match self {
            ErrorView::InvalidMethod(x) => "Method: "@ + x + " is invalid"@,
            ErrorView::InvalidSection(x) => "Found "@ + x + " invalid section"@,
            ErrorView::FailedToParseStatusCode(x) => "Failed to parse status code: "@ + x,
            ErrorView::HeaderExpectsKV => "Header section expects key-value pair"@,
            ErrorView::PayloadExpectsKV => "Payload section expects key-value pair"@,
            ErrorView::InvalidKeyInAssertions(x) => "Found invalid key "@ + x
                + " in assertions section"@,
        }
    }
}

impl View for Error {
    type V = ErrorView;

    open spec fn view(&self) -> ErrorView {
        match self {
            Error::InvalidMethod(x) => ErrorView::InvalidMethod(x@),
            Error::InvalidSection(x) => ErrorView::InvalidSection(x@),
            Error::FailedToParseStatusCode(x) => ErrorView::FailedToParseStatusCode(x@),
            Error::HeaderExpectsKV => ErrorView::HeaderExpectsKV,
            Error::PayloadExpectsKV => ErrorView::PayloadExpectsKV,
            Error::InvalidKeyInAssertions(x) => ErrorView::InvalidKeyInAssertions(x@),
        }
    }
}

impl Error {
    /// The sentence that reports the error.
    pub fn to_string(&self) -> (out: String)
        ensures
            out@ == self@.message(),
    {
        match self {
            Error::InvalidMethod(x) => {
                let mut out = String::from_str("Method: ");
                out.append(x.as_str());
                out.append(" is invalid");
                out
            },
            Error::InvalidSection(x) => {
                let mut out = String::from_str("Found ");
                out.append(x.as_str());
                out.append(" invalid section");
                out
            },
            Error::FailedToParseStatusCode(x) => {
                let mut out = String::from_str("Failed to parse status code: ");
                out.append(x.as_str());
                out
            },
            Error::HeaderExpectsKV => String::from_str("Header section expects key-value pair"),
            Error::PayloadExpectsKV => String::from_str("Payload section expects key-value pair"),
            Error::InvalidKeyInAssertions(x) => {
                let mut out = String::from_str("Found invalid key ");
                out.append(x.as_str());
                out.append(" in assertions section");
                out
            },
        }
    }
}

} // verus!

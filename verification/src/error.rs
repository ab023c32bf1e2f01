//! What can go wrong, as the callers see it.

use vstd::prelude::*;

use crate::text::concat2;
use crate::text::concat4;
use crate::text::owned;

verus! {

#[derive(Debug)]
pub enum Error {
    Config(String),
    /// A request that failed, in the words of the HTTP client.
    Http(String),
    /// A record that could not be read, in the words of the JSON reader.
    Json(String),
    InvalidData(String),
    Source { source_id: String, message: String },
    Storage(String),
    AwsDisabled,
    /// A decimal operation left the range of numbers.
    Overflow,
}

/// An error with its texts as sequences.
pub enum Failure {
    Config(Seq<char>),
    Http(Seq<char>),
    Json(Seq<char>),
    InvalidData(Seq<char>),
    Source { source_id: Seq<char>, message: Seq<char> },
    Storage(Seq<char>),
    AwsDisabled,
    Overflow,
}

impl View for Error {
    type V = Failure;

    open spec fn view(&self) -> Failure {
        match *self {
            Error::Config(m) => Failure::Config(m@),
            Error::Http(m) => Failure::Http(m@),
            Error::Json(m) => Failure::Json(m@),
            Error::InvalidData(m) => Failure::InvalidData(m@),
            Error::Source { source_id, message } => Failure::Source {
                source_id: source_id@,
                message: message@,
            },
            Error::Storage(m) => Failure::Storage(m@),
            Error::AwsDisabled => Failure::AwsDisabled,
            Error::Overflow => Failure::Overflow,
        }
    }
}

impl Failure {
    /// The error as an operator reads it.
    pub open spec fn text(self) -> Seq<char> {
        match self {
            Failure::Config(m) => "configuration error: "@ + m,
            Failure::Http(m) => "HTTP error: "@ + m,
            Failure::Json(m) => "JSON error: "@ + m,
            Failure::InvalidData(m) => "invalid upstream data: "@ + m,
            Failure::Source { source_id, message } => "source "@ + source_id + " failed: "@
                + message,
            Failure::Storage(m) => "storage error: "@ + m,
            Failure::AwsDisabled => "AWS support is not enabled"@,
            Failure::Overflow => "decimal overflow"@,
        }
    }
}

impl Error {
    /// The error as an operator reads it.
    pub fn to_text(&self) -> (result: String)
        ensures
            result@ == self@.text(),
    {
        match self {
            Error::Config(m) => concat2("configuration error: ", m.as_str()),
            Error::Http(m) => concat2("HTTP error: ", m.as_str()),
            Error::Json(m) => concat2("JSON error: ", m.as_str()),
            Error::InvalidData(m) => concat2("invalid upstream data: ", m.as_str()),
            Error::Source { source_id, message } => concat4(
                "source ",
                source_id.as_str(),
                " failed: ",
                message.as_str(),
            ),
            Error::Storage(m) => concat2("storage error: ", m.as_str()),
            Error::AwsDisabled => owned("AWS support is not enabled"),
            Error::Overflow => owned("decimal overflow"),
        }
    }
}

/// What a call failed with, if it failed.
pub open spec fn failure<T>(result: Result<T, Error>) -> Option<Failure> {
    match result {
        Ok(_) => None,
        Err(e) => Some(e@),
    }
}

/// An error of bad upstream data.
pub fn invalid(message: &str) -> (result: Error)
    ensures
        result@ == Failure::InvalidData(message@),
{
    Error::InvalidData(owned(message))
}

/// An error of bad configuration.
pub fn config(message: &str) -> (result: Error)
    ensures
        result@ == Failure::Config(message@),
{
    Error::Config(owned(message))
}

/// An error of the store.
pub fn storage(message: &str) -> (result: Error)
    ensures
        result@ == Failure::Storage(message@),
{
    Error::Storage(owned(message))
}

} // verus!

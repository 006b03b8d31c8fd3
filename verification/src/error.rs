//! Error taxonomy of the extraction pipeline.

use vstd::prelude::*;
use vstd::string::StringExecFns;

verus! {

/// Errors that can occur during extraction.
#[derive(Debug)]
pub enum Error {
    /// Error from the text-completion service.
    AiService(String),
    /// Error parsing a structured response.
    JsonParse(String),
    /// Invalid graph structure.
    InvalidRdf(String),
    /// Missing required field in a document.
    MissingField(String),
    /// Configuration error.
    Config(String),
    /// Extraction error.
    Extraction(String),
    /// I/O error.
    Io(String),
    /// Network or HTTP error.
    Network(String),
    /// Validation error.
    Validation(String),
}

/// The human-readable message of an error.
pub open spec fn message_of(e: Error) -> Seq<char> {
    match e {
        Error::AiService(s) => "AI service error: "@ + s@,
        Error::JsonParse(s) => "JSON parsing error: "@ + s@,
        Error::InvalidRdf(s) => "Invalid RDF structure: "@ + s@,
        Error::MissingField(s) => "Missing required field: "@ + s@,
        Error::Config(s) => "Configuration error: "@ + s@,
        Error::Extraction(s) => "Extraction error: "@ + s@,
        Error::Io(s) => "I/O error: "@ + s@,
        Error::Network(s) => "Network error: "@ + s@,
        Error::Validation(s) => "Validation error: "@ + s@,
    }
}

impl Error {
    /// Render this error as a message.
    pub fn message(&self) -> (r: String)
        ensures
            r@ == message_of(*self),
    {
        match self {
            Error::AiService(s) => {
                let mut m = String::from_str("AI service error: ");
                m.append(s.as_str());
                m
            },
            Error::JsonParse(s) => {
                let mut m = String::from_str("JSON parsing error: ");
                m.append(s.as_str());
                m
            },
            Error::InvalidRdf(s) => {
                let mut m = String::from_str("Invalid RDF structure: ");
                m.append(s.as_str());
                m
            },
            Error::MissingField(s) => {
                let mut m = String::from_str("Missing required field: ");
                m.append(s.as_str());
                m
            },
            Error::Config(s) => {
                let mut m = String::from_str("Configuration error: ");
                m.append(s.as_str());
                m
            },
            Error::Extraction(s) => {
                let mut m = String::from_str("Extraction error: ");
                m.append(s.as_str());
                m
            },
            Error::Io(s) => {
                let mut m = String::from_str("I/O error: ");
                m.append(s.as_str());
                m
            },
            Error::Network(s) => {
                let mut m = String::from_str("Network error: ");
                m.append(s.as_str());
                m
            },
            Error::Validation(s) => {
                let mut m = String::from_str("Validation error: ");
                m.append(s.as_str());
                m
            },
        }
    }

    /// A copy of this error carrying the same message.
    pub fn duplicate(&self) -> (r: Error)
        ensures
            r == *self,
    {
        match self {
            Error::AiService(s) => Error::AiService(s.clone()),
            Error::JsonParse(s) => Error::JsonParse(s.clone()),
            Error::InvalidRdf(s) => Error::InvalidRdf(s.clone()),
            Error::MissingField(s) => Error::MissingField(s.clone()),
            Error::Config(s) => Error::Config(s.clone()),
            Error::Extraction(s) => Error::Extraction(s.clone()),
            Error::Io(s) => Error::Io(s.clone()),
            Error::Network(s) => Error::Network(s.clone()),
            Error::Validation(s) => Error::Validation(s.clone()),
        }
    }
}

} // verus!

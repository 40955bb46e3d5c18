//! The errors of a translation.

use vstd::prelude::*;

verus! {

/// Errors that can occur during the translation process.
#[derive(Debug)]
pub enum TranslationError {
    /// The file with the source text could not be read.
    FileReadError(std::io::Error),
    /// The request could not be sent, or the answer not received.
    RequestError(reqwest::Error),
    /// The server answered with a status code that reports no success.
    OllamaError(u16),
    /// A JSON document could not be parsed.
    JsonError(serde_json::Error),
}

impl From<std::io::Error> for TranslationError {
    fn from(e: std::io::Error) -> (r: TranslationError) {
        TranslationError::FileReadError(e)
    }
}

impl vstd::std_specs::convert::FromSpecImpl<std::io::Error> for TranslationError {
    open spec fn obeys_from_spec() -> bool {
        true
    }

    open spec fn from_spec(e: std::io::Error) -> TranslationError {
        TranslationError::FileReadError(e)
    }
}

impl From<reqwest::Error> for TranslationError {
    fn from(e: reqwest::Error) -> (r: TranslationError) {
        TranslationError::RequestError(e)
    }
}

impl vstd::std_specs::convert::FromSpecImpl<reqwest::Error> for TranslationError {
    open spec fn obeys_from_spec() -> bool {
        true
    }

    open spec fn from_spec(e: reqwest::Error) -> TranslationError {
        TranslationError::RequestError(e)
    }
}

impl From<serde_json::Error> for TranslationError {
    fn from(e: serde_json::Error) -> (r: TranslationError) {
        TranslationError::JsonError(e)
    }
}

impl vstd::std_specs::convert::FromSpecImpl<serde_json::Error> for TranslationError {
    open spec fn obeys_from_spec() -> bool {
        true
    }

    open spec fn from_spec(e: serde_json::Error) -> TranslationError {
        TranslationError::JsonError(e)
    }
}

} // verus!

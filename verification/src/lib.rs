//! Client-side logic for translating text through a locally hosted language
//! model: building the request and assembling the streamed answer.
//!
//! The library computes; it neither reads the environment nor talks to the
//! server. A caller builds the request with [`build_request`], sends it,
//! hands the status code to [`check_status`] and the body of the answer to
//! [`parse_response`].

pub mod config;
pub mod error;
pub mod external;
pub mod request;
pub mod response;
pub mod response_laws;
pub mod text;
pub mod text_laws;

pub use config::Config;
pub use error::TranslationError;
pub use request::{build_prompt, build_request, create_headers, TranslationRequest};
pub use response::{assemble_fragments, check_status, parse_response, response_fragments};

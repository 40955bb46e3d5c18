//! From the source text to the request that asks for its translation.

use vstd::prelude::*;
use vstd::string::StringExecFns;
use crate::config::Config;

verus! {

/// One header of the request.
pub struct Header {
    pub name: String,
    pub value: String,
}

impl View for Header {
    type V = (Seq<char>, Seq<char>);

    open spec fn view(&self) -> (Seq<char>, Seq<char>) {
        (self.name@, self.value@)
    }
}

/// The body of the request, sent as a JSON object with these three members.
pub struct RequestBody {
    /// The identifier of the model.
    pub model: String,
    /// The instruction to the model, with the source text in it.
    pub prompt: String,
    /// Whether the answer is to come as a stream. It always is.
    pub stream: bool,
}

/// A request body as plain values.
pub struct RequestBodyView {
    pub model: Seq<char>,
    pub prompt: Seq<char>,
    pub stream: bool,
}

impl View for RequestBody {
    type V = RequestBodyView;

    open spec fn view(&self) -> RequestBodyView {
        RequestBodyView { model: self.model@, prompt: self.prompt@, stream: self.stream }
    }
}

/// The request that asks for one translation: an HTTP POST to `url`.
pub struct TranslationRequest {
    pub url: String,
    pub headers: Vec<Header>,
    pub body: RequestBody,
}

/// The headers of every request: the content type, which is JSON.
pub open spec fn request_headers() -> Seq<(Seq<char>, Seq<char>)> {
    seq![("content-type"@, "application/json"@)]
}

/// The headers as plain values.
pub open spec fn header_views(headers: Seq<Header>) -> Seq<(Seq<char>, Seq<char>)> {
    Seq::new(headers.len(), |i: int| headers[i]@)
}

/// The instruction that asks for `text` in `target_language`.
pub open spec fn prompt_text(text: Seq<char>, target_language: Seq<char>) -> Seq<char> {
    "Translate the following text to "@ + target_language + ". Output only the text:\n"@ + text
}

/// Creates the headers required for the HTTP request.
pub fn create_headers() -> (headers: Vec<Header>)
    ensures
        header_views(headers@) == request_headers(),
{
    let mut headers: Vec<Header> = Vec::new();
    headers.push(
        Header {
            name: String::from_str("content-type"),
            value: String::from_str("application/json"),
        },
    );
    headers
}

/// Builds the instruction that asks for `text` in `target_language`. Neither
/// is checked: an empty text gives an instruction that ends after the line
/// feed.
pub fn build_prompt(text: &str, target_language: &str) -> (prompt: String)
    ensures
        prompt@ == prompt_text(text@, target_language@),
{
    let mut prompt = String::from_str("Translate the following text to ");
    prompt.append(target_language);
    prompt.append(". Output only the text:\n");
    prompt.append(text);
    prompt
}

/// Builds the request that asks the configured model for the translation of
/// `text` into `target_language`.
pub fn build_request(
    config: &Config,
    text: &str,
    target_language: &str,
) -> (request: TranslationRequest)
    ensures
        request.url@ == config@.url,
        header_views(request.headers@) == request_headers(),
        request.body@ == (RequestBodyView {
            model: config@.model,
            prompt: prompt_text(text@, target_language@),
            stream: true,
        }),
{
    TranslationRequest {
        url: config.url.clone(),
        headers: create_headers(),
        body: RequestBody {
            model: config.model.clone(),
            prompt: build_prompt(text, target_language),
            stream: true,
        },
    }
}

/// An empty source text leaves its place in the instruction empty: the
/// instruction is then the fixed wording around the target language.
pub proof fn lemma_empty_text_prompt(target_language: Seq<char>)
    ensures
        prompt_text(Seq::empty(), target_language) == "Translate the following text to "@
            + target_language + ". Output only the text:\n"@,
{
}

} // verus!

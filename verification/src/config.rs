//! Where the request goes and which model is asked.

use vstd::prelude::*;
use vstd::string::StringExecFns;

verus! {

/// The environment variable that names the model.
pub const MODEL_VARIABLE: &'static str = "OLLAMA_MODEL";

/// The environment variable that holds the address of the generate endpoint.
pub const URL_VARIABLE: &'static str = "OLLAMA_URL";

/// The model that is asked where none is named.
pub open spec fn default_model() -> Seq<char> {
    "mixtral:8x7b"@
}

/// The endpoint that is called where none is given.
pub open spec fn default_url() -> Seq<char> {
    "http://localhost:11434/api/generate"@
}

/// The configuration of one translation.
pub struct Config {
    /// The identifier of the model.
    pub model: String,
    /// The address of the generate endpoint.
    pub url: String,
}

/// A configuration as plain texts.
pub struct ConfigView {
    pub model: Seq<char>,
    pub url: Seq<char>,
}

impl View for Config {
    type V = ConfigView;

    open spec fn view(&self) -> ConfigView {
        ConfigView { model: self.model@, url: self.url@ }
    }
}

/// The value of a variable, or `default` where the variable is not set.
pub open spec fn value_or(value: Option<String>, default: Seq<char>) -> Seq<char> {
    match value {
        Some(v) => v@,
        None => default,
    }
}

impl Config {
    /// The configuration that the environment gives: `model` is the value of
    /// `MODEL_VARIABLE` and `url` that of `URL_VARIABLE`, each `None` where
    /// the variable is not set. A variable that is not set leaves the default.
    pub fn from_env(model: Option<String>, url: Option<String>) -> (config: Config)
        ensures
            config@.model == value_or(model, default_model()),
            config@.url == value_or(url, default_url()),
    {
        let model = match model {
            Some(m) => m,
            None => String::from_str("mixtral:8x7b"),
        };
        let url = match url {
            Some(u) => u,
            None => String::from_str("http://localhost:11434/api/generate"),
        };
        Config { model, url }
    }
}

} // verus!

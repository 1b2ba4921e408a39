//! LibreTranslate.
use crate::config::LibreTranslateConfig;
use crate::error::ZelligError;
use crate::translator::{client_setup_error, http_client, translation_error, trim_end_char, trim_end_slashes};
use vstd::prelude::*;

verus! {

/// A client of a LibreTranslate server.
pub struct LibreTranslator {
    pub client: reqwest::Client,
    pub base_url: String,
    pub api_key: Option<String>,
}

impl LibreTranslator {
    /// The server's address loses its trailing slashes; fails only when no
    /// client can be set up.
    pub fn new(config: &LibreTranslateConfig) -> (r: Result<Self, ZelligError>)
        ensures
            match r {
                Ok(t) => t.base_url@ == trim_end_char(config.url@, '/') && t.api_key == config.api_key,
                Err(e) => client_setup_error(e),
            },
    {
        let api_key = match &config.api_key {
            Some(k) => Some(k.clone()),
            None => None,
        };
        let client = match http_client() {
            Ok(c) => c,
            Err(e) => {
                return Err(e);
            },
        };
        Ok(LibreTranslator { client, base_url: trim_end_slashes(config.url.as_str()), api_key })
    }
}

/// What an answer of LibreTranslate comes to: its error, else its text.
pub fn libre_outcome(error: Option<String>, translated: Option<String>) -> (r: Result<String, ZelligError>)
    ensures
        error is Some ==> (r matches Err(ZelligError::TranslationError(m)) && m == error.unwrap()),
        error is None && translated is Some ==> r == Ok::<String, ZelligError>(translated.unwrap()),
        error is None && translated is None ==> (r matches Err(ZelligError::TranslationError(m))
            && m@ == "invalid LibreTranslate response"@),
{
    if let Some(e) = error {
        return Err(ZelligError::TranslationError(e));
    }
    match translated {
        Some(t) => Ok(t),
        None => Err(translation_error("invalid LibreTranslate response")),
    }
}

} // verus!

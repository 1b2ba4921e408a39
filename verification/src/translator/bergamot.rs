//! A self-hosted Bergamot (Firefox Translations) server.
use crate::config::BergamotConfig;
use crate::error::ZelligError;
use crate::translator::{client_setup_error, http_client, trim_end_char, trim_end_slashes};
use vstd::prelude::*;

verus! {

/// A client of a Bergamot server.
pub struct BergamotTranslator {
    pub client: reqwest::Client,
    pub base_url: String,
}

impl BergamotTranslator {
    /// The server's address loses its trailing slashes; fails only when no
    /// client can be set up.
    pub fn new(config: &BergamotConfig) -> (r: Result<Self, ZelligError>)
        ensures
            match r {
                Ok(t) => t.base_url@ == trim_end_char(config.url@, '/'),
                Err(e) => client_setup_error(e),
            },
    {
        let client = match http_client() {
            Ok(c) => c,
            Err(e) => {
                return Err(e);
            },
        };
        Ok(BergamotTranslator { client, base_url: trim_end_slashes(config.url.as_str()) })
    }
}

} // verus!

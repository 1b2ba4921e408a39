//! Yandex Translate.
use crate::config::YandexConfig;
use crate::error::ZelligError;
use crate::translator::client_setup_error;
use crate::translator::http_client;
use vstd::prelude::*;

verus! {

/// A client of Yandex Translate with its key and folder.
pub struct YandexTranslator {
    pub client: reqwest::Client,
    pub api_key: String,
    pub folder_id: Option<String>,
}

impl YandexTranslator {
    /// Needs the API key; the folder is optional.
    pub fn new(config: &YandexConfig) -> (r: Result<Self, ZelligError>)
        ensures
            config.api_key is None ==> (r matches Err(ZelligError::ConfigError(m)) && m@
                == "Yandex API key not configured"@),
            config.api_key is Some ==> (match r {
                Ok(t) => t.api_key == config.api_key.unwrap()
                && t.folder_id == config.folder_id,
                Err(e) => client_setup_error(e),
            }),
    {
        let api_key = match &config.api_key {
            Some(k) => k.clone(),
            None => {
                return Err(ZelligError::ConfigError(String::from_str("Yandex API key not configured")));
            },
        };
        let folder_id = match &config.folder_id {
            Some(f) => Some(f.clone()),
            None => None,
        };
        let client = match http_client() {
            Ok(c) => c,
            Err(e) => {
                return Err(e);
            },
        };
        Ok(YandexTranslator { client, api_key, folder_id })
    }
}

/// The authorization header's value.
pub fn yandex_auth(api_key: &str) -> (r: String)
    ensures
        r@ == "Api-Key "@ + api_key@,
{
    let mut r = String::from_str("Api-Key ");
    r.append(api_key);
    r
}

} // verus!

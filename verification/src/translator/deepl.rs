//! DeepL: the free or the pro endpoint, upper-case language codes.
use crate::config::DeepLConfig;
use crate::error::ZelligError;
use crate::text::{lowercase_of, str_is, to_lowercase, to_uppercase, uppercase_of};
use crate::translator::client_setup_error;
use crate::translator::http_client;
use vstd::prelude::*;

verus! {

/// A client of DeepL with its key and endpoint.
pub struct DeepLTranslator {
    pub client: reqwest::Client,
    pub api_key: String,
    pub base_url: String,
}

impl DeepLTranslator {
    /// Needs the API key; the pro setting picks the endpoint.
    pub fn new(config: &DeepLConfig) -> (r: Result<Self, ZelligError>)
        ensures
            config.api_key is None ==> (r matches Err(ZelligError::ConfigError(m)) && m@
                == "DeepL API key not configured"@),
            config.api_key is Some ==> (match r {
                Ok(t) => t.api_key == config.api_key.unwrap()
                && t.base_url@ == if config.pro {
                "https://api.deepl.com"@
            } else {
                "https://api-free.deepl.com"@
            },
                Err(e) => client_setup_error(e),
            }),
    {
        let api_key = match &config.api_key {
            Some(k) => k.clone(),
            None => {
                return Err(ZelligError::ConfigError(String::from_str("DeepL API key not configured")));
            },
        };
        let base_url = if config.pro {
            String::from_str("https://api.deepl.com")
        } else {
            String::from_str("https://api-free.deepl.com")
        };
        let client = match http_client() {
            Ok(c) => c,
            Err(e) => {
                return Err(e);
            },
        };
        Ok(DeepLTranslator { client, api_key, base_url })
    }
}

/// The source language: its code in upper case.
pub fn deepl_source(code: &str) -> (r: String)
    ensures
        r@ == uppercase_of(code@),
{
    to_uppercase(code)
}

pub open spec fn deepl_target_code(code: Seq<char>) -> Seq<char> {
    let l = lowercase_of(code);
    if l == "en"@ {
        "EN-US"@
    } else if l == "pt"@ {
        "PT-BR"@
    } else if l == "zh"@ || l == "zh-hans"@ || l == "zh-cn"@ {
        "ZH-HANS"@
    } else if l == "zh-tw"@ || l == "zh-hant"@ || l == "zh-hk"@ {
        "ZH-HANT"@
    } else {
        uppercase_of(code)
    }
}

/// The target language: English and Portuguese in their regional forms,
/// Chinese by script, any other code in upper case.
pub fn deepl_target(code: &str) -> (r: String)
    ensures
        r@ == deepl_target_code(code@),
{
    let l = to_lowercase(code);
    let ls = l.as_str();
    if str_is(ls, "en") {
        String::from_str("EN-US")
    } else if str_is(ls, "pt") {
        String::from_str("PT-BR")
    } else if str_is(ls, "zh") || str_is(ls, "zh-hans") || str_is(ls, "zh-cn") {
        String::from_str("ZH-HANS")
    } else if str_is(ls, "zh-tw") || str_is(ls, "zh-hant") || str_is(ls, "zh-hk") {
        String::from_str("ZH-HANT")
    } else {
        to_uppercase(code)
    }
}

/// The address requests go to.
pub fn deepl_url(base_url: &str) -> (r: String)
    ensures
        r@ == base_url@ + "/v2/translate"@,
{
    let mut r = String::from_str(base_url);
    r.append("/v2/translate");
    r
}

/// The authorization header's value.
pub fn deepl_auth(api_key: &str) -> (r: String)
    ensures
        r@ == "DeepL-Auth-Key "@ + api_key@,
{
    let mut r = String::from_str("DeepL-Auth-Key ");
    r.append(api_key);
    r
}

} // verus!

//! Azure Translator.
use crate::config::AzureConfig;
use crate::error::ZelligError;
use crate::translator::client_setup_error;
use crate::translator::{http_client, trim_end_char, trim_end_slashes};
use vstd::prelude::*;

verus! {

pub open spec fn azure_default_endpoint() -> Seq<char> {
    "https://api.cognitive.microsofttranslator.com"@
}

/// A client of Azure Translator with its key, region and endpoint.
pub struct AzureTranslator {
    pub client: reqwest::Client,
    pub api_key: String,
    pub region: String,
    pub endpoint: String,
}

impl AzureTranslator {
    /// Needs the API key; the endpoint defaults to Microsoft's and loses its
    /// trailing slashes.
    pub fn new(config: &AzureConfig) -> (r: Result<Self, ZelligError>)
        ensures
            config.api_key is None ==> (r matches Err(ZelligError::ConfigError(m)) && m@
                == "Azure Translator API key not configured"@),
            config.api_key is Some ==> (match r {
                Ok(t) => t.api_key == config.api_key.unwrap()
                && t.region == config.region && t.endpoint@ == trim_end_char(
                match config.endpoint {
                    Some(e) => e@,
                    None => azure_default_endpoint(),
                },
                '/',
            ),
                Err(e) => client_setup_error(e),
            }),
    {
        let api_key = match &config.api_key {
            Some(k) => k.clone(),
            None => {
                return Err(
                    ZelligError::ConfigError(
                        String::from_str("Azure Translator API key not configured"),
                    ),
                );
            },
        };
        let endpoint = match &config.endpoint {
            Some(e) => trim_end_slashes(e.as_str()),
            None => trim_end_slashes("https://api.cognitive.microsofttranslator.com"),
        };
        let client = match http_client() {
            Ok(c) => c,
            Err(e) => {
                return Err(e);
            },
        };
        Ok(AzureTranslator { client, api_key, region: config.region.clone(), endpoint })
    }
}

/// The address requests go to.
pub fn azure_url(endpoint: &str) -> (r: String)
    ensures
        r@ == endpoint@ + "/translate"@,
{
    let mut r = String::from_str(endpoint);
    r.append("/translate");
    r
}

/// What an answer of Azure to one text comes to: the first translation of
/// its first item.
pub fn azure_outcome(items: Vec<Vec<String>>) -> (r: Result<String, ZelligError>)
    ensures
        items@.len() > 0 && items@[0]@.len() > 0 ==> r == Ok::<String, ZelligError>(
            items@[0]@[0],
        ),
        !(items@.len() > 0 && items@[0]@.len() > 0) ==> (r matches Err(
            ZelligError::TranslationError(m),
        ) && m@ == "invalid Azure response"@),
{
    let mut items = items;
    if items.len() > 0 && items[0].len() > 0 {
        let mut first = items.remove(0);
        Ok(first.remove(0))
    } else {
        Err(crate::translator::translation_error("invalid Azure response"))
    }
}

/// Every item has a translation.
pub open spec fn all_translated(items: Seq<Vec<String>>) -> bool {
    forall|k: int| 0 <= k < items.len() ==> #[trigger] items[k]@.len() > 0
}

/// What an answer of Azure to several texts comes to: the first translation
/// of each item, or an error when an item has none.
pub fn azure_batch_outcome(items: Vec<Vec<String>>) -> (r: Result<Vec<String>, ZelligError>)
    ensures
        all_translated(items@) ==> (r matches Ok(v) && v@.len() == items@.len() && forall|k: int|
            0 <= k < items@.len() ==> #[trigger] v@[k] == items@[k]@[0]),
        !all_translated(items@) ==> (r matches Err(ZelligError::TranslationError(m)) && m@
            == "missing translation"@),
{
    let mut out: Vec<String> = Vec::new();
    let mut k: usize = 0;
    while k < items.len()
        invariant
            k <= items@.len(),
            out@.len() == k,
            forall|j: int| 0 <= j < k ==> (#[trigger] items@[j])@.len() > 0,
            forall|j: int| 0 <= j < k ==> #[trigger] out@[j] == items@[j]@[0],
        decreases items@.len() - k,
    {
        if items[k].len() == 0 {
            assert(!all_translated(items@));
            return Err(crate::translator::translation_error("missing translation"));
        }
        out.push(items[k][0].clone());
        k = k + 1;
    }
    assert(all_translated(items@));
    Ok(out)
}

} // verus!

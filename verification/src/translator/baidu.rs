//! Baidu Fanyi: requests signed with MD5.
use crate::config::BaiduConfig;
use crate::error::ZelligError;
use crate::text::str_is;
use crate::translator::client_setup_error;
use crate::translator::sign::{hex_lower, md5_hex, md5_of};
use crate::translator::{http_client, translation_error};
use vstd::prelude::*;
use vstd::utf8::encode_utf8;

verus! {

/// A client of Baidu Fanyi with its credentials.
pub struct BaiduTranslator {
    pub client: reqwest::Client,
    pub app_id: String,
    pub secret_key: String,
}

impl BaiduTranslator {
    /// Needs both the app id and the secret key.
    pub fn new(config: &BaiduConfig) -> (r: Result<Self, ZelligError>)
        ensures
            config.app_id is None ==> (r matches Err(ZelligError::ConfigError(m)) && m@
                == "Baidu app_id not configured"@),
            config.app_id is Some && config.secret_key is None ==> (r matches Err(
                ZelligError::ConfigError(m),
            ) && m@ == "Baidu secret_key not configured"@),
            config.app_id is Some && config.secret_key is Some ==> (match r {
                Ok(t) => t.app_id
                == config.app_id.unwrap() && t.secret_key == config.secret_key.unwrap(),
                Err(e) => client_setup_error(e),
            }),
    {
        let app_id = match &config.app_id {
            Some(a) => a.clone(),
            None => {
                return Err(ZelligError::ConfigError(String::from_str("Baidu app_id not configured")));
            },
        };
        let secret_key = match &config.secret_key {
            Some(k) => k.clone(),
            None => {
                return Err(
                    ZelligError::ConfigError(String::from_str("Baidu secret_key not configured")),
                );
            },
        };
        let client = match http_client() {
            Ok(c) => c,
            Err(e) => {
                return Err(e);
            },
        };
        Ok(BaiduTranslator { client, app_id, secret_key })
    }
}

pub open spec fn baidu_code(code: Seq<char>) -> Seq<char> {
    if code == "zh"@ || code == "zh-hans"@ || code == "zh-cn"@ {
        "zh"@
    } else if code == "zh-tw"@ || code == "zh-hant"@ || code == "zh-hk"@ {
        "cht"@
    } else if code == "ja"@ {
        "jp"@
    } else if code == "ko"@ {
        "kor"@
    } else if code == "ar"@ {
        "ara"@
    } else if code == "fr"@ {
        "fra"@
    } else if code == "es"@ {
        "spa"@
    } else {
        code
    }
}

/// Baidu's code for a language; other codes are passed through.
pub fn baidu_lang(code: &str) -> (r: &str)
    ensures
        r@ == baidu_code(code@),
{
    if str_is(code, "zh") || str_is(code, "zh-hans") || str_is(code, "zh-cn") {
        "zh"
    } else if str_is(code, "zh-tw") || str_is(code, "zh-hant") || str_is(code, "zh-hk") {
        "cht"
    } else if str_is(code, "ja") {
        "jp"
    } else if str_is(code, "ko") {
        "kor"
    } else if str_is(code, "ar") {
        "ara"
    } else if str_is(code, "fr") {
        "fra"
    } else if str_is(code, "es") {
        "spa"
    } else {
        code
    }
}

/// The signature of a request: the MD5, in hexadecimal, of the app id, the
/// text, the salt and the secret key written one after the other.
pub fn baidu_sign(app_id: &str, text: &str, salt: &str, secret_key: &str) -> (r: String)
    ensures
        r@ == hex_lower(md5_of(encode_utf8(app_id@ + text@ + salt@ + secret_key@))),
{
    let mut input = String::from_str(app_id);
    input.append(text);
    input.append(salt);
    input.append(secret_key);
    md5_hex(input.as_str().as_bytes())
}

pub open spec fn baidu_error_message(code: Seq<char>, msg: Option<Seq<char>>) -> Seq<char> {
    "Baidu error "@ + code + ": "@ + match msg {
        Some(m) => m,
        None => "unknown"@,
    }
}

/// What an answer of Baidu comes to: its error, or the first translation.
pub fn baidu_outcome(
    error_code: Option<String>,
    error_msg: Option<String>,
    first_dst: Option<String>,
) -> (r: Result<String, ZelligError>)
    ensures
        error_code matches Some(c) ==> (r matches Err(ZelligError::TranslationError(m)) && m@
            == baidu_error_message(
            c@,
            match error_msg {
                Some(x) => Some(x@),
                None => None,
            },
        )),
        error_code is None && first_dst is Some ==> r == Ok::<String, ZelligError>(
            first_dst.unwrap(),
        ),
        error_code is None && first_dst is None ==> (r matches Err(
            ZelligError::TranslationError(m),
        ) && m@ == "invalid Baidu response"@),
{
    if let Some(code) = error_code {
        let mut m = String::from_str("Baidu error ");
        m.append(code.as_str());
        m.append(": ");
        match &error_msg {
            Some(x) => m.append(x.as_str()),
            None => m.append("unknown"),
        }
        return Err(ZelligError::TranslationError(m));
    }
    match first_dst {
        Some(d) => Ok(d),
        None => Err(translation_error("invalid Baidu response")),
    }
}

} // verus!

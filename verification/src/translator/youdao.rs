//! Youdao Fanyi: requests signed with SHA-256 over a shortened text.
use crate::config::YoudaoConfig;
use crate::error::ZelligError;
use crate::text::{chars_of, decimal, lowercase_of, push_all, push_decimal, str_is, string_of, to_lowercase};
use crate::translator::client_setup_error;
use crate::translator::sign::{hex_lower, sha256_hex, sha256_of};
use crate::translator::{http_client, translation_error};
use vstd::prelude::*;
use vstd::utf8::encode_utf8;

verus! {

/// A client of Youdao Fanyi with its credentials.
pub struct YoudaoTranslator {
    pub client: reqwest::Client,
    pub app_key: String,
    pub app_secret: String,
}

impl YoudaoTranslator {
    /// Needs both the app key and the app secret.
    pub fn new(config: &YoudaoConfig) -> (r: Result<Self, ZelligError>)
        ensures
            config.app_key is None ==> (r matches Err(ZelligError::ConfigError(m)) && m@
                == "Youdao app_key not configured"@),
            config.app_key is Some && config.app_secret is None ==> (r matches Err(
                ZelligError::ConfigError(m),
            ) && m@ == "Youdao app_secret not configured"@),
            config.app_key is Some && config.app_secret is Some ==> (match r {
                Ok(t) => t.app_key
                == config.app_key.unwrap() && t.app_secret == config.app_secret.unwrap(),
                Err(e) => client_setup_error(e),
            }),
    {
        let app_key = match &config.app_key {
            Some(a) => a.clone(),
            None => {
                return Err(ZelligError::ConfigError(String::from_str("Youdao app_key not configured")));
            },
        };
        let app_secret = match &config.app_secret {
            Some(k) => k.clone(),
            None => {
                return Err(
                    ZelligError::ConfigError(String::from_str("Youdao app_secret not configured")),
                );
            },
        };
        let client = match http_client() {
            Ok(c) => c,
            Err(e) => {
                return Err(e);
            },
        };
        Ok(YoudaoTranslator { client, app_key, app_secret })
    }
}

pub open spec fn youdao_code(code: Seq<char>) -> Seq<char> {
    let l = lowercase_of(code);
    if l == "zh"@ || l == "zh-hans"@ || l == "zh-cn"@ {
        "zh-CHS"@
    } else if l == "zh-tw"@ || l == "zh-hant"@ || l == "zh-hk"@ {
        "zh-CHT"@
    } else {
        code
    }
}

/// Youdao's code for a language, compared without regard to case; other
/// codes are passed through as given.
pub fn youdao_lang(code: &str) -> (r: &str)
    ensures
        r@ == youdao_code(code@),
{
    let l = to_lowercase(code);
    let ls = l.as_str();
    if str_is(ls, "zh") || str_is(ls, "zh-hans") || str_is(ls, "zh-cn") {
        "zh-CHS"
    } else if str_is(ls, "zh-tw") || str_is(ls, "zh-hant") || str_is(ls, "zh-hk") {
        "zh-CHT"
    } else {
        code
    }
}

/// The text as it enters the signature: as it is when it has at most 20
/// chars, else its first 10 chars, its length and its last 10 chars.
pub open spec fn sign_text(t: Seq<char>) -> Seq<char> {
    if t.len() <= 20 {
        t
    } else {
        t.take(10) + decimal(t.len()) + t.skip(t.len() - 10)
    }
}

pub fn truncate_for_sign(text: &str) -> (r: String)
    ensures
        r@ == sign_text(text@),
{
    let cs = chars_of(text);
    let len = cs.len();
    if len <= 20 {
        return String::from_str(text);
    }
    let mut out: Vec<char> = Vec::new();
    crate::text::push_range(&mut out, &cs, 0, 10);
    push_decimal(&mut out, len as u64);
    crate::text::push_range(&mut out, &cs, len - 10, len);
    assert(out@ =~= sign_text(text@));
    string_of(&out)
}

/// The salt of a request made at `curtime`.
pub open spec fn youdao_salt(curtime: Seq<char>) -> Seq<char> {
    curtime + "_salt"@
}

/// The signature of a request: SHA-256, in hexadecimal, of the app key, the
/// shortened text, the salt, the time and the app secret.
pub open spec fn youdao_signature(
    app_key: Seq<char>,
    text: Seq<char>,
    curtime: Seq<char>,
    app_secret: Seq<char>,
) -> Seq<char> {
    hex_lower(
        sha256_of(
            encode_utf8(app_key + sign_text(text) + youdao_salt(curtime) + curtime + app_secret),
        ),
    )
}

/// The salt and the signature of a request made at `curtime`.
pub fn youdao_sign(app_key: &str, text: &str, curtime: &str, app_secret: &str) -> (r: (String, String))
    ensures
        r.0@ == youdao_salt(curtime@),
        r.1@ == youdao_signature(app_key@, text@, curtime@, app_secret@),
{
    let mut salt = String::from_str(curtime);
    salt.append("_salt");
    let truncated = truncate_for_sign(text);
    let mut input = String::from_str(app_key);
    input.append(truncated.as_str());
    input.append(salt.as_str());
    input.append(curtime);
    input.append(app_secret);
    let sign = sha256_hex(input.as_str());
    (salt, sign)
}

/// What an answer of Youdao comes to: its error code unless that is `"0"`,
/// else the first translation.
pub fn youdao_outcome(error_code: &str, first: Option<String>) -> (r: Result<String, ZelligError>)
    ensures
        error_code@ != "0"@ ==> (r matches Err(ZelligError::TranslationError(m)) && m@
            == "Youdao error code: "@ + error_code@),
        error_code@ == "0"@ && first is Some ==> r == Ok::<String, ZelligError>(first.unwrap()),
        error_code@ == "0"@ && first is None ==> (r matches Err(ZelligError::TranslationError(m))
            && m@ == "invalid Youdao response"@),
{
    if !str_is(error_code, "0") {
        let mut m = String::from_str("Youdao error code: ");
        m.append(error_code);
        return Err(ZelligError::TranslationError(m));
    }
    match first {
        Some(t) => Ok(t),
        None => Err(translation_error("invalid Youdao response")),
    }
}

} // verus!

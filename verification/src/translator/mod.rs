//! The translation services: their settings checks, the requests they build,
//! and how their answers are read.  Sending the requests is left to the
//! caller.
use crate::config::TranslationMode;
use crate::error::ZelligError;
use crate::text::{chars_of, push_all, string_of};
use vstd::prelude::*;

pub mod azure;
pub mod baidu;
pub mod bergamot;
pub mod deepl;
pub mod google;
pub mod libre;
pub mod lingva;
pub mod local;
pub mod qq;
pub mod sign;
pub mod yandex;
pub mod youdao;

verus! {

/// `reqwest::Client`, carried through unchanged.
#[verifier::external_type_specification]
#[verifier::external_body]
pub struct ExHttpClient(reqwest::Client);

/// `reqwest::Error`, carried through unchanged.
#[verifier::external_type_specification]
#[verifier::external_body]
pub struct ExReqwestError(reqwest::Error);

/// `reqwest::Client::builder().build()`: a client with the default settings,
/// or the error when a TLS backend cannot be set up or the resolver cannot
/// load the system configuration.  Which of the two comes back depends on
/// the machine, so nothing is stated of it.
#[verifier::external_body]
fn build_http_client() -> Result<reqwest::Client, reqwest::Error> {
    reqwest::Client::builder().build()
}

/// The message of a `reqwest::Error`, as its `Display` writes it.
#[verifier::external_body]
fn reqwest_error_message(e: &reqwest::Error) -> String {
    e.to_string()
}

pub open spec fn client_setup_prefix() -> Seq<char> {
    "HTTP client setup failed: "@
}

/// The error of a client that could not be set up.
pub open spec fn client_setup_error(e: ZelligError) -> bool {
    e matches ZelligError::TranslationError(m) && m@.len() >= client_setup_prefix().len() && m@.take(
        client_setup_prefix().len() as int,
    ) == client_setup_prefix()
}

/// What building a client comes to: the client, or a translation error
/// that says the client could not be set up.
pub fn client_outcome(built: Result<reqwest::Client, reqwest::Error>) -> (r: Result<
    reqwest::Client,
    ZelligError,
>)
    ensures
        built is Ok ==> r is Ok,
        built is Err ==> (r matches Err(e) && client_setup_error(e)),
{
    match built {
        Ok(c) => Ok(c),
        Err(e) => {
            let mut m = String::from_str("HTTP client setup failed: ");
            let detail = reqwest_error_message(&e);
            m.append(detail.as_str());
            proof {
                reveal_strlit("HTTP client setup failed: ");
                assert(m@.take(client_setup_prefix().len() as int) =~= client_setup_prefix());
            }
            Err(ZelligError::TranslationError(m))
        },
    }
}

/// A client with the default settings, or the error saying it could not be
/// set up.
pub(crate) fn http_client() -> (r: Result<reqwest::Client, ZelligError>)
    ensures
        r matches Err(e) ==> client_setup_error(e),
{
    client_outcome(build_http_client())
}

/// The system prompt for a language model.
pub struct PromptBuilder;

pub open spec fn system_prompt(source: Seq<char>, target: Seq<char>, context: Option<Seq<char>>) -> Seq<
    char,
> {
    match context {
        Some(ctx) => "You are a professional translator. Translate"@ + " from "@ + source + " to "@
            + target + ". Context: "@ + ctx + ". Provide only translated text."@,
        None => "You are a professional translator. Translate"@ + " from "@ + source + " to "@ + target
            + ". Provide only translated text."@,
    }
}

impl PromptBuilder {
    pub fn build_system(source_lang: &str, target_lang: &str, context: Option<&str>) -> (r: String)
        ensures
            r@ == system_prompt(
                source_lang@,
                target_lang@,
                match context {
                    Some(c) => Some(c@),
                    None => None,
                },
            ),
    {
        let mut r = String::from_str("You are a professional translator. Translate");
        r.append(" from ");
        r.append(source_lang);
        r.append(" to ");
        r.append(target_lang);
        match context {
            Some(ctx) => {
                r.append(". Context: ");
                r.append(ctx);
                r.append(". Provide only translated text.");
            },
            None => {
                r.append(". Provide only translated text.");
            },
        }
        r
    }
}

/// `s` without its trailing `c`s.
pub open spec fn trim_end_char(s: Seq<char>, c: char) -> Seq<char>
    decreases s.len(),
{
    if s.len() > 0 && s.last() == c {
        trim_end_char(s.drop_last(), c)
    } else {
        s
    }
}

/// `s.trim_end_matches('/')`.
pub fn trim_end_slashes(s: &str) -> (r: String)
    ensures
        r@ == trim_end_char(s@, '/'),
{
    let cs = chars_of(s);
    let mut n = cs.len();
    assert(cs@.take(n as int) =~= cs@);
    while n > 0 && cs[n - 1] == '/'
        invariant
            n <= cs@.len(),
            trim_end_char(s@, '/') == trim_end_char(cs@.take(n as int), '/'),
            cs@ == s@,
        decreases n,
    {
        assert(cs@.take(n as int).drop_last() =~= cs@.take(n - 1));
        n = n - 1;
    }
    let mut out: Vec<char> = Vec::new();
    crate::text::push_range(&mut out, &cs, 0, n);
    assert(out@ =~= cs@.take(n as int));
    string_of(&out)
}

pub open spec fn http_failure_message(service: Seq<char>, status: Seq<char>, body: Seq<char>) -> Seq<
    char,
> {
    service + " "@ + status + ": "@ + body
}

/// The error for a request that a service answered with a failure status.
pub fn http_failure(service: &str, status: &str, body: &str) -> (e: ZelligError)
    ensures
        e matches ZelligError::TranslationError(m) && m@ == http_failure_message(
            service@,
            status@,
            body@,
        ),
{
    let mut m = String::from_str(service);
    m.append(" ");
    m.append(status);
    m.append(": ");
    m.append(body);
    ZelligError::TranslationError(m)
}

/// A translation error with the given message.
pub fn translation_error(msg: &str) -> (e: ZelligError)
    ensures
        e matches ZelligError::TranslationError(m) && m@ == msg@,
{
    ZelligError::TranslationError(String::from_str(msg))
}

/// The first of the texts a service returned, or the error `msg`.
pub fn first_or(texts: Vec<String>, msg: &str) -> (r: Result<String, ZelligError>)
    ensures
        texts@.len() > 0 ==> (r matches Ok(t) && t == texts@[0]),
        texts@.len() == 0 ==> (r matches Err(ZelligError::TranslationError(m)) && m@ == msg@),
{
    let mut texts = texts;
    if texts.len() > 0 {
        Ok(texts.remove(0))
    } else {
        Err(translation_error(msg))
    }
}


/// The name a mode prints with `{:?}`.
pub open spec fn mode_debug_name(m: TranslationMode) -> Seq<char> {
    match m {
        TranslationMode::Local => "Local"@,
        TranslationMode::Ai => "Ai"@,
        TranslationMode::Google => "Google"@,
        TranslationMode::DeepL => "DeepL"@,
        TranslationMode::Yandex => "Yandex"@,
        TranslationMode::LibreTranslate => "LibreTranslate"@,
        TranslationMode::Azure => "Azure"@,
        TranslationMode::Bergamot => "Bergamot"@,
        TranslationMode::Baidu => "Baidu"@,
        TranslationMode::Youdao => "Youdao"@,
        TranslationMode::Qq => "Qq"@,
        TranslationMode::Lingva => "Lingva"@,
    }
}

fn mode_debug_text(m: TranslationMode) -> (r: &'static str)
    ensures
        r@ == mode_debug_name(m),
{
    match m {
        TranslationMode::Local => "Local",
        TranslationMode::Ai => "Ai",
        TranslationMode::Google => "Google",
        TranslationMode::DeepL => "DeepL",
        TranslationMode::Yandex => "Yandex",
        TranslationMode::LibreTranslate => "LibreTranslate",
        TranslationMode::Azure => "Azure",
        TranslationMode::Bergamot => "Bergamot",
        TranslationMode::Baidu => "Baidu",
        TranslationMode::Youdao => "Youdao",
        TranslationMode::Qq => "Qq",
        TranslationMode::Lingva => "Lingva",
    }
}

/// The services a translator can be built for.  The machine's own model
/// needs a backend that this build does not have.
pub struct TranslatorFactory {
    modes: Vec<TranslationMode>,
}

impl TranslatorFactory {
    pub closed spec fn registered(&self) -> Seq<TranslationMode> {
        self.modes@
    }

    /// Every service but the machine's own model.
    pub fn new() -> (r: Self)
        ensures
            r.registered().no_duplicates(),
            forall|m: TranslationMode| #[trigger] r.registered().contains(m) <==> m
                != TranslationMode::Local,
    {
        let modes = vec![
            TranslationMode::Ai,
            TranslationMode::Google,
            TranslationMode::DeepL,
            TranslationMode::Yandex,
            TranslationMode::LibreTranslate,
            TranslationMode::Azure,
            TranslationMode::Bergamot,
            TranslationMode::Baidu,
            TranslationMode::Youdao,
            TranslationMode::Qq,
            TranslationMode::Lingva,
        ];
        let r = TranslatorFactory { modes };
        assert forall|m: TranslationMode| #[trigger] r.registered().contains(m) <==> m
            != TranslationMode::Local by {
            if m != TranslationMode::Local {
                assert(r.registered()[crate::config::mode_index(m) - 1] == m);
            }
        }
        r
    }

    fn has(&self, mode: TranslationMode) -> (b: bool)
        ensures
            b == self.registered().contains(mode),
    {
        let mut i: usize = 0;
        while i < self.modes.len()
            invariant
                i <= self.modes@.len(),
                forall|k: int| 0 <= k < i ==> self.modes@[k] != mode,
            decreases self.modes@.len() - i,
        {
            if self.modes[i] == mode {
                return true;
            }
            i = i + 1;
        }
        false
    }

    /// Makes the service available.
    pub fn register(&mut self, mode: TranslationMode)
        requires
            old(self).registered().no_duplicates(),
        ensures
            final(self).registered().no_duplicates(),
            forall|m: TranslationMode| #[trigger] final(self).registered().contains(m) <==> (
            old(self).registered().contains(m) || m == mode),
    {
        if !self.has(mode) {
            self.modes.push(mode);
            assert forall|m: TranslationMode| #[trigger] self.registered().contains(m) <==> (
            old(self).registered().contains(m) || m == mode) by {
                if old(self).registered().contains(m) {
                    let k = choose|k: int| 0 <= k < old(self).registered().len() && old(self).registered()[k] == m;
                    assert(self.registered()[k] == m);
                }
                if m == mode {
                    assert(self.registered()[self.registered().len() - 1] == m);
                }
            }
        }
    }

    /// The service to build a translator for, or why there is none.
    pub fn creator_for(&self, mode: TranslationMode) -> (r: Result<TranslationMode, ZelligError>)
        ensures
            self.registered().contains(mode) ==> r == Ok::<TranslationMode, ZelligError>(mode),
            !self.registered().contains(mode) && mode == TranslationMode::Local ==> (r matches Err(
                ZelligError::ConfigError(m),
            ) && m@
                == "Local backend not available — binary compiled without 'local' feature"@),
            !self.registered().contains(mode) && mode != TranslationMode::Local ==> (r matches Err(
                ZelligError::ConfigError(m),
            ) && m@ == "No translator for "@ + mode_debug_name(mode)
                + " — check feature flags or config"@),
    {
        if self.has(mode) {
            Ok(mode)
        } else if mode == TranslationMode::Local {
            Err(
                ZelligError::ConfigError(
                    String::from_str(
                        "Local backend not available — binary compiled without 'local' feature",
                    ),
                ),
            )
        } else {
            let mut m = String::from_str("No translator for ");
            m.append(mode_debug_text(mode));
            m.append(" — check feature flags or config");
            Err(ZelligError::ConfigError(m))
        }
    }
}

impl Default for TranslatorFactory {
    fn default() -> (r: Self)
        ensures
            r.registered().no_duplicates(),
            forall|m: TranslationMode| #[trigger] r.registered().contains(m) <==> m
                != TranslationMode::Local,
    {
        TranslatorFactory::new()
    }
}

} // verus!

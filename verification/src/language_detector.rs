//! Language detection on the machine, by `whatlang`.
use crate::error::ZelligError;
use vstd::prelude::*;

verus! {

/// `whatlang::Info`, carried through unchanged.
#[verifier::external_type_specification]
#[verifier::external_body]
pub struct ExLangInfo(whatlang::Info);

/// What `whatlang::detect` reports of a text: its language's code and
/// English name, its script's name, and whether the finding is reliable;
/// `None` when it finds no language.  Its detection reads the text alone
/// (scripts, alphabets and trigrams of the text, with the default options),
/// so the report is a function of the text.
pub uninterp spec fn whatlang_reading(text: Seq<char>) -> Option<(Seq<char>, Seq<char>, Seq<char>, bool)>;

/// A language found in a text.  `info` is whatlang's own finding, kept for
/// its confidence, a float.
#[derive(Debug)]
pub struct DetectedLanguage {
    pub code: String,
    pub name: String,
    pub script: String,
    pub reliable: bool,
    pub info: whatlang::Info,
}

/// The plain values of a finding, as the contracts speak of them.
pub open spec fn reading_of(d: DetectedLanguage) -> (Seq<char>, Seq<char>, Seq<char>, bool) {
    (d.code@, d.name@, d.script@, d.reliable)
}

/// `whatlang::detect`, its finding read through `Info::lang` (`Lang::code`,
/// `Lang::eng_name`), `Info::script` (`Script::name`) and
/// `Info::is_reliable`.  The confidence is carried in `info` and not stated.
#[verifier::external_body]
fn whatlang_detect(text: &str) -> (r: Option<DetectedLanguage>)
    ensures
        match r {
            Some(d) => whatlang_reading(text@) == Some(reading_of(d)),
            None => whatlang_reading(text@) is None,
        },
{
    match whatlang::detect(text) {
        Some(info) => Some(DetectedLanguage {
            code: info.lang().code().to_string(),
            name: info.lang().eng_name().to_string(),
            script: info.script().name().to_string(),
            reliable: info.is_reliable(),
            info,
        }),
        None => None,
    }
}

/// What a detection comes to: the finding, or an error when there is none.
pub fn detection_outcome(found: Option<DetectedLanguage>) -> (r: Result<DetectedLanguage, ZelligError>)
    ensures
        found is Some ==> (r matches Ok(d) && reading_of(d) == reading_of(found.unwrap())),
        found is None ==> (r matches Err(ZelligError::DetectionError(m)) && m@
            == "Could not detect language"@),
{
    match found {
        Some(d) => Ok(d),
        None => Err(ZelligError::DetectionError(String::from_str("Could not detect language"))),
    }
}

/// The detector that runs `whatlang` locally.
pub struct WhatLangDetector;

impl WhatLangDetector {
    pub fn new() -> Self {
        WhatLangDetector
    }

    /// What `whatlang` finds, or an error when it finds nothing.
    pub fn detect(&self, text: &str) -> (r: Result<DetectedLanguage, ZelligError>)
        ensures
            match whatlang_reading(text@) {
                Some(x) => r matches Ok(d) && reading_of(d) == x,
                None => r matches Err(ZelligError::DetectionError(m)) && m@
                    == "Could not detect language"@,
            },
    {
        detection_outcome(whatlang_detect(text))
    }
}

impl Default for WhatLangDetector {
    fn default() -> (r: Self)
        ensures
            r == WhatLangDetector,
    {
        WhatLangDetector
    }
}

} // verus!

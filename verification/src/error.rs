//! The error type of the library.
use vstd::prelude::*;

verus! {

/// `std::io::Error`, carried through unchanged.
#[verifier::external_type_specification]
#[verifier::external_body]
pub struct ExIoError(std::io::Error);

/// What can go wrong while translating.
#[derive(Debug)]
pub enum ZelligError {
    TranslationError(String),
    ConfigError(String),
    IoError(std::io::Error),
    AiError(String),
    ModelError(String),
    DownloadError(String),
    DetectionError(String),
}

impl ZelligError {
    /// The message of the error as its `Display` prints it.
    pub fn message(&self) -> (r: String)
        ensures
            self matches ZelligError::TranslationError(m) ==> r@ == "translation failed: "@ + m@,
            self matches ZelligError::ConfigError(m) ==> r@ == "configuration error: "@ + m@,
            self matches ZelligError::AiError(m) ==> r@ == "AI provider error: "@ + m@,
            self matches ZelligError::ModelError(m) ==> r@ == "model error: "@ + m@,
            self matches ZelligError::DownloadError(m) ==> r@ == "download error: "@ + m@,
            self matches ZelligError::DetectionError(m) ==> r@ == "language detection error: "@
                + m@,
    {
        match self {
            ZelligError::TranslationError(m) => prefixed("translation failed: ", m),
            ZelligError::ConfigError(m) => prefixed("configuration error: ", m),
            ZelligError::IoError(e) => io_error_message(e),
            ZelligError::AiError(m) => prefixed("AI provider error: ", m),
            ZelligError::ModelError(m) => prefixed("model error: ", m),
            ZelligError::DownloadError(m) => prefixed("download error: ", m),
            ZelligError::DetectionError(m) => prefixed("language detection error: ", m),
        }
    }
}

fn prefixed(p: &str, m: &String) -> (r: String)
    ensures
        r@ == p@ + m@,
{
    let mut r = String::from_str(p);
    r.append(m.as_str());
    r
}

/// `format!("IO error: {}", e)` for an `std::io::Error`.
#[verifier::external_body]
fn io_error_message(e: &std::io::Error) -> String {
    format!("IO error: {}", e)
}

} // verus!

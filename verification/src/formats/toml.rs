//! TOML files: string leaves are kept as they are, paths are JSON pointers.
use crate::error::ZelligError;
use crate::formats::tree::{
    applied, apply_translations, ids_are, tree_strings, unmatched, value_strings, JsonNode, JsonValue,
};
use crate::formats::{strings_match, TranslatableString, TranslatedString};
use vstd::prelude::*;

verus! {

/// `serde_json::Value`, carried through unchanged.
#[verifier::external_type_specification]
#[verifier::external_body]
pub struct ExSerdeValue(serde_json::Value);

/// The document that `toml::from_str` (into a `serde_json::Value`) reads from `content`, as a tree; `None`
/// where the text is no TOML.
pub uninterp spec fn toml_doc_of(content: Seq<char>) -> Option<JsonValue>;

/// The text that `toml::to_string_pretty` writes for the tree `v`; `None` where writing
/// fails.
pub uninterp spec fn toml_text_of(v: JsonValue) -> Option<Seq<char>>;

/// A `serde_json::Value` as a tree, kind for kind; a number is its text.
#[verifier::external_body]
pub(crate) fn node_of_serde(v: &serde_json::Value) -> JsonNode {
    match v {
        serde_json::Value::Null => JsonNode::Null,
        serde_json::Value::Bool(b) => JsonNode::Bool(*b),
        serde_json::Value::Number(n) => JsonNode::Number(n.to_string()),
        serde_json::Value::String(s) => JsonNode::Str(s.clone()),
        serde_json::Value::Array(a) => JsonNode::Array(a.iter().map(node_of_serde).collect()),
        serde_json::Value::Object(m) => JsonNode::Object(m.iter().map(|(k, x)| (k.clone(), node_of_serde(x))).collect()),
    }
}

/// A tree as a `serde_json::Value`, kind for kind; a number is read back
/// from its text, an unreadable one as null.
#[verifier::external_body]
pub(crate) fn serde_of_node(n: &JsonNode) -> serde_json::Value {
    match n {
        JsonNode::Null => serde_json::Value::Null,
        JsonNode::Bool(b) => serde_json::Value::Bool(*b),
        JsonNode::Number(x) => serde_json::from_str(x).unwrap_or(serde_json::Value::Null),
        JsonNode::Str(s) => serde_json::Value::String(s.clone()),
        JsonNode::Array(items) => serde_json::Value::Array(items.iter().map(serde_of_node).collect()),
        JsonNode::Object(entries) => serde_json::Value::Object(entries.iter().map(|(k, v)| (k.clone(), serde_of_node(v))).collect()),
    }
}

/// `toml::from_str` (into a `serde_json::Value`): the document in `content`, or the parser's message.
#[verifier::external_body]
pub(crate) fn parse_toml(content: &str) -> (r: Result<JsonNode, String>)
    ensures
        match toml_doc_of(content@) {
            Some(v) => r matches Ok(n) && n@ == v,
            None => r is Err,
        },
{
    match toml::from_str::<serde_json::Value>(content) {
        Ok(v) => Ok(node_of_serde(&v)),
        Err(e) => Err(e.to_string()),
    }
}

/// `toml::to_string_pretty`: the document as text, or the writer's message.
#[verifier::external_body]
pub(crate) fn write_toml(root: &JsonNode) -> (r: Result<String, String>)
    ensures
        match toml_text_of(root@) {
            Some(t) => r matches Ok(s) && s@ == t,
            None => r is Err,
        },
{
    match toml::to_string_pretty(&serde_of_node(root)) {
        Ok(s) => Ok(s),
        Err(e) => Err(e.to_string()),
    }
}

/// The handler of TOML documents.
pub struct TomlHandler;

impl TomlHandler {
    pub fn new() -> Self {
        TomlHandler
    }

    /// The string leaves of the text's document, with ids `toml.key`,
    /// `toml[i]`, …; text that is no TOML is a configuration error.
    pub fn extract(&self, content: &str) -> (r: Result<Vec<TranslatableString>, ZelligError>)
        ensures
            match toml_doc_of(content@) {
                Some(v) => r matches Ok(x) && strings_match(x@, value_strings(v, "toml"@, false), "TOML string value"@),
                None => r matches Err(ZelligError::ConfigError(_)),
            },
    {
        match parse_toml(content) {
            Ok(root) => Ok(self.extract_tree(&root)),
            Err(m) => Err(ZelligError::ConfigError(m)),
        }
    }

    /// The text's document with each translation in place of the string its
    /// id leads to, written out again, and the ids that lead nowhere.
    pub fn reconstruct(&self, original: &str, translations: &[TranslatedString]) -> (r: Result<
        (String, Vec<String>),
        ZelligError,
    >)
        ensures
            match toml_doc_of(original@) {
                None => r matches Err(ZelligError::ConfigError(_)),
                Some(v) => match toml_text_of(applied(v, translations@, translations@.len(), true)) {
                    Some(t) => r matches Ok(p) && p.0@ == t && ids_are(
                        p.1@,
                        unmatched(v, translations@, translations@.len(), true),
                    ),
                    None => r matches Err(ZelligError::ConfigError(_)),
                },
            },
    {
        let mut root = match parse_toml(original) {
            Ok(n) => n,
            Err(m) => {
                return Err(ZelligError::ConfigError(m));
            },
        };
        let missing = self.reconstruct_tree(&mut root, translations);
        match write_toml(&root) {
            Ok(s) => Ok((s, missing)),
            Err(m) => Err(ZelligError::ConfigError(m)),
        }
    }

    /// The string leaves of a document, with ids `toml.key`, `toml[i]`, ….
    pub fn extract_tree(&self, root: &JsonNode) -> (r: Vec<TranslatableString>)
        ensures
            strings_match(r@, value_strings(root@, "toml"@, false), "TOML string value"@),
    {
        tree_strings(root, "toml", "TOML string value", false)
    }

    /// Puts each translation in place of the string its id leads to, and
    /// returns the ids that lead nowhere.
    pub fn reconstruct_tree(&self, root: &mut JsonNode, translations: &[TranslatedString]) -> (missing: Vec<String>)
        ensures
            final(root)@ == applied(old(root)@, translations@, translations@.len(), true),
            ids_are(missing@, unmatched(old(root)@, translations@, translations@.len(), true)),
    {
        apply_translations(root, translations, true)
    }
}

impl Default for TomlHandler {
    fn default() -> (r: Self)
        ensures
            r == TomlHandler,
    {
        TomlHandler
    }
}

} // verus!

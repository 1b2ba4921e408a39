//! YAML files: string leaves are kept as they are, paths are JSON pointers.
use crate::error::ZelligError;
use crate::formats::tree::{
    applied, apply_translations, ids_are, tree_strings, unmatched, value_strings, JsonNode, JsonValue,
};
use crate::formats::{strings_match, TranslatableString, TranslatedString};
use crate::formats::toml::{node_of_serde, serde_of_node};
use vstd::prelude::*;

verus! {

/// The document that `serde_yaml::from_str` (into a `serde_json::Value`) reads from `content`, as a tree; `None`
/// where the text is no YAML.
pub uninterp spec fn yaml_doc_of(content: Seq<char>) -> Option<JsonValue>;

/// The text that `serde_yaml::to_string` writes for the tree `v`; `None` where writing
/// fails.
pub uninterp spec fn yaml_text_of(v: JsonValue) -> Option<Seq<char>>;

/// `serde_yaml::from_str` (into a `serde_json::Value`): the document in `content`, or the parser's message.
#[verifier::external_body]
pub(crate) fn parse_yaml(content: &str) -> (r: Result<JsonNode, String>)
    ensures
        match yaml_doc_of(content@) {
            Some(v) => r matches Ok(n) && n@ == v,
            None => r is Err,
        },
{
    match serde_yaml::from_str::<serde_json::Value>(content) {
        Ok(v) => Ok(node_of_serde(&v)),
        Err(e) => Err(e.to_string()),
    }
}

/// `serde_yaml::to_string`: the document as text, or the writer's message.
#[verifier::external_body]
pub(crate) fn write_yaml(root: &JsonNode) -> (r: Result<String, String>)
    ensures
        match yaml_text_of(root@) {
            Some(t) => r matches Ok(s) && s@ == t,
            None => r is Err,
        },
{
    match serde_yaml::to_string(&serde_of_node(root)) {
        Ok(s) => Ok(s),
        Err(e) => Err(e.to_string()),
    }
}

/// The handler of YAML documents.
pub struct YamlHandler;

impl YamlHandler {
    pub fn new() -> Self {
        YamlHandler
    }

    /// The string leaves of the text's document, with ids `yaml.key`,
    /// `yaml[i]`, …; text that is no YAML is a configuration error.
    pub fn extract(&self, content: &str) -> (r: Result<Vec<TranslatableString>, ZelligError>)
        ensures
            match yaml_doc_of(content@) {
                Some(v) => r matches Ok(x) && strings_match(x@, value_strings(v, "yaml"@, false), "YAML string value"@),
                None => r matches Err(ZelligError::ConfigError(_)),
            },
    {
        match parse_yaml(content) {
            Ok(root) => Ok(self.extract_tree(&root)),
            Err(m) => Err(ZelligError::ConfigError(m)),
        }
    }

    /// The text's document with each translation in place of the string its
    /// id leads to, written out again, and the ids that lead nowhere.
    pub fn reconstruct(&self, original: &str, translations: &[TranslatedString]) -> (r: Result<
        (String, Vec<String>),
        ZelligError,
    >)
        ensures
            match yaml_doc_of(original@) {
                None => r matches Err(ZelligError::ConfigError(_)),
                Some(v) => match yaml_text_of(applied(v, translations@, translations@.len(), true)) {
                    Some(t) => r matches Ok(p) && p.0@ == t && ids_are(
                        p.1@,
                        unmatched(v, translations@, translations@.len(), true),
                    ),
                    None => r matches Err(ZelligError::ConfigError(_)),
                },
            },
    {
        let mut root = match parse_yaml(original) {
            Ok(n) => n,
            Err(m) => {
                return Err(ZelligError::ConfigError(m));
            },
        };
        let missing = self.reconstruct_tree(&mut root, translations);
        match write_yaml(&root) {
            Ok(s) => Ok((s, missing)),
            Err(m) => Err(ZelligError::ConfigError(m)),
        }
    }

    /// The string leaves of a document, with ids `yaml.key`, `yaml[i]`, ….
    pub fn extract_tree(&self, root: &JsonNode) -> (r: Vec<TranslatableString>)
        ensures
            strings_match(r@, value_strings(root@, "yaml"@, false), "YAML string value"@),
    {
        tree_strings(root, "yaml", "YAML string value", false)
    }

    /// Puts each translation in place of the string its id leads to, and
    /// returns the ids that lead nowhere.
    pub fn reconstruct_tree(&self, root: &mut JsonNode, translations: &[TranslatedString]) -> (missing: Vec<String>)
        ensures
            final(root)@ == applied(old(root)@, translations@, translations@.len(), true),
            ids_are(missing@, unmatched(old(root)@, translations@, translations@.len(), true)),
    {
        apply_translations(root, translations, true)
    }
}

impl Default for YamlHandler {
    fn default() -> (r: Self)
        ensures
            r == YamlHandler,
    {
        YamlHandler
    }
}

} // verus!

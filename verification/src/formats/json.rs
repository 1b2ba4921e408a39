//! JSON files: string leaves are trimmed, array indices are read leniently.
use crate::error::ZelligError;
use crate::formats::tree::{
    applied, apply_translations, ids_are, tree_strings, unmatched, value_strings, JsonNode, JsonValue,
};
use crate::formats::{strings_match, TranslatableString, TranslatedString};
use crate::formats::tree::{entries_view, items_view, lemma_entries_view, lemma_items_view, node_view};
use crate::text::{chars_of, push_all, string_of};
pub use crate::formats::tree::{escape_pointer, id_to_pointer, pointer_segments};
use sonic_rs::{JsonContainerTrait, JsonValueTrait};
use vstd::prelude::*;

verus! {

/// `sonic_rs::Value`, carried through unchanged.
#[verifier::external_type_specification]
#[verifier::external_body]
pub struct ExSonicValue(sonic_rs::Value);

/// The document that `sonic_rs::from_str` reads from `content`, as a tree:
/// objects keep the entries in the order sonic gives them, a number is its
/// text as `sonic_rs::to_string` writes it; `None` where the text is no JSON.
pub uninterp spec fn json_doc_of(content: Seq<char>) -> Option<JsonValue>;

/// The text that `sonic_rs::to_string_pretty` writes for the document that
/// `sonic_rs::from_str` reads from `text` (objects keep the order of `text`);
/// `None` where reading or writing fails.
pub uninterp spec fn json_pretty_of(text: Seq<char>) -> Option<Seq<char>>;

/// A `sonic_rs::Value` as a tree, kind for kind.
#[verifier::external_body]
fn node_of_sonic(v: &sonic_rs::Value) -> JsonNode {
    if v.is_null() {
        JsonNode::Null
    } else if let Some(b) = v.as_bool() {
        JsonNode::Bool(b)
    } else if let Some(s) = v.as_str() {
        JsonNode::Str(s.to_string())
    } else if let Some(items) = v.as_array() {
        JsonNode::Array(items.iter().map(node_of_sonic).collect())
    } else if let Some(map) = v.as_object() {
        JsonNode::Object(map.iter().map(|(k, x)| (k.to_string(), node_of_sonic(x))).collect())
    } else {
        JsonNode::Number(sonic_rs::to_string(v).unwrap_or_default())
    }
}

/// `sonic_rs::from_str`: the document in `content`, or the parser's message.
#[verifier::external_body]
fn parse_json(content: &str) -> (r: Result<JsonNode, String>)
    ensures
        match json_doc_of(content@) {
            Some(v) => r matches Ok(n) && n@ == v,
            None => r is Err,
        },
{
    match sonic_rs::from_str::<sonic_rs::Value>(content) {
        Ok(v) => Ok(node_of_sonic(&v)),
        Err(e) => Err(e.to_string()),
    }
}

/// `sonic_rs::from_str` and `sonic_rs::to_string_pretty`: the document in
/// `text` written out in the pretty layout, or the reader's or the writer's
/// message.
#[verifier::external_body]
fn write_json(text: &str) -> (r: Result<String, String>)
    ensures
        match json_pretty_of(text@) {
            Some(t) => r matches Ok(s) && s@ == t,
            None => r is Err,
        },
{
    match sonic_rs::from_str::<sonic_rs::Value>(text) {
        Ok(v) => match sonic_rs::to_string_pretty(&v) {
            Ok(s) => Ok(s),
            Err(e) => Err(e.to_string()),
        },
        Err(e) => Err(e.to_string()),
    }
}

/// The hex digit of `n`, for `n < 16`, in lower case.
pub open spec fn hex_digit(n: int) -> char {
    seq!['0', '1', '2', '3', '4', '5', '6', '7', '8', '9', 'a', 'b', 'c', 'd', 'e', 'f'][n]
}

/// How a char is written inside a JSON string: `"` and `\` behind a
/// backslash, a control char as `\u00XX`, any other as itself.
pub open spec fn json_char(c: char) -> Seq<char> {
    if c == '"' {
        seq!['\\', '"']
    } else if c == '\\' {
        seq!['\\', '\\']
    } else if (c as u32) < 32 {
        seq!['\\', 'u', '0', '0', hex_digit(((c as u32) / 16) as int), hex_digit(((c as u32) % 16) as int)]
    } else {
        seq![c]
    }
}

/// The chars of `s` as written inside a JSON string.
pub open spec fn json_chars(s: Seq<char>) -> Seq<char>
    decreases s.len(),
{
    if s.len() == 0 {
        seq![]
    } else {
        json_chars(s.drop_last()) + json_char(s.last())
    }
}

/// `s` as a JSON string literal.
pub open spec fn json_string(s: Seq<char>) -> Seq<char> {
    seq!['"'] + json_chars(s) + seq!['"']
}

/// The compact JSON text of a tree: no white space, a number as its text.
pub open spec fn json_compact(v: JsonValue) -> Seq<char>
    decreases v, 0nat,
{
    match v {
        JsonValue::Null => seq!['n', 'u', 'l', 'l'],
        JsonValue::Bool(b) => if b {
            seq!['t', 'r', 'u', 'e']
        } else {
            seq!['f', 'a', 'l', 's', 'e']
        },
        JsonValue::Number(x) => x,
        JsonValue::Str(s) => json_string(s),
        JsonValue::Array(items) => seq!['['] + compact_items(items, items.len()) + seq![']'],
        JsonValue::Object(es) => seq!['{'] + compact_entries(es, es.len()) + seq!['}'],
    }
}

/// The first `n` items, separated by commas.
pub open spec fn compact_items(items: Seq<JsonValue>, n: nat) -> Seq<char>
    decreases items, n,
{
    if n == 0 || n > items.len() {
        seq![]
    } else {
        compact_items(items, (n - 1) as nat) + (if n > 1 {
            seq![',']
        } else {
            seq![]
        }) + json_compact(items[n - 1])
    }
}

/// The first `n` entries as `"key":value`, separated by commas.
pub open spec fn compact_entries(es: Seq<(Seq<char>, JsonValue)>, n: nat) -> Seq<char>
    decreases es, n,
{
    if n == 0 || n > es.len() {
        seq![]
    } else {
        compact_entries(es, (n - 1) as nat) + (if n > 1 {
            seq![',']
        } else {
            seq![]
        }) + json_string(es[n - 1].0) + seq![':'] + json_compact(es[n - 1].1)
    }
}

fn hex_char(n: u32) -> (c: char)
    requires
        n < 16,
    ensures
        c == hex_digit(n as int),
{
    if n < 8 {
        if n < 4 {
            if n == 0 { '0' } else if n == 1 { '1' } else if n == 2 { '2' } else { '3' }
        } else {
            if n == 4 { '4' } else if n == 5 { '5' } else if n == 6 { '6' } else { '7' }
        }
    } else {
        if n < 12 {
            if n == 8 { '8' } else if n == 9 { '9' } else if n == 10 { 'a' } else { 'b' }
        } else {
            if n == 12 { 'c' } else if n == 13 { 'd' } else if n == 14 { 'e' } else { 'f' }
        }
    }
}

/// Appends `s` as a JSON string literal.
fn push_json_string(out: &mut Vec<char>, s: &[char])
    ensures
        final(out)@ == old(out)@ + json_string(s@),
{
    out.push('"');
    let mut i: usize = 0;
    while i < s.len()
        invariant
            i <= s@.len(),
            out@ == old(out)@ + seq!['"'] + json_chars(s@.take(i as int)),
        decreases s@.len() - i,
    {
        let c = s[i];
        let ghost before = out@;
        if c == '"' {
            out.push('\\');
            out.push('"');
        } else if c == '\\' {
            out.push('\\');
            out.push('\\');
        } else if (c as u32) < 32 {
            let u = c as u32;
            out.push('\\');
            out.push('u');
            out.push('0');
            out.push('0');
            out.push(hex_char(u / 16));
            out.push(hex_char(u % 16));
        } else {
            out.push(c);
        }
        assert(out@ =~= before + json_char(c));
        assert(s@.take(i + 1).drop_last() =~= s@.take(i as int));
        i = i + 1;
    }
    assert(s@.take(s@.len() as int) =~= s@);
    out.push('"');
    assert(out@ =~= old(out)@ + json_string(s@));
}

/// Appends the compact JSON text of `node`.
fn push_compact(out: &mut Vec<char>, node: &JsonNode)
    ensures
        final(out)@ == old(out)@ + json_compact(node@),
    decreases node, 0nat,
{
    match node {
        JsonNode::Null => {
            out.push('n');
            out.push('u');
            out.push('l');
            out.push('l');
            assert(out@ =~= old(out)@ + json_compact(node@));
        },
        JsonNode::Bool(b) => {
            if *b {
                out.push('t');
                out.push('r');
                out.push('u');
                out.push('e');
            } else {
                out.push('f');
                out.push('a');
                out.push('l');
                out.push('s');
                out.push('e');
            }
            assert(out@ =~= old(out)@ + json_compact(node@));
        },
        JsonNode::Number(x) => {
            let cs = chars_of(x.as_str());
            push_all(out, &cs);
        },
        JsonNode::Str(x) => {
            let cs = chars_of(x.as_str());
            push_json_string(out, &cs);
        },
        JsonNode::Array(items) => {
            proof {
                lemma_items_view(items@, items@.len());
            }
            let ghost iv = items_view(items@, items@.len());
            out.push('[');
            let mut i: usize = 0;
            assert(out@ =~= old(out)@ + seq!['['] + compact_items(iv, 0));
            while i < items.len()
                invariant
                    i <= items@.len(),
                    *node == JsonNode::Array(*items),
                    iv == items_view(items@, items@.len()),
                    node@ == JsonValue::Array(iv),
                    iv.len() == items@.len(),
                    forall|j: int| 0 <= j < items@.len() ==> #[trigger] iv[j] == node_view(items@[j]),
                    out@ == old(out)@ + seq!['['] + compact_items(iv, i as nat),
                decreases items@.len() - i,
            {
                if i > 0 {
                    out.push(',');
                }
                proof {
                    assert(decreases_to!(*node => *items));
                    assert(decreases_to!(*items => items@));
                    assert(decreases_to!(items@ => items@[i as int]));
                    assert(decreases_to!(*node => items@[i as int]));
                }
                push_compact(out, &items[i]);
                proof {
                    assert(iv[i as int] == node_view(items@[i as int]));
                    assert(compact_items(iv, (i + 1) as nat) == compact_items(iv, i as nat) + (if i
                        + 1 > 1 {
                        seq![',']
                    } else {
                        seq![]
                    }) + json_compact(iv[i as int]));
                    assert(out@ =~= old(out)@ + seq!['['] + compact_items(iv, (i + 1) as nat));
                }
                i = i + 1;
            }
            out.push(']');
            assert(out@ =~= old(out)@ + json_compact(node@));
        },
        JsonNode::Object(es) => {
            proof {
                lemma_entries_view(es@, es@.len());
            }
            let ghost ev = entries_view(es@, es@.len());
            out.push('{');
            let mut i: usize = 0;
            assert(out@ =~= old(out)@ + seq!['{'] + compact_entries(ev, 0));
            while i < es.len()
                invariant
                    i <= es@.len(),
                    *node == JsonNode::Object(*es),
                    ev == entries_view(es@, es@.len()),
                    node@ == JsonValue::Object(ev),
                    ev.len() == es@.len(),
                    forall|j: int|
                        0 <= j < es@.len() ==> #[trigger] ev[j] == (es@[j].0@, node_view(es@[j].1)),
                    out@ == old(out)@ + seq!['{'] + compact_entries(ev, i as nat),
                decreases es@.len() - i,
            {
                if i > 0 {
                    out.push(',');
                }
                let key = chars_of(es[i].0.as_str());
                push_json_string(out, &key);
                out.push(':');
                proof {
                    assert(decreases_to!(*node => *es));
                    assert(decreases_to!(*es => es@));
                    assert(decreases_to!(es@ => es@[i as int]));
                    assert(decreases_to!(es@[i as int] => es@[i as int].1));
                    assert(decreases_to!(*node => es@[i as int].1));
                }
                push_compact(out, &es[i].1);
                proof {
                    assert(ev[i as int] == (es@[i as int].0@, node_view(es@[i as int].1)));
                    assert(compact_entries(ev, (i + 1) as nat) == compact_entries(ev, i as nat) + (if i
                        + 1 > 1 {
                        seq![',']
                    } else {
                        seq![]
                    }) + json_string(ev[i as int].0) + seq![':'] + json_compact(ev[i as int].1));
                    assert(out@ =~= old(out)@ + seq!['{'] + compact_entries(ev, (i + 1) as nat));
                }
                i = i + 1;
            }
            out.push('}');
            assert(out@ =~= old(out)@ + json_compact(node@));
        },
    }
}

/// The compact JSON text of a document.
pub fn compact_json(root: &JsonNode) -> (r: String)
    ensures
        r@ == json_compact(root@),
{
    let mut out: Vec<char> = Vec::new();
    push_compact(&mut out, root);
    assert(out@ =~= json_compact(root@));
    string_of(&out)
}

/// The handler of JSON documents.
pub struct JsonHandler;

impl JsonHandler {
    pub fn new() -> Self {
        JsonHandler
    }

    /// The string leaves of the text's document, with ids `json.key`,
    /// `json[i]`, …; text that is no JSON is a configuration error.
    pub fn extract(&self, content: &str) -> (r: Result<Vec<TranslatableString>, ZelligError>)
        ensures
            match json_doc_of(content@) {
                Some(v) => r matches Ok(x) && strings_match(x@, value_strings(v, "json"@, true), "JSON string value"@),
                None => r matches Err(ZelligError::ConfigError(_)),
            },
    {
        match parse_json(content) {
            Ok(root) => Ok(self.extract_tree(&root)),
            Err(m) => Err(ZelligError::ConfigError(m)),
        }
    }

    /// The text's document with each translation in place of the string its
    /// id leads to, written out again, and the ids that lead nowhere.
    pub fn reconstruct(&self, original: &str, translations: &[TranslatedString]) -> (r: Result<
        (String, Vec<String>),
        ZelligError,
    >)
        ensures
            match json_doc_of(original@) {
                None => r matches Err(ZelligError::ConfigError(_)),
                Some(v) => match json_pretty_of(
                    json_compact(applied(v, translations@, translations@.len(), false)),
                ) {
                    Some(t) => r matches Ok(p) && p.0@ == t && ids_are(
                        p.1@,
                        unmatched(v, translations@, translations@.len(), false),
                    ),
                    None => r matches Err(ZelligError::ConfigError(_)),
                },
            },
    {
        let mut root = match parse_json(original) {
            Ok(n) => n,
            Err(m) => {
                return Err(ZelligError::ConfigError(m));
            },
        };
        let missing = self.reconstruct_tree(&mut root, translations);
        let text = compact_json(&root);
        match write_json(text.as_str()) {
            Ok(s) => Ok((s, missing)),
            Err(m) => Err(ZelligError::ConfigError(m)),
        }
    }

    /// The string leaves of a document, with ids `json.key`, `json[i]`, ….
    pub fn extract_tree(&self, root: &JsonNode) -> (r: Vec<TranslatableString>)
        ensures
            strings_match(r@, value_strings(root@, "json"@, true), "JSON string value"@),
    {
        tree_strings(root, "json", "JSON string value", true)
    }

    /// Puts each translation in place of the string its id leads to, and
    /// returns the ids that lead nowhere.
    pub fn reconstruct_tree(&self, root: &mut JsonNode, translations: &[TranslatedString]) -> (missing: Vec<String>)
        ensures
            final(root)@ == applied(old(root)@, translations@, translations@.len(), false),
            ids_are(missing@, unmatched(old(root)@, translations@, translations@.len(), false)),
    {
        apply_translations(root, translations, false)
    }
}

impl Default for JsonHandler {
    fn default() -> (r: Self)
        ensures
            r == JsonHandler,
    {
        JsonHandler
    }
}

} // verus!

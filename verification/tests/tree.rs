use zellig::formats::json::{compact_json, escape_pointer, id_to_pointer, pointer_segments, JsonHandler};
use zellig::formats::toml::TomlHandler;
use zellig::formats::tree::{apply_translations, tree_strings, JsonNode};
use zellig::formats::yaml::YamlHandler;
use zellig::error::ZelligError;
use zellig::formats::TranslatedString;

fn tr(id: &str, text: &str) -> TranslatedString {
    TranslatedString {
        id: id.to_string(),
        translated_text: text.to_string(),
    }
}

fn s(x: &str) -> JsonNode {
    JsonNode::Str(x.to_string())
}

fn obj(entries: Vec<(&str, JsonNode)>) -> JsonNode {
    JsonNode::Object(entries.into_iter().map(|(k, v)| (k.to_string(), v)).collect())
}

fn get<'a>(node: &'a JsonNode, key: &str) -> &'a JsonNode {
    match node {
        JsonNode::Object(es) => &es.iter().find(|(k, _)| k == key).unwrap().1,
        _ => panic!("not an object"),
    }
}

fn at(node: &JsonNode, i: usize) -> &JsonNode {
    match node {
        JsonNode::Array(items) => &items[i],
        _ => panic!("not an array"),
    }
}

fn str_of(node: &JsonNode) -> &str {
    match node {
        JsonNode::Str(x) => x,
        _ => panic!("not a string"),
    }
}

fn to_node(v: &serde_json::Value) -> JsonNode {
    match v {
        serde_json::Value::Null => JsonNode::Null,
        serde_json::Value::Bool(b) => JsonNode::Bool(*b),
        serde_json::Value::Number(n) => JsonNode::Number(n.to_string()),
        serde_json::Value::String(x) => JsonNode::Str(x.clone()),
        serde_json::Value::Array(a) => JsonNode::Array(a.iter().map(to_node).collect()),
        serde_json::Value::Object(m) => {
            JsonNode::Object(m.iter().map(|(k, v)| (k.clone(), to_node(v))).collect())
        }
    }
}

fn from_node(n: &JsonNode) -> serde_json::Value {
    match n {
        JsonNode::Null => serde_json::Value::Null,
        JsonNode::Bool(b) => serde_json::Value::Bool(*b),
        JsonNode::Number(x) => serde_json::from_str(x).unwrap(),
        JsonNode::Str(x) => serde_json::Value::String(x.clone()),
        JsonNode::Array(items) => serde_json::Value::Array(items.iter().map(from_node).collect()),
        JsonNode::Object(es) => serde_json::Value::Object(
            es.iter().map(|(k, v)| (k.clone(), from_node(v))).collect(),
        ),
    }
}

#[test]
fn test_id_to_pointer() {
    assert_eq!(id_to_pointer("json.app.title"), "/app/title");
    assert_eq!(
        id_to_pointer("json.messages.greeting"),
        "/messages/greeting"
    );
    assert_eq!(id_to_pointer("json.status[0]"), "/status/0");
    assert_eq!(id_to_pointer("json.items[2].name"), "/items/2/name");
}

#[test]
fn test_apply_translations() {
    let mut value = obj(vec![
        (
            "app",
            obj(vec![
                ("title", s("Welcome")),
                ("subtitle", s("Your tool")),
                ("count", JsonNode::Number("42".to_string())),
            ]),
        ),
        ("messages", obj(vec![("greeting", s("Hello"))])),
        ("items", JsonNode::Array(vec![s("a"), s("b"), s("c")])),
    ]);
    let translations = vec![
        tr("json.app.title", "Bienvenue"),
        tr("json.messages.greeting", "Bonjour"),
        tr("json.items[2]", "C"),
    ];
    let missing = apply_translations(&mut value, &translations, false);
    assert!(missing.is_empty());
    assert_eq!(str_of(get(get(&value, "app"), "title")), "Bienvenue");
    assert_eq!(str_of(get(get(&value, "app"), "subtitle")), "Your tool");
    match get(get(&value, "app"), "count") {
        JsonNode::Number(n) => assert_eq!(n, "42"),
        _ => panic!("count changed"),
    }
    assert_eq!(str_of(get(get(&value, "messages"), "greeting")), "Bonjour");
    assert_eq!(str_of(at(get(&value, "items"), 2)), "C");
}

#[test]
fn pointer_escapes_round_trip() {
    assert_eq!(escape_pointer("a/b~c"), "a~1b~0c");
    assert_eq!(id_to_pointer("json.a/b.c~d"), "/a~1b/c~0d");
    assert_eq!(pointer_segments("/a~1b/c~0d"), vec!["a/b", "c~d"]);
    assert_eq!(pointer_segments("/x~01"), vec!["x~1"]);
    assert_eq!(pointer_segments(""), Vec::<String>::new());
    assert_eq!(pointer_segments("/"), vec![""]);
    assert_eq!(id_to_pointer("nodot"), "/nodot");
    assert_eq!(id_to_pointer("json.a..b"), "/a/b");
    assert_eq!(id_to_pointer("json.a[1"), "/a/1");
}

#[test]
fn json_extraction_trims_and_skips_hidden_keys() {
    let root = obj(vec![
        ("_comment", s("not for translation")),
        ("title", s("  Hello  ")),
        ("blank", s("   ")),
        ("list", JsonNode::Array(vec![s("one"), JsonNode::Bool(true), s("two")])),
    ]);
    let strings = JsonHandler::new().extract_tree(&root);
    let ids: Vec<&str> = strings.iter().map(|x| x.id.as_str()).collect();
    assert_eq!(ids, vec!["json.title", "json.list[0]", "json.list[2]"]);
    assert_eq!(strings[0].text, "Hello");
    assert_eq!(strings[0]._context.as_deref(), Some("JSON string value"));
}

#[test]
fn toml_extraction_keeps_text_as_is() {
    let root = obj(vec![("title", s("  Hello  ")), ("blank", s(" "))]);
    let strings = TomlHandler::new().extract_tree(&root);
    assert_eq!(strings.len(), 1);
    assert_eq!(strings[0].id, "toml.title");
    assert_eq!(strings[0].text, "  Hello  ");
    assert_eq!(strings[0]._context.as_deref(), Some("TOML string value"));
}

#[test]
fn lenient_and_strict_indices() {
    let mut a = obj(vec![("l", JsonNode::Array(vec![s("x"), s("y")]))]);
    let missing = apply_translations(&mut a, &[tr("json.l[+1]", "Y"), tr("json.l[00]", "X")], false);
    assert!(missing.is_empty());
    assert_eq!(str_of(at(get(&a, "l"), 1)), "Y");
    assert_eq!(str_of(at(get(&a, "l"), 0)), "X");
    let mut b = obj(vec![("l", JsonNode::Array(vec![s("x"), s("y")]))]);
    let missing = apply_translations(&mut b, &[tr("toml.l[+1]", "Y"), tr("toml.l[00]", "X")], true);
    assert_eq!(missing, vec!["toml.l[+1]".to_string(), "toml.l[00]".to_string()]);
    assert_eq!(str_of(at(get(&b, "l"), 1)), "y");
}

#[test]
fn unmatched_translations_change_nothing() {
    let mut v = obj(vec![("a", s("A")), ("n", JsonNode::Number("1".to_string()))]);
    let missing = YamlHandler::new().reconstruct_tree(
        &mut v,
        &[tr("yaml.zz", "Z"), tr("yaml.a.b", "B"), tr("yaml.zz", "Z2")],
    );
    assert_eq!(missing, vec!["yaml.a.b".to_string(), "yaml.zz".to_string()]);
    assert_eq!(str_of(get(&v, "a")), "A");
    // a path to something other than a string is found, but nothing changes
    let missing = YamlHandler::new().reconstruct_tree(&mut v, &[tr("yaml.n", "one")]);
    assert!(missing.is_empty());
    match get(&v, "n") {
        JsonNode::Number(n) => assert_eq!(n, "1"),
        _ => panic!("number replaced"),
    }
}

#[test]
fn identity_translations_round_trip() {
    let root = obj(vec![
        ("app", obj(vec![("title", s(" Spaced ")), ("tags", JsonNode::Array(vec![s("x"), s("y")]))])),
        ("path/with~chars", s("Esc")),
    ]);
    let strings = TomlHandler::new().extract_tree(&root);
    let translations: Vec<TranslatedString> =
        strings.iter().map(|x| tr(&x.id, &x.text)).collect();
    let mut copy = to_node(&from_node(&root));
    let missing = TomlHandler::new().reconstruct_tree(&mut copy, &translations);
    assert!(missing.is_empty());
    assert_eq!(from_node(&copy), from_node(&root));
}

#[test]
fn tree_strings_with_any_prefix() {
    let root = JsonNode::Array(vec![s("a"), obj(vec![("k", s("b"))])]);
    let strings = tree_strings(&root, "doc", "ctx", false);
    let ids: Vec<&str> = strings.iter().map(|x| x.id.as_str()).collect();
    assert_eq!(ids, vec!["doc[0]", "doc[1].k"]);
}

#[test]
fn test_toml_extract() {
    let toml_str = r#"
[app]
title = "Welcome"
count = 42

[messages]
greeting = "Hello"
"#;
    let strings = TomlHandler::new().extract(toml_str).unwrap();
    assert_eq!(strings.len(), 2);
    assert!(strings.iter().any(|x| x.id == "toml.app.title"));
    assert!(strings.iter().any(|x| x.id == "toml.messages.greeting"));
}

#[test]
fn test_toml_reconstruct() {
    let toml_str = r#"[app]
title = "Welcome"

[messages]
greeting = "Hello"
"#;
    let translations = vec![
        tr("toml.app.title", "Bienvenue"),
        tr("toml.messages.greeting", "Bonjour"),
    ];
    let (result, missing) = TomlHandler::new().reconstruct(toml_str, &translations).unwrap();
    assert!(missing.is_empty());
    assert!(result.contains("Bienvenue"));
    assert!(result.contains("Bonjour"));
    assert!(result.contains("greeting"));
}

#[test]
fn test_yaml_extract() {
    let yaml_str = r#"
app:
  title: "Welcome"
  count: 42

messages:
  greeting: "Hello"
"#;
    let strings = YamlHandler::new().extract(yaml_str).unwrap();
    assert_eq!(strings.len(), 2);
    assert!(strings.iter().any(|x| x.id == "yaml.app.title"));
    assert!(strings.iter().any(|x| x.id == "yaml.messages.greeting"));
}

#[test]
fn test_yaml_reconstruct() {
    let yaml_str = r#"
app:
  title: "Welcome"
messages:
  greeting: "Hello"
"#;
    let translations = vec![
        tr("yaml.app.title", "Bienvenue"),
        tr("yaml.messages.greeting", "Bonjour"),
    ];
    let (result, _missing) = YamlHandler::new().reconstruct(yaml_str, &translations).unwrap();
    assert!(result.contains("Bienvenue"));
    assert!(result.contains("Bonjour"));
}

#[test]
fn translations_read_back_and_others_kept() {
    let mut v = obj(vec![
        ("menu", obj(vec![("open", s("Open")), ("close", s("Close"))])),
        ("items", JsonNode::Array(vec![s("one"), s("two"), s("three")])),
        ("title", s("Title")),
    ]);
    let missing = apply_translations(
        &mut v,
        &[tr("json.menu.close", "Schließen"), tr("json.items[2]", "drei"), tr("json.title", "Titel")],
        true,
    );
    assert!(missing.is_empty());
    assert_eq!(str_of(get(get(&v, "menu"), "close")), "Schließen");
    assert_eq!(str_of(at(get(&v, "items"), 2)), "drei");
    assert_eq!(str_of(get(&v, "title")), "Titel");
    assert_eq!(str_of(get(get(&v, "menu"), "open")), "Open");
    assert_eq!(str_of(at(get(&v, "items"), 0)), "one");
    assert_eq!(str_of(at(get(&v, "items"), 1)), "two");
}

#[test]
fn extracted_translations_read_back() {
    let make = || {
        obj(vec![
            ("app", obj(vec![("title", s("Hello")), ("tags", JsonNode::Array(vec![s("x"), s("y")]))])),
            ("footer", s("Bye")),
        ])
    };
    let root = make();
    let strings = JsonHandler::new().extract_tree(&root);
    let translations: Vec<TranslatedString> =
        strings.iter().map(|x| tr(&x.id, &format!("<{}>", x.text))).collect();
    let mut copy = make();
    let missing = JsonHandler::new().reconstruct_tree(&mut copy, &translations);
    assert!(missing.is_empty());
    let again = JsonHandler::new().extract_tree(&copy);
    let pairs: Vec<(String, String)> = again.iter().map(|x| (x.id.clone(), x.text.clone())).collect();
    let expected: Vec<(String, String)> =
        translations.iter().map(|t| (t.id.clone(), t.translated_text.clone())).collect();
    assert_eq!(pairs, expected);
}

#[test]
fn translations_keep_structure() {
    let mut v = obj(vec![
        ("name", s("Name")),
        ("count", JsonNode::Number("3".to_string())),
        ("on", JsonNode::Bool(true)),
        ("none", JsonNode::Null),
        ("list", JsonNode::Array(vec![s("a"), JsonNode::Number("7".to_string())])),
    ]);
    let missing = apply_translations(
        &mut v,
        &[tr("json.name", "Nom"), tr("json.list[0]", "A"), tr("json.count", "trois")],
        true,
    );
    assert!(missing.is_empty());
    match &v {
        JsonNode::Object(es) => {
            let keys: Vec<&str> = es.iter().map(|(k, _)| k.as_str()).collect();
            assert_eq!(keys, vec!["name", "count", "on", "none", "list"]);
        }
        _ => panic!("not an object"),
    }
    assert_eq!(str_of(get(&v, "name")), "Nom");
    match get(&v, "count") {
        JsonNode::Number(n) => assert_eq!(n, "3"),
        _ => panic!("number replaced"),
    }
    assert!(matches!(get(&v, "on"), JsonNode::Bool(true)));
    assert!(matches!(get(&v, "none"), JsonNode::Null));
    assert_eq!(str_of(at(get(&v, "list"), 0)), "A");
    match at(get(&v, "list"), 1) {
        JsonNode::Number(n) => assert_eq!(n, "7"),
        _ => panic!("number replaced"),
    }
}

#[test]
fn escaped_key_splits_back() {
    for k in ["a/b~c", "~~//", "", "plain"] {
        let p = format!("/{}", escape_pointer(k));
        assert_eq!(pointer_segments(&p), vec![k.to_string()]);
    }
    assert_eq!(id_to_pointer("json.x~y"), format!("/{}", escape_pointer("x~y")));
}

#[test]
fn json_text_extract_and_reconstruct() {
    let doc = r#"{"app": {"title": " Hello ", "n": 3}, "_hidden": "x", "list": ["a", "b"]}"#;
    let strings = JsonHandler::new().extract(doc).unwrap();
    let pairs: Vec<(&str, &str)> = strings.iter().map(|x| (x.id.as_str(), x.text.as_str())).collect();
    assert_eq!(pairs, vec![("json.app.title", "Hello"), ("json.list[0]", "a"), ("json.list[1]", "b")]);
    let (text, missing) = JsonHandler::new()
        .reconstruct(doc, &[tr("json.list[1]", "B"), tr("json.nowhere", "z")])
        .unwrap();
    assert_eq!(missing, vec!["json.nowhere".to_string()]);
    let back: serde_json::Value = serde_json::from_str(&text).unwrap();
    assert_eq!(back["list"][1], "B");
    assert_eq!(back["app"]["n"], 3);
    match JsonHandler::new().extract("{not json") {
        Err(ZelligError::ConfigError(_)) => {}
        other => panic!("unexpected {:?}", other),
    }
    match TomlHandler::new().reconstruct("= broken", &[]) {
        Err(ZelligError::ConfigError(_)) => {}
        other => panic!("unexpected {:?}", other),
    }
}

#[test]
fn json_reconstruct_keeps_key_order_and_escapes() {
    let doc = "{\"b\": \"x\", \"a\": {\"z\": 1.5, \"y\": \"q\"}, \"c\": [true, null]}";
    let (text, missing) = JsonHandler::new()
        .reconstruct(doc, &[tr("json.b", "say \"hi\"\n")])
        .unwrap();
    assert!(missing.is_empty());
    assert!(text.find("\"b\"").unwrap() < text.find("\"a\"").unwrap());
    assert!(text.find("\"a\"").unwrap() < text.find("\"c\"").unwrap());
    assert!(text.find("\"z\"").unwrap() < text.find("\"y\"").unwrap());
    let back: serde_json::Value = serde_json::from_str(&text).unwrap();
    assert_eq!(back["b"], "say \"hi\"\n");
    assert_eq!(back["a"]["z"], 1.5);
    assert_eq!(back["c"][0], true);
    assert!(back["c"][1].is_null());
}

#[test]
fn compact_json_writes_each_kind() {
    let doc = obj(vec![
        ("k", s("a\"\\\u{1}")),
        ("n", JsonNode::Number("12".to_string())),
        ("l", JsonNode::Array(vec![JsonNode::Bool(false), JsonNode::Null])),
        ("e", obj(vec![])),
    ]);
    assert_eq!(compact_json(&doc), "{\"k\":\"a\\\"\\\\\\u0001\",\"n\":12,\"l\":[false,null],\"e\":{}}");
}

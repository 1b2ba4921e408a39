use zellig::formats::markdown::MarkdownHandler;
use zellig::formats::po::PoHandler;
use zellig::formats::xliff::XliffHandler;
use zellig::formats::{detect_format, FormatKind, FormatRegistry, TranslatedString};

fn tr(id: &str, text: &str) -> TranslatedString {
    TranslatedString {
        id: id.to_string(),
        translated_text: text.to_string(),
    }
}

#[test]
fn test_po_extract_from_msgstr() {
    let po = r#"msgid ""
msgstr ""

msgid "app.title"
msgstr "Welcome to Zellig"

msgid "messages.greeting"
msgid_plural "messages"
msgstr[0] "Hello"
msgstr[1] "Hellos"
"#;
    let handler = PoHandler::new();
    let strings = handler.extract(po).unwrap();
    assert_eq!(strings.len(), 3);
    assert_eq!(strings[0].text, "Welcome to Zellig");
    assert_eq!(strings[0].id, "po.0");
    assert_eq!(strings[1].text, "Hello");
    assert_eq!(strings[1].id, "po.1");
    assert_eq!(strings[2].text, "Hellos");
    assert_eq!(strings[2].id, "po.2");
}

#[test]
fn test_po_reconstruct_plural() {
    let po = r#"msgid "app.title"
msgstr "Welcome to Zellig"

msgid "messages.greeting"
msgid_plural "messages"
msgstr[0] "Hello"
msgstr[1] "Hellos"
"#;
    let handler = PoHandler::new();
    let translations = vec![
        tr("po.0", "Bienvenue sur Zellig"),
        tr("po.1", "Bonjour"),
        tr("po.2", "Bonjours"),
    ];
    let result = handler.reconstruct(po, &translations).unwrap();
    assert!(result.contains(r#"msgstr "Bienvenue sur Zellig""#));
    assert!(result.contains(r#"msgstr[0] "Bonjour""#));
    assert!(result.contains(r#"msgstr[1] "Bonjours""#));
    assert!(result.contains(r#"msgid "app.title""#));
    assert!(result.contains(r#"msgid_plural "messages""#));
}

#[test]
fn test_po_skips_empty_header() {
    let po = r#"msgid ""
msgstr ""

msgid "hello"
msgstr "Hello"
"#;
    let handler = PoHandler::new();
    let strings = handler.extract(po).unwrap();
    assert_eq!(strings.len(), 1);
    assert_eq!(strings[0].text, "Hello");
    assert_eq!(strings[0].id, "po.0");
}

#[test]
fn po_context_is_set() {
    let strings = PoHandler::new().extract("msgstr \"Hi\"\n").unwrap();
    assert_eq!(strings[0]._context.as_deref(), Some("PO msgstr text"));
}

#[test]
fn po_identity_translations_keep_file() {
    let po = "msgid \"a\"\nmsgstr \"Alpha\"\n\nmsgid \"b\"\nmsgstr \"Beta\"\n";
    let handler = PoHandler::new();
    let strings = handler.extract(po).unwrap();
    let translations: Vec<TranslatedString> =
        strings.iter().map(|s| tr(&s.id, &s.text)).collect();
    assert_eq!(handler.reconstruct(po, &translations).unwrap(), po);
}

#[test]
fn po_translations_read_back() {
    let po = "# note\nmsgid \"a\"\nmsgstr \"Alpha\"\r\n\nmsgid \"b\"\nmsgstr \"Beta\"  \nmsgstr \"Gamma\"\n";
    let handler = PoHandler::new();
    let rebuilt = handler
        .reconstruct(po, &[tr("po.0", "Älpha \"quoted\""), tr("po.2", "G")])
        .unwrap();
    let strings = handler.extract(&rebuilt).unwrap();
    let pairs: Vec<(&str, &str)> = strings.iter().map(|s| (s.id.as_str(), s.text.as_str())).collect();
    assert_eq!(
        pairs,
        vec![("po.0", "Älpha \"quoted\""), ("po.1", "Beta"), ("po.2", "G")]
    );
}

#[test]
fn po_unknown_ids_change_nothing() {
    let po = "msgid \"a\"\nmsgstr \"Alpha\"\n";
    let result = PoHandler::new()
        .reconstruct(po, &[tr("po.7", "x"), tr("other", "y")])
        .unwrap();
    assert_eq!(result, po);
}

#[test]
fn po_last_translation_wins() {
    let po = "msgstr \"Alpha\"\n";
    let result = PoHandler::new()
        .reconstruct(po, &[tr("po.0", "first"), tr("po.0", "second")])
        .unwrap();
    assert_eq!(result, "msgstr \"second\"\n");
}

#[test]
fn test_markdown_extract() {
    let md = r#"# Welcome

Hello world.

- item one
- item two

> A quote
"#;
    let handler = MarkdownHandler::new();
    let strings = handler.extract(md).unwrap();
    assert!(strings.iter().any(|s| s.id.starts_with("md.h1.")));
    assert!(strings.iter().any(|s| s.id.starts_with("md.p.")));
    assert!(strings.iter().any(|s| s.id.starts_with("md.li.")));
    assert!(strings.iter().any(|s| s.id.starts_with("md.blockquote.")));
}

#[test]
fn test_markdown_reconstruct() {
    let md = "# Welcome\n\nHello world.\n";
    let handler = MarkdownHandler::new();
    let translations = vec![
        tr("md.h1.0", "Bienvenue"),
        tr("md.p.0", "Bonjour le monde."),
    ];
    let result = handler.reconstruct(md, &translations).unwrap();
    assert_eq!(result, "# Bienvenue\n\nBonjour le monde.\n");
}

#[test]
fn markdown_code_blocks_are_kept() {
    let md = "Intro text.\n\n```\nlet x = 1;\n```\n";
    let strings = MarkdownHandler::new().extract(md).unwrap();
    assert!(strings.iter().all(|s| !s.text.contains("let x")));
}

#[test]
fn markdown_unknown_ids_change_nothing() {
    let md = "# Title\n\nText here.\n";
    let result = MarkdownHandler::new()
        .reconstruct(md, &[tr("md.h9.3", "x")])
        .unwrap();
    assert_eq!(result, md);
}

const XLIFF_EMPTY_TARGET: &str = r#"<?xml version="1.0" encoding="UTF-8"?>
<xliff version="1.2" xmlns="urn:oasis:names:tc:xliff:document:1.2">
  <file source-language="en" target-language="fr" datatype="plaintext">
    <body>
      <trans-unit id="1">
        <source>Welcome</source>
        <target/>
      </trans-unit>
    </body>
  </file>
</xliff>"#;

#[test]
fn test_xliff_extract() {
    let handler = XliffHandler::new();
    let strings = handler.extract(XLIFF_EMPTY_TARGET).unwrap();
    assert_eq!(strings.len(), 1);
    assert_eq!(strings[0].id, "xliff.1");
    assert_eq!(strings[0].text, "Welcome");
}

#[test]
fn test_xliff_reconstruct_self_closing() {
    let handler = XliffHandler::new();
    let translations = vec![tr("xliff.1", "Bonjour")];
    let result = handler
        .reconstruct(XLIFF_EMPTY_TARGET, &translations)
        .unwrap();
    assert!(result.contains("<target>Bonjour</target>"));
}

#[test]
fn test_xliff_reconstruct_existing_target() {
    let xliff = r#"<?xml version="1.0" encoding="UTF-8"?>
<xliff version="1.2" xmlns="urn:oasis:names:tc:xliff:document:1.2">
  <file source-language="en" target-language="fr" datatype="plaintext">
    <body>
      <trans-unit id="1">
        <source>Welcome</source>
        <target>Old</target>
      </trans-unit>
    </body>
  </file>
</xliff>"#;
    let handler = XliffHandler::new();
    let translations = vec![tr("xliff.1", "Bonjour")];
    let result = handler.reconstruct(xliff, &translations).unwrap();
    assert!(result.contains("<target>Bonjour</target>"));
    assert!(!result.contains("<target>Old</target>"));
}

#[test]
fn xliff_without_translations_is_unchanged() {
    let result = XliffHandler::new()
        .reconstruct(XLIFF_EMPTY_TARGET, &[])
        .unwrap();
    assert_eq!(result, XLIFF_EMPTY_TARGET);
}

#[test]
fn xliff_id_without_prefix_also_matches() {
    let result = XliffHandler::new()
        .reconstruct(XLIFF_EMPTY_TARGET, &[tr("1", "Salut")])
        .unwrap();
    assert!(result.contains("<target>Salut</target>"));
}

#[test]
fn xliff_parse_error_is_reported() {
    let err = XliffHandler::new().extract("<a><source>x</b>").unwrap_err();
    assert!(err.message().contains("XLIFF parse error: "));
}

#[test]
fn xliff_source_text_is_trimmed() {
    let x = "<trans-unit id=\"k\"><source>  Hi there \n</source></trans-unit>";
    let strings = XliffHandler::new().extract(x).unwrap();
    assert_eq!(strings.len(), 1);
    assert_eq!(strings[0].id, "xliff.k");
    assert_eq!(strings[0].text, "Hi there");
    assert_eq!(strings[0]._context.as_deref(), Some("XLIFF source text"));
}

#[test]
fn xliff_tag_local_name() {
    assert_eq!(zellig::formats::xliff::tag_local("{urn:x}target"), "target");
    assert_eq!(zellig::formats::xliff::tag_local("source"), "source");
    assert_eq!(zellig::formats::xliff::tag_local("a}b}c"), "c");
}

#[test]
fn registry_finds_handlers_by_extension() {
    let reg = FormatRegistry::new();
    assert_eq!(reg.get_handler("a/b.JSON"), Some(FormatKind::Json));
    assert_eq!(reg.get_handler("x.yml"), Some(FormatKind::Yaml));
    assert_eq!(reg.get_handler("x.yaml"), Some(FormatKind::Yaml));
    assert_eq!(reg.get_handler("x.toml"), Some(FormatKind::Toml));
    assert_eq!(reg.get_handler("README.md"), Some(FormatKind::Markdown));
    assert_eq!(reg.get_handler("x.markdown"), Some(FormatKind::Markdown));
    assert_eq!(reg.get_handler("fr.po"), Some(FormatKind::Po));
    assert_eq!(reg.get_handler("x.xlf"), Some(FormatKind::Xliff));
    assert_eq!(reg.get_handler("x.xliff"), Some(FormatKind::Xliff));
    assert_eq!(reg.get_handler("x.txt"), None);
    assert_eq!(reg.get_handler("Makefile"), None);
    assert_eq!(detect_format(".json"), None);
    assert_eq!(detect_format("dir/data.Po"), Some(FormatKind::Po));
}

#[test]
fn markdown_identity_translations_keep_file() {
    let md = "# Title\n\nFirst line\nsecond line\n\n- one\n- two\n\n> quoted\n";
    let handler = MarkdownHandler::new();
    let strings = handler.extract(md).unwrap();
    assert_eq!(strings.len(), 5);
    let translations: Vec<TranslatedString> =
        strings.iter().map(|s| tr(&s.id, &s.text)).collect();
    assert_eq!(handler.reconstruct(md, &translations).unwrap(), md);
}

#[test]
fn markdown_indented_heading_keeps_its_marker() {
    let handler = MarkdownHandler::new();
    let result = handler.reconstruct("  # Hi\n", &[tr("md.h1.0", "Salut")]).unwrap();
    assert_eq!(result, "  # Salut\n");
    let result = handler.reconstruct("   - item\n", &[tr("md.li.0", "Punkt")]).unwrap();
    assert_eq!(result, "   - Punkt\n");
}

#[test]
fn xliff_translation_is_escaped() {
    let result = XliffHandler::new()
        .reconstruct(XLIFF_EMPTY_TARGET, &[tr("xliff.1", "A & B < C > D")])
        .unwrap();
    assert!(result.contains("<target>A &amp; B &lt; C &gt; D</target>"));
    let again = XliffHandler::new().extract(&result);
    assert!(again.is_ok());
}

#[test]
fn markdown_ids_distinct_and_plain_round_trip() {
    let md = "# A\n\nPara one\nstill one\n\n- item\n- item\n> quote\n## B\n";
    let handler = MarkdownHandler::new();
    let strings = handler.extract(md).unwrap();
    let mut ids: Vec<&str> = strings.iter().map(|s| s.id.as_str()).collect();
    let n = ids.len();
    ids.sort();
    ids.dedup();
    assert_eq!(ids.len(), n);
    let translations: Vec<TranslatedString> = strings.iter().map(|s| tr(&s.id, &s.text)).collect();
    assert_eq!(handler.reconstruct(md, &translations).unwrap(), md);
}

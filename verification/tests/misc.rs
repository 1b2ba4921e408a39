use zellig::cli::{
    batch_output_text, batch_texts, choose_targets, input_texts, make_output_path,
    missing_input_message, pair_translations, supported_files, translate_job, unsupported_format,
    TranslateJob,
};
use zellig::config::{
    default_beam_size, default_bergamot_url, default_compute_type, default_device,
    default_libre_url, default_lingva_url, default_max_decoding_length, default_model,
    default_model_format, default_model_repo, default_no_repeat_ngram_size, default_num_threads,
    default_provider, default_qq_region, default_source_lang, generate_example_config, AiConfig,
    TranslationConfig, TranslationMode, EXAMPLE_CONFIG,
};
use zellig::error::ZelligError;
use zellig::formats::{detect_format, FormatKind, FormatRegistry};
use zellig::language_detector::{detection_outcome, WhatLangDetector};
use zellig::manager::{
    display_model_id, effective_search, model_dir_name, model_marker, parse_model_dir,
    resolve_config_path, set_model_in_config_text, set_model_in_doc, ModelMarker, ModelPager,
};
use zellig::formats::tree::JsonNode;
use zellig::output::{bold, dim, downloads_scale, footer, green, header, red, DownloadsScale};
use zellig::stats::TranslationStats;
use zellig::translator::azure::{azure_batch_outcome, azure_outcome};
use zellig::translator::TranslatorFactory;
use zellig::config::Config;

#[test]
fn mode_names_and_limits() {
    assert_eq!(TranslationMode::Local.display_name(), "Local (CT2)");
    assert_eq!(TranslationMode::Qq.display_name(), "QQ Fanyi");
    assert_eq!(TranslationMode::Google.display_section_name(), "");
    assert_eq!(TranslationMode::Ai.display_section_name(), "AI Settings");
    assert!(TranslationMode::DeepL.needs_key());
    assert!(!TranslationMode::Lingva.needs_key());
    assert_eq!(TranslationMode::DeepL.char_limit(), Some(131_072));
    assert_eq!(TranslationMode::Baidu.char_limit(), Some(2_000));
    assert_eq!(TranslationMode::Ai.char_limit(), None);
    let all = TranslationMode::all();
    assert_eq!(all.len(), 12);
    assert_eq!(all[0], TranslationMode::Local);
    assert_eq!(all[11], TranslationMode::Lingva);
    assert_eq!(TranslationMode::default(), TranslationMode::Local);
}

#[test]
fn config_defaults() {
    assert_eq!(default_provider(), "ollama");
    assert_eq!(default_model(), "qwen2.5-coder:7b");
    assert_eq!(default_model_format(), "ct2");
    assert!(!default_model_repo().is_empty());
    assert!(!default_compute_type().is_empty());
    assert!(!default_device().is_empty());
    assert_eq!(default_beam_size(), 4);
    assert_eq!(default_max_decoding_length(), 512);
    assert_eq!(default_num_threads(), 0);
    assert_eq!(default_no_repeat_ngram_size(), 0);
    assert_eq!(default_libre_url(), "https://libretranslate.com");
    assert_eq!(default_bergamot_url(), "http://localhost:8080");
    assert_eq!(default_qq_region(), "ap-beijing");
    assert_eq!(default_lingva_url(), "https://lingva.ml");
    assert_eq!(default_source_lang(), "en");
    let ai = AiConfig::default();
    assert_eq!(ai.provider, "ollama");
    assert!(ai.api_key.is_none());
    let t = TranslationConfig::default();
    assert_eq!(t.default_target_langs, vec!["fr".to_string(), "de".to_string()]);
    assert_eq!(generate_example_config(), EXAMPLE_CONFIG);
    assert!(EXAMPLE_CONFIG.contains("[translation]"));
}

#[test]
fn styling() {
    assert_eq!(green("ok"), "\x1b[32mok\x1b[0m");
    assert_eq!(dim("x"), "\x1b[2mx\x1b[0m");
    assert_eq!(bold("x"), "\x1b[1mx\x1b[0m");
    assert_eq!(red("x"), "\x1b[31mx\x1b[0m");
    assert_eq!(footer(), format!(" {}", "─".repeat(50)));
    assert_eq!(header("fr"), format!(" {} {}", bold("fr"), "─".repeat(44)));
    assert_eq!(header(&"x".repeat(60)), format!(" {} ", bold(&"x".repeat(60))));
    assert_eq!(downloads_scale(999), DownloadsScale::Units);
    assert_eq!(downloads_scale(1_000), DownloadsScale::Thousands);
    assert_eq!(downloads_scale(2_500_000), DownloadsScale::Millions);
}

#[test]
fn stats_counts_and_report() {
    let mut s = TranslationStats::new("fr".to_string(), 3);
    s.record_ok(std::time::Duration::from_millis(10));
    s.record_ok_batch(1);
    s.record_fail();
    assert_eq!(s.succeeded(), 2);
    assert_eq!(s.failed(), 1);
    assert_eq!(s.total(), 3);
    assert_eq!(s.durations().len(), 1);
    assert_eq!(
        s.report_with("1.50s", "0.01s"),
        "── fr ──\n  3 strings in 1.50s (avg 0.01s, 2 ok, 1 failed)"
    );
    let one = TranslationStats::new("de".to_string(), 1);
    assert_eq!(one.report_with("0.00s", "0.50s"), "── de ──\n  1 string in 0.00s (avg -, 0 ok)");
}

#[test]
fn output_paths() {
    assert_eq!(make_output_path("README.md", "fr"), "README.fr.md");
    assert_eq!(make_output_path("locales/en.json", "de"), "locales/en.de.json");
    assert_eq!(make_output_path("LICENSE", "fr"), "LICENSE.fr");
}

#[test]
fn targets_and_jobs() {
    let defaults = vec!["fr".to_string(), "de".to_string()];
    assert_eq!(choose_targets(vec![], &defaults), defaults);
    assert_eq!(choose_targets(vec!["es".to_string()], &defaults), vec!["es".to_string()]);
    let j = translate_job(Some("t".into()), Some("f".into()), Some("d".into()));
    assert!(matches!(j, TranslateJob::Dir(d) if d == "d"));
    let j = translate_job(Some("t".into()), Some("f".into()), None);
    assert!(matches!(j, TranslateJob::File(f) if f == "f"));
    let j = translate_job(Some("t".into()), None, None);
    assert!(matches!(j, TranslateJob::Text(t) if t == "t"));
    assert!(matches!(translate_job(None, None, None), TranslateJob::Missing));
    assert_eq!(missing_input_message(), "Provide text, --input <file>, or --dir <directory>");
    match unsupported_format("a.txt") {
        ZelligError::ConfigError(m) => assert_eq!(m, "Unsupported file format: a.txt"),
        other => panic!("unexpected {:?}", other),
    }
}

#[test]
fn batch_input_and_output() {
    assert_eq!(
        input_texts("  Hello \n\n\tWorld\r\n   \nlast"),
        vec!["Hello".to_string(), "World".to_string(), "last".to_string()]
    );
    assert_eq!(batch_texts("a\nb").unwrap(), vec!["a".to_string(), "b".to_string()]);
    match batch_texts(" \n \n").unwrap_err() {
        ZelligError::ConfigError(m) => assert_eq!(m, "No texts found in input file"),
        other => panic!("unexpected {:?}", other),
    }
    assert_eq!(
        batch_output_text("fr", &["Bonjour".to_string(), "Monde".to_string()]),
        "[fr] Bonjour\n[fr] Monde\n"
    );
    assert_eq!(batch_output_text("fr", &[]), "");
}

#[test]
fn directory_files_and_pairs() {
    let files = supported_files(vec![
        "d/b.json".to_string(),
        "d/notes.txt".to_string(),
        "d/a.PO".to_string(),
        "d/c".to_string(),
    ]);
    assert_eq!(files, vec!["d/a.PO".to_string(), "d/b.json".to_string()]);
    let ids = vec!["a".to_string(), "b".to_string(), "c".to_string()];
    let pairs = pair_translations(&ids, vec!["A".to_string(), "B".to_string()]);
    assert_eq!(pairs.len(), 2);
    assert_eq!(pairs[1].id, "b");
    assert_eq!(pairs[1].translated_text, "B");
}

#[test]
fn formats_by_extension() {
    assert_eq!(detect_format("x.json"), Some(FormatKind::Json));
    assert_eq!(detect_format("x.YML"), Some(FormatKind::Yaml));
    assert_eq!(detect_format("x.markdown"), Some(FormatKind::Markdown));
    assert_eq!(detect_format("x.xlf"), Some(FormatKind::Xliff));
    assert_eq!(detect_format("x.toml"), Some(FormatKind::Toml));
    assert_eq!(detect_format("x.po"), Some(FormatKind::Po));
    assert_eq!(detect_format("x.txt"), None);
    assert_eq!(detect_format("json"), None);
    assert_eq!(FormatRegistry::new().get_handler("a/b.md"), Some(FormatKind::Markdown));
}

#[test]
fn model_directories() {
    assert_eq!(model_dir_name("org/model-name"), "models--org--model-name");
    assert_eq!(parse_model_dir("models--org--model-name"), Some("org/model-name".to_string()));
    assert_eq!(parse_model_dir("datasets--org--x"), None);
    let repo = "OpenNMT/nllb-200-distilled-600M-ct2-int8";
    assert_eq!(parse_model_dir(&model_dir_name(repo)), Some(repo.to_string()));
}

#[test]
fn config_path_and_search() {
    assert_eq!(resolve_config_path(Some("my.toml"), true, true), "my.toml");
    assert_eq!(resolve_config_path(None, true, true), "zellig.toml");
    assert_eq!(resolve_config_path(None, false, true), "zelling.toml");
    assert_eq!(resolve_config_path(None, false, false), "zellig.toml");
    assert_eq!(effective_search(""), "ct2");
    assert_eq!(effective_search("opus"), "opus");
}

#[test]
fn pager_skips_duplicates_and_stops() {
    let mut p = ModelPager::new();
    assert_eq!(p.next_offset(), Some(0));
    let page: Vec<String> = (0..50).map(|i| format!("m{}", i % 49)).collect();
    let keep = p.add_page(&page);
    assert_eq!(keep.iter().filter(|k| **k).count(), 49);
    assert!(!keep[49]);
    assert_eq!(p.next_offset(), Some(50));
    let keep = p.add_page(&["m0".to_string(), "new".to_string()]);
    assert_eq!(keep, vec![false, true]);
    assert_eq!(p.next_offset(), None);
}

#[test]
fn model_listing() {
    let short = display_model_id("org/m");
    assert_eq!(short.chars().count(), 49);
    assert!(short.starts_with("org/m "));
    let long = "x".repeat(60);
    assert_eq!(display_model_id(&long), format!("{}..", "x".repeat(47)));
    assert_eq!(model_marker("a", "a", false), ModelMarker::Active);
    assert_eq!(model_marker("a", "b", true), ModelMarker::Installed);
    assert_eq!(model_marker("a", "b", false), ModelMarker::Plain);
}

#[test]
fn local_detection() {
    let d = WhatLangDetector::new();
    let info = d.detect("Das ist ein ziemlich langer deutscher Satz über das Wetter.").unwrap();
    assert_eq!(info.code, "deu");
    assert_eq!(info.name, "German");
    assert_eq!(info.script, "Latin");
    assert_eq!(info.info.lang().code(), "deu");
    match d.detect("1234 5678").unwrap_err() {
        ZelligError::DetectionError(m) => assert_eq!(m, "Could not detect language"),
        other => panic!("unexpected {:?}", other),
    }
}

#[test]
fn detection_outcomes() {
    match detection_outcome(None).unwrap_err() {
        ZelligError::DetectionError(m) => assert_eq!(m, "Could not detect language"),
        other => panic!("unexpected {:?}", other),
    }
    let text = "Ceci est une assez longue phrase en français sur la météo.";
    let found = WhatLangDetector::new().detect(text).unwrap();
    assert_eq!(found.code, "fra");
    let again = detection_outcome(Some(found)).unwrap();
    assert_eq!(again.code, "fra");
    assert_eq!(again.name, "French");
}

#[test]
fn azure_answers() {
    assert_eq!(azure_outcome(vec![vec!["Hallo".to_string()]]).unwrap(), "Hallo");
    match azure_outcome(vec![vec![]]).unwrap_err() {
        ZelligError::TranslationError(m) => assert_eq!(m, "invalid Azure response"),
        other => panic!("unexpected {:?}", other),
    }
    let v = azure_batch_outcome(vec![vec!["a".to_string(), "z".to_string()], vec!["b".to_string()]]);
    assert_eq!(v.unwrap(), vec!["a".to_string(), "b".to_string()]);
    match azure_batch_outcome(vec![vec!["a".to_string()], vec![]]).unwrap_err() {
        ZelligError::TranslationError(m) => assert_eq!(m, "missing translation"),
        other => panic!("unexpected {:?}", other),
    }
}

#[test]
fn factory_knows_every_service_but_the_local_one() {
    let mut f = TranslatorFactory::new();
    assert_eq!(f.creator_for(TranslationMode::Google).unwrap(), TranslationMode::Google);
    match f.creator_for(TranslationMode::Local).unwrap_err() {
        ZelligError::ConfigError(m) => {
            assert_eq!(m, "Local backend not available — binary compiled without 'local' feature")
        }
        other => panic!("unexpected {:?}", other),
    }
    f.register(TranslationMode::Local);
    assert_eq!(f.creator_for(TranslationMode::Local).unwrap(), TranslationMode::Local);
    let d = TranslatorFactory::default();
    assert!(d.creator_for(TranslationMode::Lingva).is_ok());
}

#[test]
fn settings_shown_per_service() {
    let mut c = Config::default();
    assert_eq!(
        TranslationMode::Local.display_settings(&c),
        vec![
            ("Model:  ", "JustFrederik/nllb-200-distilled-600M-ct2-int8"),
            ("Compute:", "INT8"),
            ("Device: ", "cpu"),
        ]
    );
    assert_eq!(TranslationMode::DeepL.display_settings(&c), vec![("API Key:", "not set")]);
    c.deepl.api_key = Some("k".to_string());
    assert_eq!(TranslationMode::DeepL.display_settings(&c), vec![("API Key:", "configured")]);
    c.yandex.folder_id = Some("folder".to_string());
    assert_eq!(
        TranslationMode::Yandex.display_settings(&c),
        vec![("API Key:   ", "not set"), ("Folder ID: ", "folder")]
    );
    assert_eq!(
        TranslationMode::LibreTranslate.display_settings(&c),
        vec![("URL:    ", "https://libretranslate.com"), ("API Key:", "none")]
    );
    assert_eq!(TranslationMode::Qq.display_settings(&c)[2], ("Region:    ", "ap-beijing"));
    assert!(TranslationMode::Google.display_settings(&c).is_empty());
    assert_eq!(c.mode, TranslationMode::Local);
}

fn entry_of<'a>(node: &'a JsonNode, key: &str) -> Option<&'a JsonNode> {
    match node {
        JsonNode::Object(es) => es.iter().find(|(k, _)| k == key).map(|(_, v)| v),
        _ => None,
    }
}

fn str_at(node: &JsonNode, path: &[&str]) -> Option<String> {
    let mut cur = node;
    for p in path {
        cur = entry_of(cur, p)?;
    }
    match cur {
        JsonNode::Str(s) => Some(s.clone()),
        _ => None,
    }
}

#[test]
fn model_recorded_in_configuration() {
    let empty = JsonNode::Object(vec![]);
    let doc = set_model_in_doc(empty, "org/m").unwrap();
    assert_eq!(str_at(&doc, &["local", "model_repo"]).as_deref(), Some("org/m"));
    assert_eq!(str_at(&doc, &["local", "model_format"]).as_deref(), Some("ct2"));
    let existing = JsonNode::Object(vec![
        ("mode".to_string(), JsonNode::Str("local".to_string())),
        (
            "local".to_string(),
            JsonNode::Object(vec![
                ("model_repo".to_string(), JsonNode::Str("old".to_string())),
                ("device".to_string(), JsonNode::Str("cpu".to_string())),
            ]),
        ),
    ]);
    let doc = set_model_in_doc(existing, "new/m").unwrap();
    assert_eq!(str_at(&doc, &["local", "model_repo"]).as_deref(), Some("new/m"));
    assert_eq!(str_at(&doc, &["local", "device"]).as_deref(), Some("cpu"));
    assert_eq!(str_at(&doc, &["mode"]).as_deref(), Some("local"));
    match entry_of(&doc, "local") {
        Some(JsonNode::Object(es)) => assert_eq!(es.len(), 3),
        _ => panic!("local is not a table"),
    }
    let odd = JsonNode::Object(vec![("local".to_string(), JsonNode::Bool(true))]);
    let doc = set_model_in_doc(odd, "x/y").unwrap();
    assert!(matches!(entry_of(&doc, "local"), Some(JsonNode::Bool(true))));
    match set_model_in_doc(JsonNode::Str("x".to_string()), "x/y").unwrap_err() {
        ZelligError::ConfigError(m) => assert_eq!(m, "config root is not a TOML table"),
        other => panic!("unexpected {:?}", other),
    }
}

#[test]
fn model_recorded_in_config_text() {
    let out = set_model_in_config_text("[translation]\ndefault_source_lang = \"en\"\n", "org/m").unwrap();
    let v: serde_json::Value = toml::from_str(&out).unwrap();
    assert_eq!(v["local"]["model_repo"], "org/m");
    assert_eq!(v["local"]["model_format"], "ct2");
    assert_eq!(v["translation"]["default_source_lang"], "en");
    let out = set_model_in_config_text("not = = toml", "a/b").unwrap();
    let v: serde_json::Value = toml::from_str(&out).unwrap();
    assert_eq!(v["local"]["model_repo"], "a/b");
}

#[test]
fn stats_report_counts_a_run_of_batches_and_failures() {
    let mut s = TranslationStats::new("it".to_string(), 5);
    s.record_ok_batch(3);
    s.record_fail();
    s.record_fail();
    assert_eq!(
        s.report_with("2.00s", "0.40s"),
        "── it ──\n  5 strings in 2.00s (avg -, 3 ok, 2 failed)"
    );
}

use zellig::config::{Config, TranslationConfig, TranslationMode};
use zellig::tui::{
    browse_item, config_lines, cursor_column, installed_item, join_comma, language_row, match_count,
    pad_right, picker_row, result_display, service_tone, spinner_frame, ServiceTone, Tone,
};
use zellig::tui::{
    completion_parts, confirm_step, contains_str, filter_languages, lang_code_display,
    lang_display_name, path_candidates, screen_for, screen_label, select_step, short_repo, Action,
    App, Focus, Key, LanguageEntry, ModelEntry, Outcome, Screen, SelectStep, Task,
};
use zellig::text::{sort_strings, str_lt};

fn entry(iso: &str, nllb: &str, english: &str, native: &str) -> LanguageEntry {
    LanguageEntry {
        iso: iso.to_string(),
        nllb: nllb.to_string(),
        english: english.to_string(),
        native: native.to_string(),
    }
}

fn catalog() -> Vec<LanguageEntry> {
    vec![
        entry("en", "eng_Latn", "English", "English"),
        entry("fr", "fra_Latn", "French", "Français"),
        entry("de", "deu_Latn", "German", "Deutsch"),
        entry("", "ace_Arab", "Acehnese (Arabic script)", "Acehnese"),
    ]
}

fn app() -> App {
    App::new(
        TranslationMode::Google,
        TranslationConfig::default(),
        "repo/model".to_string(),
        catalog(),
    )
}

fn press(a: &mut App, keys: &[Key]) -> Vec<Action> {
    keys.iter().map(|k| a.handle_key(*k)).collect()
}

fn type_text(a: &mut App, text: &str) {
    for c in text.chars() {
        a.handle_key(Key::Char(c));
    }
}

fn open_screen(a: &mut App, index: usize) {
    for _ in 0..index {
        a.handle_key(Key::Right);
    }
    a.handle_key(Key::Enter);
}

#[test]
fn app_starts_on_the_menu() {
    let a = app();
    assert_eq!(a.focus, Focus::Menu);
    assert_eq!(a.screen, Screen::Models);
    assert_eq!(a.input.source, "en");
    assert_eq!(a.input.target, "fr");
    assert_eq!(a.lang_filter_cache.len(), 4);
    assert!(!a.should_quit);
}

#[test]
fn menu_moves_within_the_tabs() {
    let mut a = app();
    press(&mut a, &[Key::Left, Key::Char('k')]);
    assert_eq!(a.menu_index, 0);
    press(&mut a, &[Key::Right; 10]);
    assert_eq!(a.menu_index, 5);
    a.handle_key(Key::Enter);
    assert_eq!(a.screen, Screen::Detect);
    assert_eq!(a.focus, Focus::Content);
    a.handle_key(Key::Esc);
    assert_eq!(a.focus, Focus::Menu);
    assert_eq!(screen_for(3), Screen::TranslateText);
    assert_eq!(screen_label(Screen::TranslateFile), "File");
}

#[test]
fn quit_dialog() {
    let mut a = app();
    a.handle_key(Key::Char('q'));
    assert!(a.quitting);
    a.handle_key(Key::Char('n'));
    assert!(!a.quitting);
    a.handle_key(Key::Esc);
    assert!(a.quitting);
    a.handle_key(Key::Tab);
    assert_eq!(a.quit_choice, 1);
    a.handle_key(Key::Enter);
    assert!(!a.quitting && !a.should_quit);
    a.handle_key(Key::Char('q'));
    a.handle_key(Key::Char('y'));
    assert!(a.should_quit);
}

#[test]
fn detect_screen_edits_and_starts_a_task() {
    let mut a = app();
    open_screen(&mut a, 5);
    type_text(&mut a, "Helo");
    a.handle_key(Key::Left);
    a.handle_key(Key::Char('l'));
    assert_eq!(a.input.text, "Hello");
    assert_eq!(a.input.cursor_pos, 4);
    a.handle_key(Key::End);
    a.handle_key(Key::Backspace);
    assert_eq!(a.input.text, "Hell");
    a.handle_key(Key::Home);
    a.handle_key(Key::Delete);
    assert_eq!(a.input.text, "ell");
    match a.handle_key(Key::Enter) {
        Action::Start(Task::Detect { text }) => assert_eq!(text, "ell"),
        other => panic!("unexpected {:?}", other),
    }
    assert!(a.task.is_loading && a.task.pending);
    assert_eq!(a.task.loading_msg, "Detecting…");
    assert!(matches!(a.handle_key(Key::Enter), Action::Nothing));
    let act = a.apply_outcome(Outcome::Text("English (eng)".to_string()));
    assert!(matches!(act, Action::Nothing));
    assert_eq!(a.task.result_text.as_deref(), Some("English (eng)"));
    assert!(!a.task.result_is_error && !a.task.is_loading);
}

#[test]
fn typing_then_erasing_restores_the_text() {
    let mut a = app();
    open_screen(&mut a, 5);
    type_text(&mut a, "abc");
    a.handle_key(Key::Left);
    let before = (a.input.text.clone(), a.input.cursor_pos);
    a.handle_key(Key::Char('é'));
    assert_eq!(a.input.text, "abéc");
    a.handle_key(Key::Backspace);
    assert_eq!((a.input.text.clone(), a.input.cursor_pos), before);
}

#[test]
fn translate_screen_picks_languages_and_translates() {
    let mut a = app();
    open_screen(&mut a, 3);
    assert_eq!(a.screen, Screen::TranslateText);
    assert!(matches!(a.handle_key(Key::Enter), Action::Nothing));
    type_text(&mut a, "Good morning");
    a.handle_key(Key::Tab);
    assert_eq!(a.input.active_field, 1);
    type_text(&mut a, "ger");
    assert_eq!(a.lang_picker.cache.len(), 1);
    a.handle_key(Key::Enter);
    assert_eq!(a.input.source, "de");
    assert_eq!(a.input.active_field, 2);
    type_text(&mut a, "aceh");
    a.handle_key(Key::Enter);
    assert_eq!(a.input.target, "ace_Arab");
    assert_eq!(a.input.active_field, 0);
    match a.handle_key(Key::Enter) {
        Action::Start(Task::Translate { text, source, target }) => {
            assert_eq!(text, "Good morning");
            assert_eq!(source, "de");
            assert_eq!(target, "ace_Arab");
        }
        other => panic!("unexpected {:?}", other),
    }
    assert_eq!(a.task.loading_msg, "Translating…");
    assert!(matches!(a.handle_key(Key::Esc), Action::Abort));
    assert!(!a.task.pending && !a.task.is_loading);
}

#[test]
fn empty_language_fields_take_the_defaults() {
    let mut a = app();
    a.input.source.clear();
    a.input.target.clear();
    open_screen(&mut a, 3);
    type_text(&mut a, "x");
    match a.handle_key(Key::Enter) {
        Action::Start(Task::Translate { source, target, .. }) => {
            assert_eq!(source, "en");
            assert_eq!(target, "fr");
        }
        other => panic!("unexpected {:?}", other),
    }
}

#[test]
fn file_screen_completes_paths() {
    let mut a = app();
    open_screen(&mut a, 4);
    assert_eq!(a.screen, Screen::TranslateFile);
    type_text(&mut a, "docs/re");
    assert_eq!(a.completion_dir(), "docs/");
    assert!(matches!(a.handle_key(Key::Right), Action::CompletePath));
    a.complete_path(vec![
        ("readme.md".to_string(), false),
        ("reports".to_string(), true),
        ("notes.txt".to_string(), false),
    ]);
    assert_eq!(a.input.path_completions, vec!["docs/readme.md".to_string(), "docs/reports/".to_string()]);
    a.handle_key(Key::Down);
    a.handle_key(Key::Tab);
    assert_eq!(a.input.file, "docs/reports/");
    assert_eq!(a.input.cursor_pos, 13);
    assert!(a.input.path_completions.is_empty());
    a.complete_path(vec![("guide.po".to_string(), false)]);
    assert_eq!(a.input.file, "docs/reports/guide.po");
    assert_eq!(a.input.cursor_pos, 21);
    a.handle_paste("  ");
    a.handle_key(Key::Home);
    a.handle_paste(" ");
    match a.handle_key(Key::Enter) {
        Action::Start(Task::TranslateFile { path, .. }) => assert_eq!(path, "docs/reports/guide.po"),
        other => panic!("unexpected {:?}", other),
    }
    assert_eq!(a.task.loading_msg, "Translating file…");
}

#[test]
fn completion_without_a_slash_lists_the_current_directory() {
    let mut a = app();
    open_screen(&mut a, 4);
    type_text(&mut a, "zz");
    assert_eq!(a.completion_dir(), ".");
    a.complete_path(vec![("a".to_string(), false)]);
    assert_eq!(a.input.file, "zz");
    let (d, f) = completion_parts("a/b/c");
    assert_eq!((d.as_str(), f.as_str()), ("a/b/", "c"));
    let (d, f) = completion_parts("dir/");
    assert_eq!((d.as_str(), f.as_str()), ("dir/", ""));
}

#[test]
fn languages_screen_searches() {
    let mut a = app();
    open_screen(&mut a, 1);
    a.handle_key(Key::Down);
    assert_eq!(a.language_scroll, 1);
    a.handle_key(Key::Char('/'));
    assert_eq!(a.focus, Focus::Search);
    type_text(&mut a, "FRA");
    assert_eq!(a.lang_filter_cache.len(), 1);
    assert_eq!(a.lang_filter_cache[0].iso, "fr");
    assert_eq!(a.header_status(), "🔍 FRA  ");
    a.handle_key(Key::Esc);
    assert_eq!(a.focus, Focus::Content);
    assert_eq!(a.lang_filter_cache.len(), 4);
    assert_eq!(a.header_status(), "Languages  ");
}

#[test]
fn config_screen_picks_a_service() {
    let mut a = app();
    open_screen(&mut a, 2);
    a.handle_key(Key::Char('m'));
    assert!(a.service_picker);
    assert_eq!(a.service_picker_cursor, 2);
    a.handle_key(Key::Down);
    assert!(matches!(a.handle_key(Key::Enter), Action::ForgetService));
    assert_eq!(a.mode, TranslationMode::DeepL);
    assert!(!a.service_picker);
    let hints: Vec<&str> = a.footer_hints().iter().map(|h| h.1).collect();
    assert_eq!(hints, vec!["M", "=select service  ", "Esc", "=menu"]);
}

#[test]
fn models_screen() {
    let mut a = app();
    a.handle_key(Key::Enter);
    assert_eq!(a.screen, Screen::Models);
    assert!(matches!(a.handle_key(Key::Char('r')), Action::RefreshInstalled));
    a.refresh_installed(vec!["org/one".to_string(), "org/two".to_string()]);
    a.handle_key(Key::Up);
    assert_eq!(a.models.scroll, 1);
    match a.handle_key(Key::Enter) {
        Action::ConfigureModel(r) => assert_eq!(r, "org/two"),
        other => panic!("unexpected {:?}", other),
    }
    assert_eq!(a.model_repo, "org/two");
    assert_eq!(a.task.result_text.as_deref(), Some("✓ Configured: org/two"));
    match a.handle_key(Key::Char('d')) {
        Action::Uninstall(r) => assert_eq!(r, "org/two"),
        other => panic!("unexpected {:?}", other),
    }
    a.uninstalled(vec!["org/one".to_string()]);
    assert_eq!(a.models.scroll, 0);
    match a.handle_key(Key::Char('i')) {
        Action::FetchModels(q) => assert_eq!(q, "ct2"),
        other => panic!("unexpected {:?}", other),
    }
    assert!(a.models.browsing && a.task.pending);
    a.apply_outcome(Outcome::Models(vec![
        ModelEntry { id: "Org/nllb-200/x".to_string(), display: "nllb".to_string() },
        ModelEntry { id: "b".to_string(), display: "b".to_string() },
    ]));
    assert_eq!(a.models.results.len(), 2);
    match a.handle_key(Key::Enter) {
        Action::Download(r) => assert_eq!(r, "Org/nllb-200/x"),
        other => panic!("unexpected {:?}", other),
    }
    assert_eq!(a.task.loading_msg, "Downloading nllb-200…");
    assert!(matches!(a.apply_outcome(Outcome::DownloadDone(None)), Action::RefreshInstalled));
    assert_eq!(a.task.result_text.as_deref(), Some("✓ Download complete"));
    a.handle_key(Key::Char('/'));
    type_text(&mut a, "opus");
    assert_eq!(a.models.search_query, "opus");
    match a.handle_key(Key::Enter) {
        Action::FetchModels(q) => assert_eq!(q, "opus"),
        other => panic!("unexpected {:?}", other),
    }
    a.apply_outcome(Outcome::DownloadDone(Some("boom".to_string())));
    assert_eq!(a.task.result_text.as_deref(), Some("✗ boom"));
    assert!(a.task.result_is_error);
    a.handle_key(Key::Esc);
    assert!(!a.models.browsing && a.models.results.is_empty());
}

#[test]
fn outcomes_without_a_task_change_nothing() {
    let mut a = app();
    assert!(matches!(a.apply_outcome(Outcome::Text("x".to_string())), Action::Nothing));
    assert!(a.task.result_text.is_none());
}

#[test]
fn failures_are_marked() {
    let mut a = app();
    open_screen(&mut a, 5);
    type_text(&mut a, "x");
    a.handle_key(Key::Enter);
    a.apply_outcome(Outcome::Translation("✗ no service".to_string()));
    assert!(a.task.result_is_error);
}

#[test]
fn list_and_yes_no_dialogs() {
    assert_eq!(select_step(0, 3, Key::Up), SelectStep::Move(0));
    assert_eq!(select_step(1, 3, Key::Char('k')), SelectStep::Move(0));
    assert_eq!(select_step(1, 3, Key::Down), SelectStep::Move(2));
    assert_eq!(select_step(2, 3, Key::Char('j')), SelectStep::Move(2));
    assert_eq!(select_step(2, 3, Key::Enter), SelectStep::Done(Some(2)));
    assert_eq!(select_step(2, 3, Key::Esc), SelectStep::Done(None));
    assert_eq!(select_step(1, 3, Key::Char('x')), SelectStep::Move(1));
    assert_eq!(confirm_step(Key::Char('Y')), Some(true));
    assert_eq!(confirm_step(Key::Enter), Some(true));
    assert_eq!(confirm_step(Key::Char('q')), Some(false));
    assert_eq!(confirm_step(Key::Tab), None);
}

#[test]
fn language_helpers() {
    let cat = catalog();
    assert_eq!(lang_display_name(&cat, ""), "(auto)");
    assert_eq!(lang_display_name(&cat, "fr"), "fr · French");
    assert_eq!(lang_display_name(&cat, "deu_Latn"), "deu_Latn · German");
    assert_eq!(lang_display_name(&cat, "xx"), "xx");
    assert_eq!(lang_code_display("", "ace_Arab"), "ace_Arab");
    assert_eq!(lang_code_display("fr", "fra_Latn"), "fr");
    assert_eq!(filter_languages(&cat, "").len(), 4);
    assert_eq!(filter_languages(&cat, "LATN").len(), 3);
    assert_eq!(filter_languages(&cat, "çais")[0].iso, "fr");
    assert!(contains_str("hello", "ll"));
    assert!(contains_str("hello", ""));
    assert!(!contains_str("hello", "lo!"));
    assert_eq!(short_repo("a/b/c"), "b");
    assert_eq!(short_repo("plain"), "plain");
    assert_eq!(short_repo("org/"), "");
}

#[test]
fn sorting_matches_std() {
    let v: Vec<String> = ["b", "a", "B", "é", "ab", "", "a"].iter().map(|s| s.to_string()).collect();
    let mut expected = v.clone();
    expected.sort();
    assert_eq!(sort_strings(v), expected);
    assert!(str_lt("ab", "b"));
    assert!(str_lt("a", "ab"));
    assert!(!str_lt("a", "a"));
    let found = path_candidates("d/", "x", &vec![("xb".to_string(), false), ("xa".to_string(), true), ("y".to_string(), false)]);
    assert_eq!(found, vec!["d/xa/".to_string(), "d/xb".to_string()]);
}

#[test]
fn footer_follows_the_focus() {
    let mut a = app();
    let hints: Vec<(bool, &str)> = a.footer_hints();
    assert_eq!(hints[0], (true, "←→"));
    open_screen(&mut a, 3);
    let hints: Vec<&str> = a.footer_hints().iter().map(|h| h.1).collect();
    assert_eq!(hints[0], "Type  ");
    a.handle_key(Key::Tab);
    let hints: Vec<&str> = a.footer_hints().iter().map(|h| h.1).collect();
    assert_eq!(hints[0], "Type to filter  ");
}

#[test]
fn configuration_screen_lines() {
    let mut c = Config::default();
    c.mode = TranslationMode::DeepL;
    c.deepl.api_key = Some("secret".to_string());
    c.translation.context = Some("UI".to_string());
    let lines = config_lines(&c);
    let text: Vec<String> = lines.iter().map(|l| l.iter().map(|p| p.0.as_str()).collect()).collect();
    assert_eq!(text[0], " ─── Translation ─────────────────────────");
    assert_eq!(text[1], "   Service         DeepL   (M to select)");
    assert_eq!(lines[1][1].1, Tone::Service(ServiceTone::Yellow));
    assert_eq!(text[2], "   Char limit      131072");
    assert_eq!(text[3], "");
    assert_eq!(text[4], " ─── DeepL ───────────────────────────────");
    assert_eq!(text[5], "   API Key         ●●●●●●●●");
    assert_eq!(lines[5][1].1, Tone::Good);
    assert_eq!(text[6], "   Endpoint        Free");
    assert_eq!(text[9], "   Source          en");
    assert_eq!(text[10], "   Targets         fr, de");
    assert_eq!(text[11], "   Context         UI");
    assert_eq!(lines.len(), 12);
    c.mode = TranslationMode::Local;
    let text: Vec<String> = config_lines(&c).iter().map(|l| l.iter().map(|p| p.0.as_str()).collect()).collect();
    assert_eq!(text[2], "");
    assert_eq!(text[7], "   Beam size       4");
    assert_eq!(text[8], "   Threads         auto");
    assert_eq!(service_tone(TranslationMode::Qq), ServiceTone::Red);
    assert_eq!(join_comma(&vec![]), "");
    assert_eq!(join_comma(&vec!["a".to_string()]), "a");
}

#[test]
fn list_rows_and_field_texts() {
    let e = entry("fr", "fra_Latn", "French", "Français");
    assert_eq!(language_row(&e), format!("  {:<6} {:<26} {:<30} {}", "fr", "fra_Latn", "French", "Français"));
    let e = entry("", "ace_Arab", "Acehnese", "Acèh");
    assert_eq!(language_row(&e), format!("  {:<6} {:<26} {:<30} {}", "—", "ace_Arab", "Acehnese", "Acèh"));
    assert_eq!(picker_row(&e), format!("  {:<10} {:<30} {}", "ace_Arab", "Acehnese", "Acèh"));
    assert_eq!(pad_right("ab", 4), "ab  ");
    assert_eq!(pad_right("abcdef", 4), "abcdef");
    assert_eq!(installed_item("a/b", "a/b"), ("★ a/b".to_string(), true));
    assert_eq!(installed_item("a/c", "a/b"), ("  a/c".to_string(), false));
    let m = ModelEntry { id: "a/b".to_string(), display: "a/b  12K".to_string() };
    assert_eq!(browse_item(&m, &vec!["a/b".to_string()]), "✓ a/b  12K");
    assert_eq!(browse_item(&m, &vec![]), "  a/b  12K");
    assert_eq!(match_count(1), "  (1 match)");
    assert_eq!(match_count(3), "  (3 matches)");
    assert_eq!(result_display("✗ boom", true), " ✗ boom");
    assert_eq!(result_display("✓ done", false), " done");
    assert_eq!(result_display("Bonjour", false), " Bonjour");
    assert_eq!(spinner_frame(0), '⠋');
    assert_eq!(spinner_frame(3), '⠙');
    assert_eq!(spinner_frame(21), '⠋');
    assert_eq!(cursor_column(3, 10), 3);
    assert_eq!(cursor_column(30, 10), 9);
    assert_eq!(cursor_column(3, 0), 0);
}

#[test]
fn configuration_screen_hides_secrets() {
    for mode in [TranslationMode::Ai, TranslationMode::Baidu, TranslationMode::Youdao, TranslationMode::Qq] {
        let mut c = Config::default();
        c.mode = mode;
        c.ai.api_key = Some("sk-one".to_string());
        c.baidu.app_id = Some("app-one".to_string());
        c.baidu.secret_key = Some("key-one".to_string());
        c.youdao.app_key = Some("yk-one".to_string());
        c.youdao.app_secret = Some("ys-one".to_string());
        c.qq.secret_id = Some("qi-one".to_string());
        c.qq.secret_key = Some("qk-one".to_string());
        let mut d = c.clone();
        d.ai.api_key = Some("sk-two".to_string());
        d.baidu.app_id = Some("app-two".to_string());
        d.baidu.secret_key = Some("key-two".to_string());
        d.youdao.app_key = Some("yk-two".to_string());
        d.youdao.app_secret = Some("ys-two".to_string());
        d.qq.secret_id = Some("qi-two".to_string());
        d.qq.secret_key = Some("qk-two".to_string());
        assert_eq!(config_lines(&c), config_lines(&d));
        let all: String = config_lines(&c).iter().flat_map(|l| l.iter().map(|p| p.0.clone())).collect();
        assert!(!all.contains("-one"));
    }
}

#[test]
fn typing_then_erasing_on_the_translate_screen() {
    let mut a = app();
    open_screen(&mut a, 3);
    type_text(&mut a, "xyz");
    a.handle_key(Key::Left);
    let before = (a.input.text.clone(), a.input.cursor_pos);
    a.handle_key(Key::Char('ß'));
    assert_eq!(a.input.text, "xyßz");
    a.handle_key(Key::Backspace);
    assert_eq!((a.input.text.clone(), a.input.cursor_pos), before);
}

#[test]
fn tab_cycles_the_translation_fields() {
    let mut a = app();
    open_screen(&mut a, 3);
    type_text(&mut a, "Hello");
    assert_eq!(a.input.active_field, 0);
    let acts = press(&mut a, &[Key::Tab]);
    assert_eq!(a.input.active_field, 1);
    let more = press(&mut a, &[Key::Tab, Key::Tab]);
    assert_eq!(a.input.active_field, 0);
    assert_eq!(a.input.cursor_pos, 0);
    assert_eq!(a.input.text, "Hello");
    assert_eq!(a.screen, Screen::TranslateText);
    assert!(acts.iter().chain(more.iter()).all(|x| matches!(x, Action::Nothing)));
}

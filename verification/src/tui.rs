//! The terminal interface's state: what each key, paste and finished task does
//! to it, and what the caller has to do next.  Drawing the screens, reading
//! the terminal and running the tasks are left to the caller.
use crate::config::{
    all_modes, mode_char_limit, mode_display_name, mode_index, AiConfig, AzureConfig, BaiduConfig,
    Config, DeepLConfig, LibreTranslateConfig, QqConfig, TranslationConfig, TranslationMode,
    YandexConfig, YoudaoConfig,
};
use crate::text::{
    chars_of, decimal, lowercase_of, sort_strings, sorted_views, starts_with, str_less, string_of,
    to_lowercase, views,
};
use vstd::prelude::*;

verus! {

// ---------------------------------------------------------------------------
// Screens, focus and keys
// ---------------------------------------------------------------------------
/// The screens of the interface, in the order of the menu.
#[derive(Clone, Copy, Debug, PartialEq, Eq, Structural)]
pub enum Screen {
    Models,
    Languages,
    Config,
    TranslateText,
    TranslateFile,
    Detect,
}

/// How many screens the menu offers.
pub const SCREEN_COUNT: usize = 6;

/// The screen at a position of the menu.
pub open spec fn screen_at(i: int) -> Screen {
    if i <= 0 {
        Screen::Models
    } else if i == 1 {
        Screen::Languages
    } else if i == 2 {
        Screen::Config
    } else if i == 3 {
        Screen::TranslateText
    } else if i == 4 {
        Screen::TranslateFile
    } else {
        Screen::Detect
    }
}

/// The screen at position `i` of the menu.
pub fn screen_for(i: usize) -> (s: Screen)
    requires
        i < SCREEN_COUNT,
    ensures
        s == screen_at(i as int),
{
    if i == 0 {
        Screen::Models
    } else if i == 1 {
        Screen::Languages
    } else if i == 2 {
        Screen::Config
    } else if i == 3 {
        Screen::TranslateText
    } else if i == 4 {
        Screen::TranslateFile
    } else {
        Screen::Detect
    }
}

pub open spec fn screen_label_of(s: Screen) -> Seq<char> {
    match s {
        Screen::Models => "Models"@,
        Screen::Languages => "Languages"@,
        Screen::Config => "Config"@,
        Screen::TranslateText => "Translate"@,
        Screen::TranslateFile => "File"@,
        Screen::Detect => "Detect"@,
    }
}

/// The name of a screen on its tab.
pub fn screen_label(s: Screen) -> (r: &'static str)
    ensures
        r@ == screen_label_of(s),
{
    match s {
        Screen::Models => "Models",
        Screen::Languages => "Languages",
        Screen::Config => "Config",
        Screen::TranslateText => "Translate",
        Screen::TranslateFile => "File",
        Screen::Detect => "Detect",
    }
}

/// Where the keys go: the menu, the screen's content, or its search field.
#[derive(Clone, Copy, Debug, PartialEq, Eq, Structural)]
pub enum Focus {
    Menu,
    Content,
    Search,
}

/// A key press.
#[derive(Clone, Copy, Debug, PartialEq, Eq, Structural)]
pub enum Key {
    Char(char),
    Backspace,
    Enter,
    Left,
    Right,
    Up,
    Down,
    Home,
    End,
    Tab,
    Delete,
    Esc,
    Other,
}

// ---------------------------------------------------------------------------
// Languages
// ---------------------------------------------------------------------------
/// A language of the catalog: its ISO code (possibly empty), its NLLB code,
/// its English name and its own name.
#[derive(Debug)]
pub struct LanguageEntry {
    pub iso: String,
    pub nllb: String,
    pub english: String,
    pub native: String,
}

/// A copy of a language entry.
pub fn copy_entry(e: &LanguageEntry) -> (r: LanguageEntry)
    ensures
        r == *e,
{
    LanguageEntry {
        iso: e.iso.clone(),
        nllb: e.nllb.clone(),
        english: e.english.clone(),
        native: e.native.clone(),
    }
}

/// A copy of a list of language entries.
pub fn copy_entries(v: &Vec<LanguageEntry>) -> (r: Vec<LanguageEntry>)
    ensures
        r@ == v@,
{
    let mut r: Vec<LanguageEntry> = Vec::new();
    let mut i: usize = 0;
    while i < v.len()
        invariant
            i <= v@.len(),
            r@ == v@.take(i as int),
        decreases v@.len() - i,
    {
        r.push(copy_entry(&v[i]));
        i = i + 1;
        assert(r@ =~= v@.take(i as int));
    }
    assert(v@.take(v@.len() as int) =~= v@);
    r
}

/// `q` occurs in `t`.
pub open spec fn contains_seq(t: Seq<char>, q: Seq<char>) -> bool {
    exists|i: int| 0 <= i && i + q.len() <= t.len() && #[trigger] t.subrange(i, i + q.len()) == q
}

fn occurs_at(tc: &Vec<char>, qc: &Vec<char>, i: usize) -> (r: bool)
    requires
        i + qc.len() <= tc.len(),
    ensures
        r == (tc@.subrange(i as int, i + qc@.len()) == qc@),
{
    let mut k: usize = 0;
    while k < qc.len()
        invariant
            i + qc.len() <= tc.len(),
            k <= qc@.len(),
            forall|m: int| 0 <= m < k ==> tc@[i + m] == qc@[m],
        decreases qc@.len() - k,
    {
        if tc[i + k] != qc[k] {
            assert(tc@.subrange(i as int, i + qc@.len())[k as int] != qc@[k as int]);
            return false;
        }
        k = k + 1;
    }
    assert(tc@.subrange(i as int, i + qc@.len()) =~= qc@);
    true
}

/// `t.contains(q)` for strings.
pub fn contains_str(t: &str, q: &str) -> (r: bool)
    ensures
        r == contains_seq(t@, q@),
{
    let tc = chars_of(t);
    let qc = chars_of(q);
    if qc.len() > tc.len() {
        return false;
    }
    let last = tc.len() - qc.len();
    let mut i: usize = 0;
    while i < last
        invariant
            tc@ == t@,
            qc@ == q@,
            last == tc@.len() - qc@.len(),
            i <= last,
            forall|j: int| 0 <= j < i ==> #[trigger] tc@.subrange(j, j + qc@.len()) != qc@,
        decreases last - i,
    {
        if occurs_at(&tc, &qc, i) {
            return true;
        }
        i = i + 1;
    }
    if occurs_at(&tc, &qc, last) {
        return true;
    }
    proof {
        assert forall|j: int| 0 <= j && j + q@.len() <= t@.len() implies #[trigger] t@.subrange(
            j,
            j + q@.len(),
        ) != q@ by {
            assert(tc@.subrange(j, j + qc@.len()) != qc@);
        }
    }
    false
}

/// The entry answers the lower-cased query by one of its codes or names.
pub open spec fn entry_matches(e: LanguageEntry, q: Seq<char>) -> bool {
    contains_seq(lowercase_of(e.iso@), q) || contains_seq(lowercase_of(e.nllb@), q)
        || contains_seq(lowercase_of(e.english@), q) || contains_seq(lowercase_of(e.native@), q)
}

/// The entries of the catalog that answer `q`, in catalog order.
pub open spec fn matching(cat: Seq<LanguageEntry>, q: Seq<char>) -> Seq<LanguageEntry>
    decreases cat.len(),
{
    if cat.len() == 0 {
        seq![]
    } else if entry_matches(cat.last(), q) {
        matching(cat.drop_last(), q).push(cat.last())
    } else {
        matching(cat.drop_last(), q)
    }
}

/// The languages shown for a search: the whole catalog for an empty query,
/// else those whose codes or names contain it, ignoring case.
pub open spec fn filtered(cat: Seq<LanguageEntry>, query: Seq<char>) -> Seq<LanguageEntry> {
    if query.len() == 0 {
        cat
    } else {
        matching(cat, lowercase_of(query))
    }
}

fn entry_matches_exec(e: &LanguageEntry, q: &str) -> (r: bool)
    ensures
        r == entry_matches(*e, q@),
{
    contains_str(to_lowercase(e.iso.as_str()).as_str(), q) || contains_str(
        to_lowercase(e.nllb.as_str()).as_str(),
        q,
    ) || contains_str(to_lowercase(e.english.as_str()).as_str(), q) || contains_str(
        to_lowercase(e.native.as_str()).as_str(),
        q,
    )
}

/// The catalog's languages that match a search.
pub fn filter_languages(catalog: &Vec<LanguageEntry>, query: &str) -> (r: Vec<LanguageEntry>)
    ensures
        r@ == filtered(catalog@, query@),
{
    if query.is_empty() {
        return copy_entries(catalog);
    }
    let q = to_lowercase(query);
    let mut r: Vec<LanguageEntry> = Vec::new();
    let mut i: usize = 0;
    while i < catalog.len()
        invariant
            i <= catalog@.len(),
            q@ == lowercase_of(query@),
            r@ == matching(catalog@.take(i as int), q@),
        decreases catalog@.len() - i,
    {
        assert(catalog@.take(i + 1).drop_last() =~= catalog@.take(i as int));
        if entry_matches_exec(&catalog[i], q.as_str()) {
            r.push(copy_entry(&catalog[i]));
        }
        i = i + 1;
    }
    assert(catalog@.take(catalog@.len() as int) =~= catalog@);
    r
}

/// The first entry at or after `i` whose ISO or NLLB code is `code`.
pub open spec fn entry_for(cat: Seq<LanguageEntry>, code: Seq<char>, i: int) -> Option<int>
    decreases cat.len() - i,
{
    if i < 0 || i >= cat.len() {
        None
    } else if cat[i].iso@ == code || cat[i].nllb@ == code {
        Some(i)
    } else {
        entry_for(cat, code, i + 1)
    }
}

pub open spec fn display_name_of(cat: Seq<LanguageEntry>, code: Seq<char>) -> Seq<char> {
    if code.len() == 0 {
        "(auto)"@
    } else {
        match entry_for(cat, code, 0) {
            Some(k) => code + " · "@ + cat[k].english@,
            None => code,
        }
    }
}

proof fn lemma_entry_for(cat: Seq<LanguageEntry>, code: Seq<char>, i: int)
    requires
        0 <= i,
    ensures
        entry_for(cat, code, i) matches Some(k) ==> i <= k < cat.len(),
    decreases cat.len() - i,
{
    if i < cat.len() && !(cat[i].iso@ == code || cat[i].nllb@ == code) {
        lemma_entry_for(cat, code, i + 1);
    }
}

/// How a language code is shown: `(auto)` when empty, with the English name
/// when the catalog knows it, else as it is.
pub fn lang_display_name(catalog: &Vec<LanguageEntry>, code: &str) -> (r: String)
    ensures
        r@ == display_name_of(catalog@, code@),
{
    if code.is_empty() {
        return String::from_str("(auto)");
    }
    let mut i: usize = 0;
    while i < catalog.len()
        invariant
            i <= catalog@.len(),
            code@.len() > 0,
            entry_for(catalog@, code@, 0) == entry_for(catalog@, code@, i as int),
        decreases catalog@.len() - i,
    {
        if crate::text::str_is(catalog[i].iso.as_str(), code) || crate::text::str_is(
            catalog[i].nllb.as_str(),
            code,
        ) {
            let mut r = String::from_str(code);
            r.append(" · ");
            r.append(catalog[i].english.as_str());
            return r;
        }
        i = i + 1;
    }
    String::from_str(code)
}

/// The code shown for a language: its ISO code, or its NLLB code when it has
/// none.
pub fn lang_code_display<'a>(iso: &'a str, nllb: &'a str) -> (r: &'a str)
    ensures
        r@ == if iso@.len() > 0 {
            iso@
        } else {
            nllb@
        },
{
    if !iso.is_empty() {
        iso
    } else {
        nllb
    }
}

// ---------------------------------------------------------------------------
// The list and yes/no dialogs
// ---------------------------------------------------------------------------
/// What a key does to a list dialog.
#[derive(Debug, PartialEq, Eq, Structural)]
pub enum SelectStep {
    /// The highlight moves to (or stays on) this item.
    Move(usize),
    /// The dialog closes with the highlighted item, or with none.
    Done(Option<usize>),
}

/// A key in a list of `len` items whose item `selected` is highlighted.
pub fn select_step(selected: usize, len: usize, key: Key) -> (r: SelectStep)
    requires
        selected < len,
    ensures
        (key == Key::Up || key == Key::Char('k')) ==> r == SelectStep::Move(
            if selected == 0 {
                0
            } else {
                (selected - 1) as usize
            },
        ),
        (key == Key::Down || key == Key::Char('j')) ==> r == SelectStep::Move(
            if selected + 1 < len {
                (selected + 1) as usize
            } else {
                selected
            },
        ),
        key == Key::Enter ==> r == SelectStep::Done(Some(selected)),
        (key == Key::Esc || key == Key::Char('q')) ==> r == SelectStep::Done(None),
        !(key == Key::Up || key == Key::Char('k') || key == Key::Down || key == Key::Char('j')
            || key == Key::Enter || key == Key::Esc || key == Key::Char('q')) ==> r
            == SelectStep::Move(selected),
{
    match key {
        Key::Up | Key::Char('k') => {
            if selected == 0 {
                SelectStep::Move(0)
            } else {
                SelectStep::Move(selected - 1)
            }
        },
        Key::Down | Key::Char('j') => {
            if selected < len - 1 {
                SelectStep::Move(selected + 1)
            } else {
                SelectStep::Move(selected)
            }
        },
        Key::Enter => SelectStep::Done(Some(selected)),
        Key::Esc | Key::Char('q') => SelectStep::Done(None),
        _ => SelectStep::Move(selected),
    }
}

/// A key in a yes/no dialog: the answer, or `None` while it stays open.
pub fn confirm_step(key: Key) -> (r: Option<bool>)
    ensures
        (key == Key::Char('y') || key == Key::Char('Y') || key == Key::Enter) ==> r == Some(
            true,
        ),
        (key == Key::Char('n') || key == Key::Char('N') || key == Key::Esc || key == Key::Char(
            'q',
        )) ==> r == Some(false),
        !(key == Key::Char('y') || key == Key::Char('Y') || key == Key::Enter || key == Key::Char(
            'n',
        ) || key == Key::Char('N') || key == Key::Esc || key == Key::Char('q')) ==> r is None,
{
    match key {
        Key::Char('y') | Key::Char('Y') | Key::Enter => Some(true),
        Key::Char('n') | Key::Char('N') | Key::Esc | Key::Char('q') => Some(false),
        _ => None,
    }
}

// ---------------------------------------------------------------------------
// Ordering strings, and completing file paths
// ---------------------------------------------------------------------------
/// The last `/` of `t` at or before `i`.
pub open spec fn last_slash(t: Seq<char>, i: int) -> Option<int>
    decreases i + 1,
{
    if i < 0 || i >= t.len() {
        None
    } else if t[i] == '/' {
        Some(i)
    } else {
        last_slash(t, i - 1)
    }
}

/// A typed path split into its directory part (up to and with its last
/// `/`) and the beginning of a name in that directory.
pub open spec fn completion_split(input: Seq<char>) -> (Seq<char>, Seq<char>) {
    match last_slash(input, input.len() - 1) {
        Some(k) => (input.take(k + 1), input.skip(k + 1)),
        None => (seq![], input),
    }
}

proof fn lemma_last_slash(t: Seq<char>, i: int)
    ensures
        last_slash(t, i) matches Some(k) ==> 0 <= k <= i && k < t.len(),
    decreases i + 1,
{
    if 0 <= i < t.len() && t[i] != '/' {
        lemma_last_slash(t, i - 1);
    }
}

/// The directory part and the name part of a typed path.
pub fn completion_parts(input: &str) -> (r: (String, String))
    ensures
        r.0@ == completion_split(input@).0,
        r.1@ == completion_split(input@).1,
{
    let cs = chars_of(input);
    let mut i: usize = cs.len();
    proof {
        lemma_last_slash(input@, input@.len() - 1);
    }
    while i > 0
        invariant
            cs@ == input@,
            i <= cs@.len(),
            last_slash(input@, input@.len() - 1) == last_slash(input@, i - 1),
        decreases i,
    {
        if cs[i - 1] == '/' {
            let d = crate::text::slice_vec(&cs, 0, i);
            let f = crate::text::slice_vec(&cs, i, cs.len());
            assert(d@ =~= input@.take(i as int));
            assert(f@ =~= input@.skip(i as int));
            return (string_of(&d), string_of(&f));
        }
        i = i - 1;
    }
    (String::new(), String::from_str(input))
}

/// The completion a directory entry offers: the directory part, the name,
/// and a `/` after a directory.
pub open spec fn candidate(dir: Seq<char>, name: Seq<char>, is_dir: bool) -> Seq<char> {
    dir + name + if is_dir {
        seq!['/']
    } else {
        seq![]
    }
}

/// The completions the entries of a directory offer for a name's beginning.
pub open spec fn candidates(dir: Seq<char>, file: Seq<char>, entries: Seq<(String, bool)>) -> Seq<
    Seq<char>,
>
    decreases entries.len(),
{
    if entries.len() == 0 {
        seq![]
    } else {
        let rest = candidates(dir, file, entries.drop_last());
        let e = entries.last();
        if starts_with(e.0@, file) {
            rest.push(candidate(dir, e.0@, e.1))
        } else {
            rest
        }
    }
}

/// The sorted completions that a directory's entries (name, is a directory)
/// offer for the name's beginning `file`, each with the directory part `dir`
/// before it.
pub fn path_candidates(dir: &str, file: &str, entries: &Vec<(String, bool)>) -> (r: Vec<String>)
    ensures
        sorted_views(views(r@)),
        views(r@).to_multiset() == candidates(dir@, file@, entries@).to_multiset(),
{
    let fc = chars_of(file);
    let mut found: Vec<String> = Vec::new();
    let mut i: usize = 0;
    while i < entries.len()
        invariant
            fc@ == file@,
            i <= entries@.len(),
            views(found@) == candidates(dir@, file@, entries@.take(i as int)),
        decreases entries@.len() - i,
    {
        assert(entries@.take(i + 1).drop_last() =~= entries@.take(i as int));
        assert(entries@.take(i + 1).last() == entries@[i as int]);
        let name = &entries[i].0;
        let nc = chars_of(name.as_str());
        let keep = crate::text::starts_with_at(&nc, 0, nc.len(), &fc);
        assert(nc@.subrange(0, nc@.len() as int) =~= nc@);
        if keep {
            let mut c = String::from_str(dir);
            c.append(name.as_str());
            if entries[i].1 {
                c.append("/");
                proof {
                    reveal_strlit("/");
                }
            }
            assert(c@ =~= candidate(dir@, name@, entries@[i as int].1));
            let ghost before = found@;
            found.push(c);
            assert(views(found@) =~= views(before).push(c@));
        }
        assert(keep == starts_with(entries@[i as int].0@, file@));
        i = i + 1;
    }
    assert(entries@.take(entries@.len() as int) =~= entries@);
    sort_strings(found)
}

// ---------------------------------------------------------------------------
// Editing text by char positions
// ---------------------------------------------------------------------------
/// `t` with its chars `from..to` replaced by `ins`.
pub open spec fn spliced(t: Seq<char>, from: int, to: int, ins: Seq<char>) -> Seq<char> {
    t.take(from) + ins + t.skip(to)
}

/// A position clamped to the end of `t`: where an insertion at `pos` lands.
pub open spec fn clamp_pos(t: Seq<char>, pos: int) -> int {
    if pos < t.len() {
        pos
    } else {
        t.len() as int
    }
}

/// A string with its chars `from..to` replaced by `ins`.
pub fn splice_chars(s: &String, from: usize, to: usize, ins: &[char]) -> (r: String)
    requires
        from <= to <= s@.len(),
    ensures
        r@ == spliced(s@, from as int, to as int, ins@),
{
    let cs = chars_of(s.as_str());
    let mut out: Vec<char> = Vec::new();
    crate::text::push_range(&mut out, &cs, 0, from);
    crate::text::push_all(&mut out, ins);
    crate::text::push_range(&mut out, &cs, to, cs.len());
    assert(out@ =~= spliced(s@, from as int, to as int, ins@));
    string_of(&out)
}

/// The number of chars of a string.
pub fn char_count(s: &String) -> (n: usize)
    ensures
        n == s@.len(),
{
    s.as_str().unicode_len()
}


/// A string with a char added at its end.
pub fn push_char(s: &String, c: char) -> (r: String)
    ensures
        r@ == s@.push(c),
{
    let n = char_count(s);
    let mut ins: Vec<char> = Vec::new();
    ins.push(c);
    let r = splice_chars(s, n, n, &ins);
    assert(r@ =~= s@.push(c));
    r
}

/// A string without its last char, if it has one.
pub fn pop_char(s: &String) -> (r: String)
    ensures
        r@ == popped(s@),
{
    let n = char_count(s);
    if n == 0 {
        return s.clone();
    }
    let r = splice_chars(s, n - 1, n, &Vec::new());
    assert(r@ =~= s@.drop_last());
    r
}

/// The name a download is announced by.
pub fn short_repo(repo: &str) -> (r: String)
    ensures
        r@ == short_repo_name(repo@),
{
    let cs = chars_of(repo);
    assert(cs@.subrange(0, cs@.len() as int) =~= cs@);
    match crate::text::find_char_in(&cs, 0, cs.len(), '/') {
        None => String::from_str(repo),
        Some(i) => {
            proof {
                crate::text::lemma_find_char_from(cs@, '/', 0);
            }
            let rest = crate::text::slice_vec(&cs, i + 1, cs.len());
            assert(rest@ =~= repo@.skip(i + 1));
            assert(rest@.subrange(0, rest@.len() as int) =~= rest@);
            match crate::text::find_char_in(&rest, 0, rest.len(), '/') {
                None => string_of(&rest),
                Some(j) => {
                    proof {
                        crate::text::lemma_find_char_from(rest@, '/', 0);
                    }
                    let head = crate::text::slice_vec(&rest, 0, j);
                    assert(head@ =~= rest@.take(j as int));
                    string_of(&head)
                },
            }
        },
    }
}

// ---------------------------------------------------------------------------
// The state
// ---------------------------------------------------------------------------
/// A model found by a search: its id and the line that shows it.
#[derive(Debug)]
pub struct ModelEntry {
    pub id: String,
    pub display: String,
}

/// The fields of the translation and detection screens.
#[derive(Debug)]
pub struct InputState {
    pub text: String,
    pub source: String,
    pub target: String,
    pub file: String,
    /// 0: the text or file, 1: the source language, 2: the target language.
    pub active_field: usize,
    /// In chars, within the text being edited.
    pub cursor_pos: usize,
    pub path_completions: Vec<String>,
    pub path_completion_idx: usize,
}

/// The language picker of the translation screens.
#[derive(Debug)]
pub struct LangPickerState {
    pub cursor: usize,
    pub search: String,
    pub cache: Vec<LanguageEntry>,
}

/// The models screen: installed models, or the results of a search.
#[derive(Debug)]
pub struct ModelsState {
    pub installed: Vec<String>,
    pub scroll: usize,
    pub browsing: bool,
    pub results: Vec<ModelEntry>,
    pub cursor: usize,
    pub search_query: String,
}

/// The task running in the background, and the last result shown.
#[derive(Debug)]
pub struct TaskState {
    pub is_loading: bool,
    pub loading_msg: String,
    pub result_text: Option<String>,
    pub result_is_error: bool,
    /// A task was started and its outcome has not arrived.
    pub pending: bool,
}

/// The whole interface.
#[derive(Debug)]
pub struct App {
    pub mode: TranslationMode,
    pub translation: TranslationConfig,
    pub model_repo: String,
    pub catalog: Vec<LanguageEntry>,
    pub focus: Focus,
    pub menu_index: usize,
    pub screen: Screen,
    pub should_quit: bool,
    pub search_query: String,
    pub search_active: bool,
    pub language_scroll: usize,
    pub lang_filter_cache: Vec<LanguageEntry>,
    pub quitting: bool,
    pub quit_choice: usize,
    pub service_picker: bool,
    pub service_picker_cursor: usize,
    pub input: InputState,
    pub lang_picker: LangPickerState,
    pub models: ModelsState,
    pub task: TaskState,
}

/// Work handed to the background.
#[derive(Debug)]
pub enum Task {
    Translate { text: String, source: String, target: String },
    TranslateFile { path: String, source: String, target: String },
    Detect { text: String },
}

/// What the caller has to do after a key, a paste or an outcome.
#[derive(Debug)]
pub enum Action {
    Nothing,
    /// Stop the running task.
    Abort,
    /// Search the model hub for the query.
    FetchModels(String),
    /// Make the model the configured one and download it.
    Download(String),
    /// Make the model the configured one.
    ConfigureModel(String),
    /// Remove the model from the cache, then hand back the installed list.
    Uninstall(String),
    /// Hand back the installed list.
    RefreshInstalled,
    /// List the directory of the typed path and hand back its entries.
    CompletePath,
    /// Start the task.
    Start(Task),
    /// Forget the translation service built for the previous mode.
    ForgetService,
}

/// What a background task came back with.
#[derive(Debug)]
pub enum Outcome {
    /// A detection, or a failure shown as text.
    Text(String),
    /// A translation, or its failure shown as text.
    Translation(String),
    /// The models a search found.
    Models(Vec<ModelEntry>),
    /// A download finished, with its error if it failed.
    DownloadDone(Option<String>),
    /// The task ended without an outcome.
    Closed,
}

/// The text the cursor moves in: the file path on the file screen, else the
/// text.
pub open spec fn active_text(a: App) -> Seq<char> {
    if a.screen == Screen::TranslateFile {
        a.input.file@
    } else {
        a.input.text@
    }
}

/// The source or target language field has the focus.
pub open spec fn picking(a: App) -> bool {
    a.input.active_field == 1 || a.input.active_field == 2
}

/// What holds of the state between any two events.
pub open spec fn wf(a: App) -> bool {
    &&& a.menu_index < SCREEN_COUNT
    &&& a.quit_choice < 2
    &&& a.input.active_field < 3
    &&& a.input.cursor_pos <= active_text(a).len()
    &&& (a.models.results@.len() == 0 || a.models.cursor < a.models.results@.len())
}

/// The first target language, or French.
pub open spec fn first_target(t: TranslationConfig) -> Seq<char> {
    if t.default_target_langs@.len() > 0 {
        t.default_target_langs@[0]@
    } else {
        "fr"@
    }
}

fn first_target_exec(t: &TranslationConfig) -> (r: String)
    ensures
        r@ == first_target(*t),
{
    if t.default_target_langs.len() > 0 {
        t.default_target_langs[0].clone()
    } else {
        String::from_str("fr")
    }
}



/// The text begins with `✗`.
pub fn starts_with_cross(t: &String) -> (r: bool)
    ensures
        r == marks_failure(t@),
{
    let cs = chars_of(t.as_str());
    cs.len() > 0 && cs[0] == '✗'
}

// ---------------------------------------------------------------------------
// What the keys do
// ---------------------------------------------------------------------------
/// The quit dialog: `y` quits, `n`, `q` or Esc close the dialog, Tab and the
/// arrows switch the choice, Enter takes it.
pub open spec fn quit_post(a: App, n: App, key: Key) -> bool {
    if key == Key::Char('y') || key == Key::Char('Y') {
        n == (App { should_quit: true, ..a })
    } else if key == Key::Char('n') || key == Key::Char('N') || key == Key::Esc || key
        == Key::Char('q') {
        n == (App { quitting: false, ..a })
    } else if key == Key::Tab || key == Key::Left || key == Key::Right {
        n == (App { quit_choice: ((a.quit_choice + 1) % 2) as usize, ..a })
    } else if key == Key::Enter {
        if a.quit_choice == 0 {
            n == (App { should_quit: true, ..a })
        } else {
            n == (App { quitting: false, ..a })
        }
    } else {
        n == a
    }
}

/// The service picker: the arrows move, Enter takes the service and forgets
/// the one built before, `q` or Esc close it.
pub open spec fn picker_post(a: App, n: App, key: Key, act: Action) -> bool {
    if key == Key::Up {
        act is Nothing && n == (App {
            service_picker_cursor: if a.service_picker_cursor == 0 {
                0
            } else {
                (a.service_picker_cursor - 1) as usize
            },
            ..a
        })
    } else if key == Key::Down {
        act is Nothing && n == (App {
            service_picker_cursor: if a.service_picker_cursor + 1 < 12 {
                (a.service_picker_cursor + 1) as usize
            } else {
                a.service_picker_cursor
            },
            ..a
        })
    } else if key == Key::Enter {
        act is ForgetService && n == (App {
            mode: if a.service_picker_cursor < 12 {
                all_modes()[a.service_picker_cursor as int]
            } else {
                TranslationMode::Ai
            },
            service_picker: false,
            ..a
        })
    } else if key == Key::Esc || key == Key::Char('q') {
        act is Nothing && n == (App { service_picker: false, ..a })
    } else {
        act is Nothing && n == a
    }
}

/// The menu: the arrows, `k`, `j` and Tab move along the tabs, Enter opens a
/// screen, Esc asks to quit.
pub open spec fn menu_post(a: App, n: App, key: Key) -> bool {
    if key == Key::Left || key == Key::Char('k') {
        n == (App {
            menu_index: if a.menu_index == 0 {
                0
            } else {
                (a.menu_index - 1) as usize
            },
            ..a
        })
    } else if key == Key::Right || key == Key::Char('j') || key == Key::Tab {
        n == (App {
            menu_index: if a.menu_index + 1 < SCREEN_COUNT {
                (a.menu_index + 1) as usize
            } else {
                (SCREEN_COUNT - 1) as usize
            },
            ..a
        })
    } else if key == Key::Enter {
        &&& n.search_query@ == Seq::<char>::empty()
        &&& n.lang_filter_cache@ == a.catalog@
        &&& n == (App {
            screen: screen_at(a.menu_index as int),
            focus: Focus::Content,
            input: InputState { cursor_pos: 0, ..a.input },
            task: TaskState { result_text: None, ..a.task },
            search_query: n.search_query,
            search_active: false,
            lang_filter_cache: n.lang_filter_cache,
            language_scroll: 0,
            ..a
        })
    } else if key == Key::Esc {
        n == (App { quitting: true, quit_choice: 0, ..a })
    } else {
        n == a
    }
}

/// The languages screen: the arrows scroll.
pub open spec fn languages_post(a: App, n: App, key: Key) -> bool {
    if key == Key::Up {
        n == (App {
            language_scroll: if a.language_scroll == 0 {
                0
            } else {
                (a.language_scroll - 1) as usize
            },
            ..a
        })
    } else if key == Key::Down {
        n == (App { language_scroll: (a.language_scroll + 1) as usize, ..a })
    } else {
        n == a
    }
}

/// The configuration screen: `m` opens the service picker on the current
/// service.
pub open spec fn config_post(a: App, n: App, key: Key) -> bool {
    if key == Key::Char('m') || key == Key::Char('M') {
        n == (App {
            service_picker_cursor: mode_index(a.mode) as usize,
            service_picker: true,
            ..a
        })
    } else {
        n == a
    }
}

/// The char a key types, if it types one.
pub open spec fn key_char(k: Key) -> Option<char> {
    match k {
        Key::Char(c) => Some(c),
        _ => None,
    }
}

/// A string without its last char, if it has one (`String::pop`).
pub open spec fn popped(t: Seq<char>) -> Seq<char> {
    if t.len() > 0 {
        t.drop_last()
    } else {
        t
    }
}

/// The task state once a task has started with the given message.
pub open spec fn loading(t: TaskState, msg: String) -> TaskState {
    TaskState { is_loading: true, loading_msg: msg, pending: true, ..t }
}

/// The name a download is announced by: the part of the repository's name
/// after its first `/`, up to the next one; the whole name if it has none.
pub open spec fn short_repo_name(r: Seq<char>) -> Seq<char> {
    match crate::text::find_char(r, '/') {
        None => r,
        Some(i) => {
            let rest = r.skip(i + 1);
            match crate::text::find_char(rest, '/') {
                None => rest,
                Some(j) => rest.take(j),
            }
        },
    }
}

/// The source language of a request: the field, or the default when empty.
pub open spec fn chosen_source(a: App) -> Seq<char> {
    if a.input.source@.len() == 0 {
        a.translation.default_source_lang@
    } else {
        a.input.source@
    }
}

/// The target language of a request: the field, or the first default target
/// (French when there is none) when empty.
pub open spec fn chosen_target(a: App) -> Seq<char> {
    if a.input.target@.len() == 0 {
        first_target(a.translation)
    } else {
        a.input.target@
    }
}

/// The text being edited is now `t`, with the cursor at `cursor`.
pub open spec fn edited(a: App, n: App, t: Seq<char>, cursor: int) -> bool {
    &&& active_text(n) == t
    &&& if a.screen == Screen::TranslateFile {
        n == (App { input: InputState { file: n.input.file, cursor_pos: cursor as usize, ..a.input }, ..a })
    } else {
        n == (App { input: InputState { text: n.input.text, cursor_pos: cursor as usize, ..a.input }, ..a })
    }
}

/// Editing the text at the cursor: the arrows, Home and End move it, Delete
/// and Backspace remove the char after or before it, a char is inserted at
/// it.  Right at the end of the file field asks for the completions.
pub open spec fn edit_post(a: App, n: App, key: Key, act: Action) -> bool {
    let t = active_text(a);
    let pos = a.input.cursor_pos as int;
    if key == Key::Left {
        act is Nothing && edited(a, n, t, if pos == 0 { 0 } else { pos - 1 })
    } else if key == Key::Right {
        if pos < t.len() {
            act is Nothing && edited(a, n, t, pos + 1)
        } else if a.screen == Screen::TranslateFile && a.input.active_field == 0 {
            act is CompletePath && n == a
        } else {
            act is Nothing && n == a
        }
    } else if key == Key::Home {
        act is Nothing && edited(a, n, t, 0)
    } else if key == Key::End {
        act is Nothing && edited(a, n, t, t.len() as int)
    } else if key == Key::Delete {
        act is Nothing && if pos < t.len() {
            edited(a, n, spliced(t, pos, pos + 1, seq![]), pos)
        } else {
            n == a
        }
    } else if key_char(key) is Some {
        act is Nothing && edited(
            a,
            n,
            spliced(t, clamp_pos(t, pos), clamp_pos(t, pos), seq![key_char(key).unwrap()]),
            pos + 1,
        )
    } else if key == Key::Backspace {
        act is Nothing && if pos > 0 {
            edited(a, n, spliced(t, pos - 1, pos, seq![]), pos - 1)
        } else {
            n == a
        }
    } else {
        act is Nothing && n == a
    }
}

/// A key that edits text.
pub open spec fn editing_key(key: Key) -> bool {
    key == Key::Left || key == Key::Right || key == Key::Home || key == Key::End || key
        == Key::Delete || key_char(key) is Some || key == Key::Backspace
}

/// The search field: chars and Backspace edit the query (on the languages
/// screen the list follows it), Esc leaves it, Enter searches the models.
pub open spec fn search_post(a: App, n: App, key: Key, act: Action) -> bool {
    let is_models = a.screen == Screen::Models;
    if key_char(key) is Some || key == Key::Backspace {
        let edit = |q: Seq<char>|
            if key == Key::Backspace {
                popped(q)
            } else {
                q.push(key_char(key).unwrap())
            };
        act is Nothing && if is_models {
            n.models.search_query@ == edit(a.models.search_query@) && n == (App {
                models: ModelsState { search_query: n.models.search_query, ..a.models },
                ..a
            })
        } else {
            &&& n.search_query@ == edit(a.search_query@)
            &&& n.lang_filter_cache@ == filtered(a.catalog@, n.search_query@)
            &&& n == (App {
                search_query: n.search_query,
                lang_filter_cache: n.lang_filter_cache,
                ..a
            })
        }
    } else if key == Key::Esc {
        act is Nothing && if is_models {
            n == (App {
                search_active: false,
                focus: Focus::Content,
                models: ModelsState {
                    browsing: if a.models.results@.len() == 0 {
                        false
                    } else {
                        a.models.browsing
                    },
                    ..a.models
                },
                ..a
            })
        } else {
            &&& n.search_query@ == Seq::<char>::empty()
            &&& n.lang_filter_cache@ == a.catalog@
            &&& n == (App {
                search_active: false,
                focus: Focus::Content,
                search_query: n.search_query,
                lang_filter_cache: n.lang_filter_cache,
                ..a
            })
        }
    } else if key == Key::Enter {
        if is_models {
            &&& act matches Action::FetchModels(q) && q == a.models.search_query
            &&& n.task.loading_msg@ == "Fetching models…"@
            &&& n == (App {
                search_active: false,
                focus: Focus::Content,
                task: loading(a.task, n.task.loading_msg),
                ..a
            })
        } else {
            act is Nothing && n == (App { search_active: false, focus: Focus::Content, ..a })
        }
    } else {
        act is Nothing && n == a
    }
}

/// The models screen.  On the installed list: the arrows move round the
/// list, Enter configures the model, `i` browses the hub (searching it the
/// first time), `d` uninstalls, `r` refreshes.  On the hub's results: the
/// arrows move, Enter downloads, `i` goes back.
pub open spec fn models_post(a: App, n: App, key: Key, act: Action) -> bool {
    if !a.models.browsing {
        installed_post(a, n, key, act)
    } else {
        browse_post(a, n, key, act)
    }
}

/// The index of the highlighted installed model.
pub open spec fn installed_sel(a: App) -> int {
    if a.models.scroll < a.models.installed@.len() {
        a.models.scroll as int
    } else {
        a.models.installed@.len() - 1
    }
}

/// The list of installed models.
pub open spec fn installed_post(a: App, n: App, key: Key, act: Action) -> bool {
    let inst = a.models.installed@;
    let sel = installed_sel(a);
    if key == Key::Up {
        act is Nothing && if inst.len() == 0 {
            n == a
        } else {
            n == (App {
                models: ModelsState {
                    scroll: if a.models.scroll == 0 {
                        (inst.len() - 1) as usize
                    } else {
                        (a.models.scroll - 1) as usize
                    },
                    ..a.models
                },
                ..a
            })
        }
    } else if key == Key::Down {
        act is Nothing && if inst.len() == 0 {
            n == a
        } else {
            n == (App {
                models: ModelsState {
                    scroll: if a.models.scroll + 1 >= inst.len() {
                        0
                    } else {
                        (a.models.scroll + 1) as usize
                    },
                    ..a.models
                },
                ..a
            })
        }
    } else if key == Key::Enter {
        if inst.len() == 0 {
            act is Nothing && n == a
        } else {
            &&& act matches Action::ConfigureModel(r) && r == inst[sel]
            &&& n.model_repo == inst[sel]
            &&& n.task.result_text matches Some(t) && t@ == "✓ Configured: "@ + inst[sel]@
            &&& n == (App {
                model_repo: n.model_repo,
                task: TaskState {
                    result_text: n.task.result_text,
                    result_is_error: false,
                    ..a.task
                },
                ..a
            })
        }
    } else if key == Key::Char('i') || key == Key::Char('I') {
        if a.models.results@.len() == 0 {
            &&& act matches Action::FetchModels(q) && q@ == "ct2"@
            &&& n.task.loading_msg@ == "Fetching models…"@
            &&& n == (App {
                models: ModelsState { browsing: true, ..a.models },
                task: loading(TaskState { result_text: None, ..a.task }, n.task.loading_msg),
                ..a
            })
        } else {
            act is Nothing && n == (App {
                models: ModelsState { browsing: true, ..a.models },
                task: TaskState { result_text: None, ..a.task },
                ..a
            })
        }
    } else if key == Key::Char('d') || key == Key::Char('D') {
        if inst.len() == 0 {
            act is Nothing && n == a
        } else {
            &&& act matches Action::Uninstall(r) && r == inst[sel]
            &&& n.task.result_text matches Some(t) && t@ == "✓ Uninstalled: "@ + inst[sel]@
            &&& n == (App {
                task: TaskState {
                    result_text: n.task.result_text,
                    result_is_error: false,
                    ..a.task
                },
                ..a
            })
        }
    } else if key == Key::Char('r') || key == Key::Char('R') {
        act is RefreshInstalled && n == a
    } else {
        act is Nothing && n == a
    }
}

/// The hub's search results.
pub open spec fn browse_post(a: App, n: App, key: Key, act: Action) -> bool {
    let res = a.models.results@;
    if key == Key::Up {
        act is Nothing && n == (App {
            models: ModelsState {
                cursor: if a.models.cursor == 0 {
                    0
                } else {
                    (a.models.cursor - 1) as usize
                },
                ..a.models
            },
            ..a
        })
    } else if key == Key::Down {
        act is Nothing && n == (App {
            models: ModelsState {
                cursor: if a.models.cursor + 1 < res.len() {
                    (a.models.cursor + 1) as usize
                } else {
                    a.models.cursor
                },
                ..a.models
            },
            ..a
        })
    } else if key == Key::Enter {
        if res.len() == 0 || a.task.is_loading {
            act is Nothing && n == a
        } else {
            let repo = res[a.models.cursor as int].id;
            &&& act matches Action::Download(r) && r == repo
            &&& n.task.loading_msg@ == "Downloading "@ + short_repo_name(repo@) + "…"@
            &&& n == (App { task: loading(a.task, n.task.loading_msg), ..a })
        }
    } else if key == Key::Char('i') || key == Key::Char('I') {
        act is Nothing && n == (App {
            models: ModelsState { browsing: false, ..a.models },
            task: TaskState { result_text: None, ..a.task },
            ..a
        })
    } else {
        act is Nothing && n == a
    }
}

/// The completion list of the file field is open.
pub open spec fn dropdown_open(a: App) -> bool {
    a.screen == Screen::TranslateFile && a.input.active_field == 0
        && a.input.path_completions@.len() > 0
}

/// The completion list: the arrows move in it, Tab or Right take the entry,
/// Esc closes it.
pub open spec fn dropdown_post(a: App, n: App, key: Key) -> bool {
    let pc = a.input.path_completions@;
    let idx = a.input.path_completion_idx;
    if key == Key::Up {
        n == (App {
            input: InputState {
                path_completion_idx: if idx == 0 {
                    0
                } else {
                    (idx - 1) as usize
                },
                ..a.input
            },
            ..a
        })
    } else if key == Key::Down {
        n == (App {
            input: InputState {
                path_completion_idx: if idx + 1 < pc.len() {
                    (idx + 1) as usize
                } else {
                    idx
                },
                ..a.input
            },
            ..a
        })
    } else if key == Key::Tab || key == Key::Right {
        let chosen = pc[if idx < pc.len() {
            idx as int
        } else {
            pc.len() - 1
        }];
        &&& n.input.file == chosen
        &&& n.input.path_completions@.len() == 0
        &&& n == (App {
            input: InputState {
                file: n.input.file,
                cursor_pos: chosen@.len() as usize,
                path_completions: n.input.path_completions,
                ..a.input
            },
            ..a
        })
    } else {
        n.input.path_completions@.len() == 0 && n == (App {
            input: InputState { path_completions: n.input.path_completions, ..a.input },
            ..a
        })
    }
}

/// `a` with the completions of `n` when the list was open (other keys close
/// it before they act).
pub open spec fn closed_list(a: App, n: App) -> App {
    if dropdown_open(a) {
        App { input: InputState { path_completions: n.input.path_completions, ..a.input }, ..a }
    } else {
        a
    }
}

/// The translation screens once the completion list has had its say.  Tab
/// goes to the next field and resets the picker; in a language field the
/// arrows and typing work the picker and Enter takes its language; in the
/// text field keys edit, and Enter starts the translation of the text, or of
/// the file at the (trimmed) path.
pub open spec fn translate_main_post(b: App, n: App, key: Key, act: Action) -> bool {
    if key == Key::Tab {
        &&& act is Nothing
        &&& n.lang_picker.search@ == Seq::<char>::empty()
        &&& n.lang_picker.cache@ == b.catalog@
        &&& n.input.path_completions@.len() == 0
        &&& n == (App {
            input: InputState {
                active_field: ((b.input.active_field + 1) % 3) as usize,
                cursor_pos: 0,
                path_completions: n.input.path_completions,
                ..b.input
            },
            lang_picker: LangPickerState {
                cursor: 0,
                search: n.lang_picker.search,
                cache: n.lang_picker.cache,
            },
            ..b
        })
    } else if picking(b) {
        language_field_post(b, n, key, act)
    } else {
        text_field_post(b, n, key, act)
    }
}

/// A language field: the arrows move in the picker, typing filters it,
/// Enter takes the highlighted language and moves to the next field.
pub open spec fn language_field_post(b: App, n: App, key: Key, act: Action) -> bool {
    let cache = b.lang_picker.cache@;
    if key == Key::Up {
        act is Nothing && n == (App {
            lang_picker: LangPickerState {
                cursor: if b.lang_picker.cursor == 0 {
                    0
                } else {
                    (b.lang_picker.cursor - 1) as usize
                },
                ..b.lang_picker
            },
            ..b
        })
    } else if key == Key::Down {
        act is Nothing && n == (App {
            lang_picker: LangPickerState {
                cursor: if cache.len() > 0 && b.lang_picker.cursor + 1 < cache.len() {
                    (b.lang_picker.cursor + 1) as usize
                } else {
                    b.lang_picker.cursor
                },
                ..b.lang_picker
            },
            ..b
        })
    } else if key_char(key) is Some || key == Key::Backspace {
        &&& act is Nothing
        &&& n.lang_picker.search@ == if key == Key::Backspace {
            popped(b.lang_picker.search@)
        } else {
            b.lang_picker.search@.push(key_char(key).unwrap())
        }
        &&& n.lang_picker.cache@ == filtered(b.catalog@, n.lang_picker.search@)
        &&& n == (App {
            lang_picker: LangPickerState {
                cursor: 0,
                search: n.lang_picker.search,
                cache: n.lang_picker.cache,
            },
            ..b
        })
    } else if key == Key::Enter && !b.task.is_loading && cache.len() > 0 {
        let e = cache[if b.lang_picker.cursor < cache.len() {
            b.lang_picker.cursor as int
        } else {
            cache.len() - 1
        }];
        let code = if e.iso@.len() == 0 {
            e.nllb@
        } else {
            e.iso@
        };
        &&& act is Nothing
        &&& n.lang_picker.search@ == Seq::<char>::empty()
        &&& n.lang_picker.cache@ == b.catalog@
        &&& if b.input.active_field == 1 {
            n.input.source@ == code && n.input.target == b.input.target
        } else {
            n.input.target@ == code && n.input.source == b.input.source
        }
        &&& n == (App {
            input: InputState {
                source: n.input.source,
                target: n.input.target,
                active_field: ((b.input.active_field + 1) % 3) as usize,
                cursor_pos: 0,
                ..b.input
            },
            lang_picker: LangPickerState {
                cursor: 0,
                search: n.lang_picker.search,
                cache: n.lang_picker.cache,
            },
            ..b
        })
    } else {
        act is Nothing && n == b
    }
}

/// The text or file field: keys edit it, Enter starts the translation of
/// the text, or of the file at the trimmed path.
pub open spec fn text_field_post(b: App, n: App, key: Key, act: Action) -> bool {
    if editing_key(key) {
        edit_post(b, n, key, act)
    } else if key == Key::Enter && !b.task.is_loading {
        if b.screen == Screen::TranslateFile {
            let path = crate::text::trimmed(b.input.file@);
            if path.len() == 0 {
                act is Nothing && n == b
            } else {
                &&& act matches Action::Start(Task::TranslateFile { path: p, source: s, target: t })
                    && p@ == path && s@ == chosen_source(b) && t@ == chosen_target(b)
                &&& n.task.loading_msg@ == "Translating file…"@
                &&& n == (App { task: loading(b.task, n.task.loading_msg), ..b })
            }
        } else {
            if b.input.text@.len() == 0 {
                act is Nothing && n == b
            } else {
                &&& act matches Action::Start(Task::Translate { text: x, source: s, target: t })
                    && x == b.input.text && s@ == chosen_source(b) && t@ == chosen_target(b)
                &&& n.task.loading_msg@ == "Translating…"@
                &&& n == (App { task: loading(b.task, n.task.loading_msg), ..b })
            }
        }
    } else {
        act is Nothing && n == b
    }
}

/// The translation screens.
pub open spec fn translate_post(a: App, n: App, key: Key, act: Action) -> bool {
    if dropdown_open(a) && (key == Key::Up || key == Key::Down || key == Key::Tab || key
        == Key::Right || key == Key::Esc) {
        act is Nothing && dropdown_post(a, n, key)
    } else {
        &&& dropdown_open(a) ==> n.input.path_completions@.len() == 0
        &&& translate_main_post(closed_list(a, n), n, key, act)
    }
}

/// The detection screen: keys edit the text, Enter detects its language.
pub open spec fn detect_post(a: App, n: App, key: Key, act: Action) -> bool {
    if editing_key(key) {
        edit_post(a, n, key, act)
    } else if key == Key::Enter {
        if a.task.is_loading || a.input.text@.len() == 0 {
            act is Nothing && n == a
        } else {
            &&& act matches Action::Start(Task::Detect { text: x }) && x == a.input.text
            &&& n.task.loading_msg@ == "Detecting…"@
            &&& n == (App { task: loading(a.task, n.task.loading_msg), ..a })
        }
    } else {
        act is Nothing && n == a
    }
}

/// A screen's content: Esc goes back to the menu (stopping a running task
/// and leaving the hub's results), `/` opens the search of the languages and
/// models screens, other keys go to the screen.
pub open spec fn content_post(a: App, n: App, key: Key, act: Action) -> bool {
    if key == Key::Esc {
        let leave = a.screen == Screen::Models && a.models.browsing;
        &&& if a.task.pending {
            act is Abort
        } else {
            act is Nothing
        }
        &&& leave ==> n.models.results@.len() == 0
        &&& n == (App {
            models: ModelsState {
                browsing: if leave {
                    false
                } else {
                    a.models.browsing
                },
                results: if leave {
                    n.models.results
                } else {
                    a.models.results
                },
                ..a.models
            },
            task: TaskState { pending: false, result_text: None, is_loading: false, ..a.task },
            focus: Focus::Menu,
            input: InputState { cursor_pos: 0, ..a.input },
            ..a
        })
    } else if key == Key::Char('/') && (a.screen == Screen::Languages || a.screen
        == Screen::Models) {
        &&& act is Nothing
        &&& n.search_query@ == Seq::<char>::empty()
        &&& n == (App {
            models: ModelsState {
                browsing: if a.screen == Screen::Models {
                    true
                } else {
                    a.models.browsing
                },
                ..a.models
            },
            search_active: true,
            search_query: n.search_query,
            focus: Focus::Search,
            ..a
        })
    } else {
        match a.screen {
            Screen::Models => models_post(a, n, key, act),
            Screen::Languages => act is Nothing && languages_post(a, n, key),
            Screen::Config => act is Nothing && config_post(a, n, key),
            Screen::Detect => detect_post(a, n, key, act),
            _ => translate_post(a, n, key, act),
        }
    }
}

/// A key: the open dialog takes it first, `q` asks to quit, then the part
/// with the focus.
pub open spec fn key_post(a: App, n: App, key: Key, act: Action) -> bool {
    if a.quitting {
        act is Nothing && quit_post(a, n, key)
    } else if a.service_picker {
        picker_post(a, n, key, act)
    } else if key == Key::Char('q') {
        act is Nothing && n == (App { quitting: true, quit_choice: 0, ..a })
    } else {
        match a.focus {
            Focus::Menu => act is Nothing && menu_post(a, n, key),
            Focus::Content => content_post(a, n, key, act),
            Focus::Search => search_post(a, n, key, act),
        }
    }
}

/// A paste goes into the text being edited at the cursor, on the text or
/// file field of the translation screens and on the detection screen.
pub open spec fn paste_post(a: App, n: App, text: Seq<char>) -> bool {
    if a.focus == Focus::Menu || a.quitting {
        n == a
    } else if ((a.screen == Screen::TranslateText || a.screen == Screen::TranslateFile)
        && a.input.active_field == 0) || a.screen == Screen::Detect {
        let t = active_text(a);
        let p = clamp_pos(t, a.input.cursor_pos as int);
        edited(a, n, spliced(t, p, p, text), a.input.cursor_pos + text.len())
    } else {
        n == a
    }
}

/// The result text of a task marks a failure by a leading `✗`.
pub open spec fn marks_failure(t: Seq<char>) -> bool {
    t.len() > 0 && t[0] == '✗'
}

/// What an awaited outcome does: the loading ends, and the result is shown,
/// the found models listed, or the download reported (the installed list
/// then wants refreshing).  Without a task awaited nothing changes.
pub open spec fn outcome_post(a: App, n: App, o: Outcome, act: Action) -> bool {
    if !a.task.pending {
        act is Nothing && n == a
    } else {
        let t0 = TaskState { is_loading: false, pending: false, ..a.task };
        match o {
            Outcome::Text(t) => act is Nothing && n == (App {
                task: TaskState { result_is_error: marks_failure(t@), result_text: Some(t), ..t0 },
                ..a
            }),
            Outcome::Translation(t) => act is Nothing && n == (App {
                task: TaskState { result_is_error: marks_failure(t@), result_text: Some(t), ..t0 },
                ..a
            }),
            Outcome::Models(list) => act is Nothing && n == (App {
                task: t0,
                models: ModelsState { results: list, cursor: 0, browsing: true, ..a.models },
                focus: Focus::Content,
                ..a
            }),
            Outcome::DownloadDone(None) => {
                &&& act is RefreshInstalled
                &&& n.task.result_text matches Some(x) && x@ == "✓ Download complete"@
                &&& n == (App {
                    task: TaskState { result_text: n.task.result_text, result_is_error: false, ..t0 },
                    ..a
                })
            },
            Outcome::DownloadDone(Some(m)) => {
                &&& act is Nothing
                &&& n.task.result_text matches Some(x) && x@ == "✗ "@ + m@
                &&& n == (App {
                    task: TaskState { result_text: n.task.result_text, result_is_error: true, ..t0 },
                    ..a
                })
            },
            Outcome::Closed => act is Nothing && n == (App { task: t0, ..a }),
        }
    }
}

/// The hints of the footer, each a key or a plain text, for where the focus
/// is.
pub open spec fn footer_of(a: App) -> Seq<(bool, Seq<char>)> {
    match a.focus {
        Focus::Menu => seq![
            (true, "←→"@),
            (false, " navigate  "@),
            (true, "Enter"@),
            (false, " select  "@),
            (true, "q"@),
            (false, " quit"@),
        ],
        Focus::Search => seq![
            (false, "Type to filter  "@),
            (true, "Enter"@),
            (false, "=confirm  "@),
            (true, "Esc"@),
            (false, "=cancel"@),
        ],
        Focus::Content => if a.screen == Screen::Models && a.models.browsing {
            seq![
                (true, "↑↓"@),
                (false, " scroll  "@),
                (true, "Enter"@),
                (false, "=download  "@),
                (true, "/"@),
                (false, "=search  "@),
                (true, "I"@),
                (false, "=installed  "@),
                (true, "Esc"@),
                (false, "=back"@),
            ]
        } else if a.screen == Screen::Models {
            seq![
                (true, "↑↓"@),
                (false, " scroll  "@),
                (true, "Enter"@),
                (false, "=select  "@),
                (true, "I"@),
                (false, "=browse  "@),
                (true, "D"@),
                (false, "=uninstall  "@),
                (true, "R"@),
                (false, "=refresh  "@),
                (true, "Esc"@),
                (false, "=menu"@),
            ]
        } else if a.screen == Screen::TranslateText || a.screen == Screen::TranslateFile {
            if a.input.active_field == 0 {
                if a.screen == Screen::TranslateFile {
                    if a.input.path_completions@.len() > 0 {
                        seq![
                            (true, "↑↓"@),
                            (false, "=navigate  "@),
                            (true, "Tab/→"@),
                            (false, "=select  "@),
                            (true, "Esc"@),
                            (false, "=dismiss"@),
                        ]
                    } else {
                        seq![
                            (false, "Type path  "@),
                            (true, "→"@),
                            (false, "=complete  "@),
                            (true, "Tab"@),
                            (false, "=lang  "@),
                            (true, "Enter"@),
                            (false, "=translate  "@),
                            (true, "Esc"@),
                            (false, "=menu"@),
                        ]
                    }
                } else {
                    seq![
                        (false, "Type  "@),
                        (true, "Tab"@),
                        (false, "=lang  "@),
                        (true, "Enter"@),
                        (false, "=translate  "@),
                        (true, "Esc"@),
                        (false, "=menu"@),
                    ]
                }
            } else {
                seq![
                    (false, "Type to filter  "@),
                    (true, "↑↓"@),
                    (false, "=navigate  "@),
                    (true, "Enter"@),
                    (false, "=select  "@),
                    (true, "Tab"@),
                    (false, "=next  "@),
                    (true, "Esc"@),
                    (false, "=menu"@),
                ]
            }
        } else if a.screen == Screen::Config {
            seq![(true, "M"@), (false, "=select service  "@), (true, "Esc"@), (false, "=menu"@)]
        } else if a.screen == Screen::Detect {
            seq![
                (false, "Type  "@),
                (true, "Enter"@),
                (false, "=detect  "@),
                (true, "Esc"@),
                (false, "=menu"@),
            ]
        } else {
            seq![
                (true, "↑↓"@),
                (false, " scroll  "@),
                (true, "/"@),
                (false, " search  "@),
                (true, "Esc"@),
                (false, " menu"@),
            ]
        },
    }
}

/// The hints as plain values.
pub open spec fn hint_views(h: Seq<(bool, &'static str)>) -> Seq<(bool, Seq<char>)> {
    h.map_values(|x: (bool, &'static str)| (x.0, x.1@))
}

/// The right-hand side of the header: the search being typed, or the name
/// of the screen.
pub open spec fn header_status_of(a: App) -> Seq<char> {
    if a.search_active {
        "🔍 "@ + (if a.screen == Screen::Models {
            a.models.search_query@
        } else {
            a.search_query@
        }) + "  "@
    } else {
        screen_label_of(a.screen) + "  "@
    }
}

impl App {
    /// The interface as it opens: the menu on the models screen, the
    /// default languages in the translation fields, nothing installed.
    pub fn new(
        mode: TranslationMode,
        translation: TranslationConfig,
        model_repo: String,
        catalog: Vec<LanguageEntry>,
    ) -> (r: App)
        ensures
            wf(r),
            r.mode == mode,
            r.translation == translation,
            r.model_repo == model_repo,
            r.catalog == catalog,
            r.focus == Focus::Menu,
            r.menu_index == 0,
            r.screen == Screen::Models,
            !r.should_quit,
            r.search_query@ == Seq::<char>::empty(),
            !r.search_active,
            r.language_scroll == 0,
            r.lang_filter_cache@ == catalog@,
            !r.quitting,
            r.quit_choice == 0,
            !r.service_picker,
            r.service_picker_cursor == 0,
            r.input.text@ == Seq::<char>::empty(),
            r.input.source@ == translation.default_source_lang@,
            r.input.target@ == first_target(translation),
            r.input.file@ == Seq::<char>::empty(),
            r.input.active_field == 0,
            r.input.cursor_pos == 0,
            r.input.path_completions@.len() == 0,
            r.input.path_completion_idx == 0,
            r.lang_picker.cursor == 0,
            r.lang_picker.search@ == Seq::<char>::empty(),
            r.lang_picker.cache@ == catalog@,
            r.models.installed@.len() == 0,
            r.models.scroll == 0,
            !r.models.browsing,
            r.models.results@.len() == 0,
            r.models.cursor == 0,
            r.models.search_query@ == Seq::<char>::empty(),
            !r.task.is_loading,
            r.task.loading_msg@ == Seq::<char>::empty(),
            r.task.result_text is None,
            !r.task.result_is_error,
            !r.task.pending,
    {
        let source = translation.default_source_lang.clone();
        let target = first_target_exec(&translation);
        let filter_cache = copy_entries(&catalog);
        let picker_cache = copy_entries(&catalog);
        App {
            mode,
            translation,
            model_repo,
            catalog,
            focus: Focus::Menu,
            menu_index: 0,
            screen: Screen::Models,
            should_quit: false,
            search_query: String::new(),
            search_active: false,
            language_scroll: 0,
            lang_filter_cache: filter_cache,
            quitting: false,
            quit_choice: 0,
            service_picker: false,
            service_picker_cursor: 0,
            input: InputState {
                text: String::new(),
                source,
                target,
                file: String::new(),
                active_field: 0,
                cursor_pos: 0,
                path_completions: Vec::new(),
                path_completion_idx: 0,
            },
            lang_picker: LangPickerState { cursor: 0, search: String::new(), cache: picker_cache },
            models: ModelsState {
                installed: Vec::new(),
                scroll: 0,
                browsing: false,
                results: Vec::new(),
                cursor: 0,
                search_query: String::new(),
            },
            task: TaskState {
                is_loading: false,
                loading_msg: String::new(),
                result_text: None,
                result_is_error: false,
                pending: false,
            },
        }
    }

    /// The text the cursor moves in.
    fn active(&self) -> (r: &String)
        ensures
            r@ == active_text(*self),
    {
        if self.screen == Screen::TranslateFile {
            &self.input.file
        } else {
            &self.input.text
        }
    }

    fn set_active(&mut self, t: String, cursor: usize)
        ensures
            edited(*old(self), *final(self), t@, cursor as int),
    {
        if self.screen == Screen::TranslateFile {
            self.input.file = t;
        } else {
            self.input.text = t;
        }
        self.input.cursor_pos = cursor;
    }

    fn start_loading(&mut self, msg: &str)
        ensures
            final(self).task.loading_msg@ == msg@,
            *final(self) == (App {
                task: loading(old(self).task, final(self).task.loading_msg),
                ..*old(self)
            }),
    {
        self.task.is_loading = true;
        self.task.loading_msg = String::from_str(msg);
        self.task.pending = true;
    }

    fn chosen_source_exec(&self) -> (r: String)
        ensures
            r@ == chosen_source(*self),
    {
        if self.input.source.as_str().is_empty() {
            self.translation.default_source_lang.clone()
        } else {
            self.input.source.clone()
        }
    }

    fn chosen_target_exec(&self) -> (r: String)
        ensures
            r@ == chosen_target(*self),
    {
        if self.input.target.as_str().is_empty() {
            first_target_exec(&self.translation)
        } else {
            self.input.target.clone()
        }
    }

    fn edit_key(&mut self, key: Key) -> (act: Action)
        requires
            old(self).input.cursor_pos <= active_text(*old(self)).len(),
            active_text(*old(self)).len() < usize::MAX,
        ensures
            edit_post(*old(self), *final(self), key, act),
    {
        let pos = self.input.cursor_pos;
        let len = char_count(self.active());
        match key {
            Key::Left => {
                self.input.cursor_pos = if pos == 0 {
                    0
                } else {
                    pos - 1
                };
                Action::Nothing
            },
            Key::Right => {
                if pos < len {
                    self.input.cursor_pos = pos + 1;
                    Action::Nothing
                } else if self.screen == Screen::TranslateFile && self.input.active_field == 0 {
                    Action::CompletePath
                } else {
                    Action::Nothing
                }
            },
            Key::Home => {
                self.input.cursor_pos = 0;
                Action::Nothing
            },
            Key::End => {
                self.input.cursor_pos = len;
                Action::Nothing
            },
            Key::Delete => {
                if pos < len {
                    let t = splice_chars(self.active(), pos, pos + 1, &Vec::new());
                    self.set_active(t, pos);
                }
                Action::Nothing
            },
            Key::Char(c) => {
                let p = if pos < len {
                    pos
                } else {
                    len
                };
                let mut ins: Vec<char> = Vec::new();
                ins.push(c);
                let t = splice_chars(self.active(), p, p, &ins);
                self.set_active(t, pos + 1);
                Action::Nothing
            },
            Key::Backspace => {
                if pos > 0 {
                    let t = splice_chars(self.active(), pos - 1, pos, &Vec::new());
                    self.set_active(t, pos - 1);
                }
                Action::Nothing
            },
            _ => Action::Nothing,
        }
    }

    fn handle_search_key(&mut self, key: Key) -> (act: Action)
        ensures
            search_post(*old(self), *final(self), key, act),
    {
        let is_models = self.screen == Screen::Models;
        match key {
            Key::Char(c) => {
                if is_models {
                    self.models.search_query = push_char(&self.models.search_query, c);
                } else {
                    self.search_query = push_char(&self.search_query, c);
                    self.lang_filter_cache = filter_languages(&self.catalog, self.search_query.as_str());
                }
                Action::Nothing
            },
            Key::Backspace => {
                if is_models {
                    self.models.search_query = pop_char(&self.models.search_query);
                } else {
                    self.search_query = pop_char(&self.search_query);
                    self.lang_filter_cache = filter_languages(&self.catalog, self.search_query.as_str());
                }
                Action::Nothing
            },
            Key::Esc => {
                self.search_active = false;
                self.focus = Focus::Content;
                if is_models {
                    if self.models.results.len() == 0 {
                        self.models.browsing = false;
                    }
                } else {
                    self.search_query = String::new();
                    self.lang_filter_cache = copy_entries(&self.catalog);
                }
                Action::Nothing
            },
            Key::Enter => {
                self.search_active = false;
                self.focus = Focus::Content;
                if is_models {
                    let q = self.models.search_query.clone();
                    self.start_loading("Fetching models…");
                    Action::FetchModels(q)
                } else {
                    Action::Nothing
                }
            },
            _ => Action::Nothing,
        }
    }

    fn handle_models_key(&mut self, key: Key) -> (act: Action)
        requires
            old(self).models.results@.len() == 0 || old(self).models.cursor
                < old(self).models.results@.len(),
        ensures
            models_post(*old(self), *final(self), key, act),
    {
        if !self.models.browsing {
            self.installed_key(key)
        } else {
            self.browse_key(key)
        }
    }

    #[verifier::spinoff_prover]
    #[verifier::rlimit(40)]
    fn installed_key(&mut self, key: Key) -> (act: Action)
        ensures
            installed_post(*old(self), *final(self), key, act),
    {
        let len = self.models.installed.len();
        let sel = if self.models.scroll < len {
            self.models.scroll
        } else if len > 0 {
            len - 1
        } else {
            0
        };
        match key {
            Key::Up => {
                if len > 0 {
                    self.models.scroll = if self.models.scroll == 0 {
                        len - 1
                    } else {
                        self.models.scroll - 1
                    };
                }
                Action::Nothing
            },
            Key::Down => {
                if len > 0 {
                    self.models.scroll = if self.models.scroll >= len - 1 {
                        0
                    } else {
                        self.models.scroll + 1
                    };
                }
                Action::Nothing
            },
            Key::Enter => {
                if len == 0 {
                    return Action::Nothing;
                }
                let repo = self.models.installed[sel].clone();
                self.model_repo = repo.clone();
                let mut t = String::from_str("✓ Configured: ");
                t.append(repo.as_str());
                self.task.result_text = Some(t);
                self.task.result_is_error = false;
                Action::ConfigureModel(repo)
            },
            Key::Char('i') | Key::Char('I') => {
                self.models.browsing = true;
                self.task.result_text = None;
                if self.models.results.len() == 0 {
                    self.start_loading("Fetching models…");
                    Action::FetchModels(String::from_str("ct2"))
                } else {
                    Action::Nothing
                }
            },
            Key::Char('d') | Key::Char('D') => {
                if len == 0 {
                    return Action::Nothing;
                }
                let repo = self.models.installed[sel].clone();
                let mut t = String::from_str("✓ Uninstalled: ");
                t.append(repo.as_str());
                self.task.result_text = Some(t);
                self.task.result_is_error = false;
                Action::Uninstall(repo)
            },
            Key::Char('r') | Key::Char('R') => Action::RefreshInstalled,
            _ => Action::Nothing,
        }
    }

    #[verifier::spinoff_prover]
    fn browse_key(&mut self, key: Key) -> (act: Action)
        requires
            old(self).models.results@.len() == 0 || old(self).models.cursor
                < old(self).models.results@.len(),
        ensures
            browse_post(*old(self), *final(self), key, act),
    {
        let count = self.models.results.len();
        match key {
            Key::Up => {
                if self.models.cursor > 0 {
                    self.models.cursor = self.models.cursor - 1;
                }
                Action::Nothing
            },
            Key::Down => {
                if count > 0 && self.models.cursor < count - 1 {
                    self.models.cursor = self.models.cursor + 1;
                }
                Action::Nothing
            },
            Key::Enter => {
                if count == 0 || self.task.is_loading {
                    return Action::Nothing;
                }
                let repo = self.models.results[self.models.cursor].id.clone();
                let mut msg = String::from_str("Downloading ");
                let name = short_repo(repo.as_str());
                msg.append(name.as_str());
                msg.append("…");
                self.start_loading(msg.as_str());
                Action::Download(repo)
            },
            Key::Char('i') | Key::Char('I') => {
                self.models.browsing = false;
                self.task.result_text = None;
                Action::Nothing
            },
            _ => Action::Nothing,
        }
    }

    fn translate_main(&mut self, key: Key) -> (act: Action)
        requires
            old(self).input.active_field < 3,
            old(self).input.cursor_pos <= active_text(*old(self)).len(),
            active_text(*old(self)).len() < usize::MAX,
        ensures
            translate_main_post(*old(self), *final(self), key, act),
            old(self).input.path_completions@.len() == 0 ==> final(self).input.path_completions
                == old(self).input.path_completions,
    {
        if key == Key::Tab {
            self.input.active_field = (self.input.active_field + 1) % 3;
            self.input.cursor_pos = 0;
            self.lang_picker.search = String::new();
            self.lang_picker.cache = copy_entries(&self.catalog);
            self.lang_picker.cursor = 0;
            if self.input.path_completions.len() > 0 {
                self.input.path_completions = Vec::new();
            }
            Action::Nothing
        } else if self.input.active_field == 1 || self.input.active_field == 2 {
            self.language_field_key(key)
        } else {
            self.text_field_key(key)
        }
    }

    #[verifier::spinoff_prover]
    fn language_field_key(&mut self, key: Key) -> (act: Action)
        requires
            old(self).input.active_field == 1 || old(self).input.active_field == 2,
        ensures
            language_field_post(*old(self), *final(self), key, act),
            final(self).input.path_completions == old(self).input.path_completions,
    {
        let len = self.lang_picker.cache.len();
        match key {
            Key::Up => {
                if self.lang_picker.cursor > 0 {
                    self.lang_picker.cursor = self.lang_picker.cursor - 1;
                }
                Action::Nothing
            },
            Key::Down => {
                if len > 0 && self.lang_picker.cursor < len - 1 {
                    self.lang_picker.cursor = self.lang_picker.cursor + 1;
                }
                Action::Nothing
            },
            Key::Char(c) => {
                self.lang_picker.search = push_char(&self.lang_picker.search, c);
                self.lang_picker.cache = filter_languages(&self.catalog, self.lang_picker.search.as_str());
                self.lang_picker.cursor = 0;
                Action::Nothing
            },
            Key::Backspace => {
                self.lang_picker.search = pop_char(&self.lang_picker.search);
                self.lang_picker.cache = filter_languages(&self.catalog, self.lang_picker.search.as_str());
                self.lang_picker.cursor = 0;
                Action::Nothing
            },
            Key::Enter => {
                if self.task.is_loading || len == 0 {
                    return Action::Nothing;
                }
                let idx = if self.lang_picker.cursor < len {
                    self.lang_picker.cursor
                } else {
                    len - 1
                };
                let code = if self.lang_picker.cache[idx].iso.as_str().is_empty() {
                    self.lang_picker.cache[idx].nllb.clone()
                } else {
                    self.lang_picker.cache[idx].iso.clone()
                };
                if self.input.active_field == 1 {
                    self.input.source = code;
                } else {
                    self.input.target = code;
                }
                self.lang_picker.search = String::new();
                self.lang_picker.cache = copy_entries(&self.catalog);
                self.lang_picker.cursor = 0;
                self.input.active_field = (self.input.active_field + 1) % 3;
                self.input.cursor_pos = 0;
                Action::Nothing
            },
            _ => Action::Nothing,
        }
    }

    #[verifier::spinoff_prover]
    fn text_field_key(&mut self, key: Key) -> (act: Action)
        requires
            old(self).input.cursor_pos <= active_text(*old(self)).len(),
            active_text(*old(self)).len() < usize::MAX,
        ensures
            text_field_post(*old(self), *final(self), key, act),
            final(self).input.path_completions == old(self).input.path_completions,
    {
        match key {
            Key::Left | Key::Right | Key::Home | Key::End | Key::Delete | Key::Char(_)
            | Key::Backspace => self.edit_key(key),
            Key::Enter => {
                if self.task.is_loading {
                    return Action::Nothing;
                }
                if self.screen == Screen::TranslateFile {
                    let fc = chars_of(self.input.file.as_str());
                    let (x, y) = crate::text::trim_of(&fc, 0, fc.len());
                    assert(fc@.subrange(0, fc@.len() as int) =~= fc@);
                    if x == y {
                        return Action::Nothing;
                    }
                    let path = string_of(&crate::text::slice_vec(&fc, x, y));
                    let source = self.chosen_source_exec();
                    let target = self.chosen_target_exec();
                    self.start_loading("Translating file…");
                    Action::Start(Task::TranslateFile { path, source, target })
                } else {
                    if self.input.text.as_str().is_empty() {
                        return Action::Nothing;
                    }
                    let text = self.input.text.clone();
                    let source = self.chosen_source_exec();
                    let target = self.chosen_target_exec();
                    self.start_loading("Translating…");
                    Action::Start(Task::Translate { text, source, target })
                }
            },
            _ => Action::Nothing,
        }
    }

    fn handle_translate_key(&mut self, key: Key) -> (act: Action)
        requires
            old(self).input.active_field < 3,
            old(self).input.cursor_pos <= active_text(*old(self)).len(),
            active_text(*old(self)).len() < usize::MAX,
        ensures
            translate_post(*old(self), *final(self), key, act),
    {
        if self.screen == Screen::TranslateFile && self.input.active_field == 0
            && self.input.path_completions.len() > 0 {
            let count = self.input.path_completions.len();
            match key {
                Key::Up => {
                    if self.input.path_completion_idx > 0 {
                        self.input.path_completion_idx = self.input.path_completion_idx - 1;
                    }
                    return Action::Nothing;
                },
                Key::Down => {
                    if self.input.path_completion_idx < count - 1 {
                        self.input.path_completion_idx = self.input.path_completion_idx + 1;
                    }
                    return Action::Nothing;
                },
                Key::Tab | Key::Right => {
                    let i = if self.input.path_completion_idx < count {
                        self.input.path_completion_idx
                    } else {
                        count - 1
                    };
                    let f = self.input.path_completions[i].clone();
                    let n = char_count(&f);
                    self.input.file = f;
                    self.input.cursor_pos = n;
                    self.input.path_completions = Vec::new();
                    return Action::Nothing;
                },
                Key::Esc => {
                    self.input.path_completions = Vec::new();
                    return Action::Nothing;
                },
                _ => {
                    self.input.path_completions = Vec::new();
                },
            }
        }
        self.translate_main(key)
    }

    fn handle_detect_key(&mut self, key: Key) -> (act: Action)
        requires
            old(self).screen == Screen::Detect,
            old(self).input.cursor_pos <= active_text(*old(self)).len(),
            active_text(*old(self)).len() < usize::MAX,
        ensures
            detect_post(*old(self), *final(self), key, act),
    {
        match key {
            Key::Left | Key::Right | Key::Home | Key::End | Key::Delete | Key::Char(_)
            | Key::Backspace => self.edit_key(key),
            Key::Enter => {
                if self.task.is_loading || self.input.text.as_str().is_empty() {
                    return Action::Nothing;
                }
                let text = self.input.text.clone();
                self.start_loading("Detecting…");
                Action::Start(Task::Detect { text })
            },
            _ => Action::Nothing,
        }
    }

    fn handle_content_key(&mut self, key: Key) -> (act: Action)
        requires
            wf(*old(self)),
            old(self).language_scroll < usize::MAX,
            active_text(*old(self)).len() < usize::MAX,
        ensures
            content_post(*old(self), *final(self), key, act),
    {
        if key == Key::Esc {
            if self.screen == Screen::Models && self.models.browsing {
                self.models.browsing = false;
                self.models.results = Vec::new();
            }
            let act = if self.task.pending {
                Action::Abort
            } else {
                Action::Nothing
            };
            self.task.pending = false;
            self.focus = Focus::Menu;
            self.input.cursor_pos = 0;
            self.task.result_text = None;
            self.task.is_loading = false;
            return act;
        }
        if key == Key::Char('/') && (self.screen == Screen::Languages || self.screen
            == Screen::Models) {
            if self.screen == Screen::Models {
                self.models.browsing = true;
            }
            self.search_active = true;
            self.search_query = String::new();
            self.focus = Focus::Search;
            return Action::Nothing;
        }
        match self.screen {
            Screen::Models => self.handle_models_key(key),
            Screen::Languages => {
                self.handle_languages_key(key);
                Action::Nothing
            },
            Screen::Config => {
                self.handle_config_key(key);
                Action::Nothing
            },
            Screen::Detect => self.handle_detect_key(key),
            _ => self.handle_translate_key(key),
        }
    }

    /// What a key press does, and what the caller has to do next.
    pub fn handle_key(&mut self, key: Key) -> (act: Action)
        requires
            wf(*old(self)),
            old(self).language_scroll < usize::MAX,
            active_text(*old(self)).len() < usize::MAX,
        ensures
            key_post(*old(self), *final(self), key, act),
            wf(*final(self)),
    {
        if self.quitting {
            self.handle_quit_key(key);
            return Action::Nothing;
        }
        if self.service_picker {
            return self.handle_service_picker_key(key);
        }
        if key == Key::Char('q') {
            self.quitting = true;
            self.quit_choice = 0;
            return Action::Nothing;
        }
        match self.focus {
            Focus::Menu => {
                self.handle_menu_key(key);
                Action::Nothing
            },
            Focus::Content => self.handle_content_key(key),
            Focus::Search => self.handle_search_key(key),
        }
    }

    /// Puts pasted text at the cursor.
    pub fn handle_paste(&mut self, text: &str)
        requires
            wf(*old(self)),
            active_text(*old(self)).len() + text@.len() <= usize::MAX,
        ensures
            paste_post(*old(self), *final(self), text@),
            wf(*final(self)),
    {
        if self.focus == Focus::Menu || self.quitting {
            return;
        }
        if ((self.screen == Screen::TranslateText || self.screen == Screen::TranslateFile)
            && self.input.active_field == 0) || self.screen == Screen::Detect {
            let pos = self.input.cursor_pos;
            let len = char_count(self.active());
            let p = if pos < len {
                pos
            } else {
                len
            };
            let ins = chars_of(text);
            let t = splice_chars(self.active(), p, p, &ins);
            self.set_active(t, pos + ins.len());
        }
    }

    /// Takes in what a background task came back with.
    pub fn apply_outcome(&mut self, o: Outcome) -> (act: Action)
        requires
            wf(*old(self)),
        ensures
            outcome_post(*old(self), *final(self), o, act),
            wf(*final(self)),
    {
        if !self.task.pending {
            return Action::Nothing;
        }
        self.task.is_loading = false;
        self.task.pending = false;
        match o {
            Outcome::Text(t) => {
                self.task.result_is_error = starts_with_cross(&t);
                self.task.result_text = Some(t);
                Action::Nothing
            },
            Outcome::Translation(t) => {
                self.task.result_is_error = starts_with_cross(&t);
                self.task.result_text = Some(t);
                Action::Nothing
            },
            Outcome::Models(list) => {
                self.models.results = list;
                self.models.cursor = 0;
                self.models.browsing = true;
                self.focus = Focus::Content;
                Action::Nothing
            },
            Outcome::DownloadDone(None) => {
                self.task.result_text = Some(String::from_str("✓ Download complete"));
                self.task.result_is_error = false;
                Action::RefreshInstalled
            },
            Outcome::DownloadDone(Some(m)) => {
                let mut x = String::from_str("✗ ");
                x.append(m.as_str());
                self.task.result_text = Some(x);
                self.task.result_is_error = true;
                Action::Nothing
            },
            Outcome::Closed => Action::Nothing,
        }
    }

    /// The installed models, listed anew.
    pub fn refresh_installed(&mut self, installed: Vec<String>)
        requires
            wf(*old(self)),
        ensures
            *final(self) == (App {
                models: ModelsState { installed: installed, ..old(self).models },
                ..*old(self)
            }),
            wf(*final(self)),
    {
        self.models.installed = installed;
    }

    /// The installed models after an uninstall: the highlight stays within
    /// the list.
    pub fn uninstalled(&mut self, installed: Vec<String>)
        requires
            wf(*old(self)),
        ensures
            *final(self) == (App {
                models: ModelsState {
                    installed: installed,
                    scroll: if old(self).models.scroll + 1 <= installed@.len() {
                        old(self).models.scroll
                    } else if installed@.len() > 0 {
                        (installed@.len() - 1) as usize
                    } else {
                        0
                    },
                    ..old(self).models
                },
                ..*old(self)
            }),
            wf(*final(self)),
    {
        let len = installed.len();
        if self.models.scroll >= len {
            self.models.scroll = if len > 0 {
                len - 1
            } else {
                0
            };
        }
        self.models.installed = installed;
    }

    /// The directory to list for completing the typed path: its directory
    /// part, or the current directory.
    pub fn completion_dir(&self) -> (r: String)
        ensures
            r@ == if completion_split(self.input.file@).0.len() == 0 {
                "."@
            } else {
                completion_split(self.input.file@).0
            },
    {
        let (d, _) = completion_parts(self.input.file.as_str());
        if d.as_str().is_empty() {
            String::from_str(".")
        } else {
            d
        }
    }

    /// Completes the typed path from the entries (name, is a directory) of
    /// its directory: a single completion replaces the path, several open
    /// the list, sorted.
    pub fn complete_path(&mut self, entries: Vec<(String, bool)>)
        requires
            wf(*old(self)),
            old(self).screen == Screen::TranslateFile,
        ensures
            ({
                let (dir, file) = completion_split(old(self).input.file@);
                let c = candidates(dir, file, entries@);
                &&& c.len() == 0 ==> *final(self) == *old(self)
                &&& c.len() == 1 ==> final(self).input.file@ == c[0]
                    && final(self).input.path_completions@.len() == 0 && *final(self) == (App {
                    input: InputState {
                        file: final(self).input.file,
                        cursor_pos: c[0].len() as usize,
                        path_completions: final(self).input.path_completions,
                        ..old(self).input
                    },
                    ..*old(self)
                })
                &&& c.len() > 1 ==> sorted_views(views(final(self).input.path_completions@))
                    && views(final(self).input.path_completions@).to_multiset() == c.to_multiset()
                    && *final(self) == (App {
                    input: InputState {
                        path_completions: final(self).input.path_completions,
                        path_completion_idx: 0,
                        ..old(self).input
                    },
                    ..*old(self)
                })
            }),
            wf(*final(self)),
    {
        let (dir, file) = completion_parts(self.input.file.as_str());
        let found = path_candidates(dir.as_str(), file.as_str(), &entries);
        let ghost c = candidates(dir@, file@, entries@);
        proof {
            vstd::seq_lib::to_multiset_len(views(found@));
            vstd::seq_lib::to_multiset_len(c);
        }
        if found.len() == 0 {
            return;
        }
        if found.len() == 1 {
            proof {
                vstd::seq_lib::to_multiset_contains(views(found@), found@[0]@);
                assert(views(found@)[0] == found@[0]@);
                vstd::seq_lib::to_multiset_contains(c, found@[0]@);
            }
            let mut found = found;
            let f = found.remove(0);
            let n = char_count(&f);
            self.input.file = f;
            self.input.cursor_pos = n;
            self.input.path_completions = Vec::new();
            return;
        }
        self.input.path_completions = found;
        self.input.path_completion_idx = 0;
    }

    /// The hints the footer shows.
    pub fn footer_hints(&self) -> (r: Vec<(bool, &'static str)>)
        ensures
            hint_views(r@) == footer_of(*self),
    {
        let mut h: Vec<(bool, &'static str)> = Vec::new();
        match self.focus {
            Focus::Menu => {
                h.push((true, "←→"));
                h.push((false, " navigate  "));
                h.push((true, "Enter"));
                h.push((false, " select  "));
                h.push((true, "q"));
                h.push((false, " quit"));
            },
            Focus::Search => {
                h.push((false, "Type to filter  "));
                h.push((true, "Enter"));
                h.push((false, "=confirm  "));
                h.push((true, "Esc"));
                h.push((false, "=cancel"));
            },
            Focus::Content => {
                if self.screen == Screen::Models && self.models.browsing {
                    h.push((true, "↑↓"));
                    h.push((false, " scroll  "));
                    h.push((true, "Enter"));
                    h.push((false, "=download  "));
                    h.push((true, "/"));
                    h.push((false, "=search  "));
                    h.push((true, "I"));
                    h.push((false, "=installed  "));
                    h.push((true, "Esc"));
                    h.push((false, "=back"));
                } else if self.screen == Screen::Models {
                    h.push((true, "↑↓"));
                    h.push((false, " scroll  "));
                    h.push((true, "Enter"));
                    h.push((false, "=select  "));
                    h.push((true, "I"));
                    h.push((false, "=browse  "));
                    h.push((true, "D"));
                    h.push((false, "=uninstall  "));
                    h.push((true, "R"));
                    h.push((false, "=refresh  "));
                    h.push((true, "Esc"));
                    h.push((false, "=menu"));
                } else if self.screen == Screen::TranslateText || self.screen == Screen::TranslateFile {
                    if self.input.active_field == 0 {
                        if self.screen == Screen::TranslateFile {
                            if self.input.path_completions.len() > 0 {
                                h.push((true, "↑↓"));
                                h.push((false, "=navigate  "));
                                h.push((true, "Tab/→"));
                                h.push((false, "=select  "));
                                h.push((true, "Esc"));
                                h.push((false, "=dismiss"));
                            } else {
                                h.push((false, "Type path  "));
                                h.push((true, "→"));
                                h.push((false, "=complete  "));
                                h.push((true, "Tab"));
                                h.push((false, "=lang  "));
                                h.push((true, "Enter"));
                                h.push((false, "=translate  "));
                                h.push((true, "Esc"));
                                h.push((false, "=menu"));
                            }
                        } else {
                            h.push((false, "Type  "));
                            h.push((true, "Tab"));
                            h.push((false, "=lang  "));
                            h.push((true, "Enter"));
                            h.push((false, "=translate  "));
                            h.push((true, "Esc"));
                            h.push((false, "=menu"));
                        }
                    } else {
                        h.push((false, "Type to filter  "));
                        h.push((true, "↑↓"));
                        h.push((false, "=navigate  "));
                        h.push((true, "Enter"));
                        h.push((false, "=select  "));
                        h.push((true, "Tab"));
                        h.push((false, "=next  "));
                        h.push((true, "Esc"));
                        h.push((false, "=menu"));
                    }
                } else if self.screen == Screen::Config {
                    h.push((true, "M"));
                    h.push((false, "=select service  "));
                    h.push((true, "Esc"));
                    h.push((false, "=menu"));
                } else if self.screen == Screen::Detect {
                    h.push((false, "Type  "));
                    h.push((true, "Enter"));
                    h.push((false, "=detect  "));
                    h.push((true, "Esc"));
                    h.push((false, "=menu"));
                } else {
                    h.push((true, "↑↓"));
                    h.push((false, " scroll  "));
                    h.push((true, "/"));
                    h.push((false, " search  "));
                    h.push((true, "Esc"));
                    h.push((false, " menu"));
                }
            },
        }
        assert(hint_views(h@) =~= footer_of(*self));
        h
    }

    /// The right-hand side of the header.
    pub fn header_status(&self) -> (r: String)
        ensures
            r@ == header_status_of(*self),
    {
        if self.search_active {
            let mut r = String::from_str("🔍 ");
            if self.screen == Screen::Models {
                r.append(self.models.search_query.as_str());
            } else {
                r.append(self.search_query.as_str());
            }
            r.append("  ");
            r
        } else {
            let mut r = String::from_str(screen_label(self.screen));
            r.append("  ");
            r
        }
    }

    fn handle_quit_key(&mut self, key: Key)
        requires
            old(self).quit_choice < 2,
        ensures
            quit_post(*old(self), *final(self), key),
    {
        match key {
            Key::Char('y') | Key::Char('Y') => {
                self.should_quit = true;
            },
            Key::Char('n') | Key::Char('N') | Key::Esc | Key::Char('q') => {
                self.quitting = false;
            },
            Key::Tab | Key::Left | Key::Right => {
                self.quit_choice = (self.quit_choice + 1) % 2;
            },
            Key::Enter => {
                if self.quit_choice == 0 {
                    self.should_quit = true;
                } else {
                    self.quitting = false;
                }
            },
            _ => {},
        }
    }

    fn handle_service_picker_key(&mut self, key: Key) -> (act: Action)
        ensures
            picker_post(*old(self), *final(self), key, act),
    {
        let all = TranslationMode::all();
        match key {
            Key::Up => {
                if self.service_picker_cursor > 0 {
                    self.service_picker_cursor = self.service_picker_cursor - 1;
                }
                Action::Nothing
            },
            Key::Down => {
                if self.service_picker_cursor < all.len() - 1 {
                    self.service_picker_cursor = self.service_picker_cursor + 1;
                }
                Action::Nothing
            },
            Key::Enter => {
                self.mode = if self.service_picker_cursor < all.len() {
                    all[self.service_picker_cursor]
                } else {
                    TranslationMode::Ai
                };
                self.service_picker = false;
                Action::ForgetService
            },
            Key::Esc | Key::Char('q') => {
                self.service_picker = false;
                Action::Nothing
            },
            _ => Action::Nothing,
        }
    }

    fn handle_menu_key(&mut self, key: Key)
        requires
            old(self).menu_index < SCREEN_COUNT,
        ensures
            menu_post(*old(self), *final(self), key),
    {
        match key {
            Key::Left | Key::Char('k') => {
                if self.menu_index > 0 {
                    self.menu_index = self.menu_index - 1;
                }
            },
            Key::Right | Key::Char('j') | Key::Tab => {
                if self.menu_index < SCREEN_COUNT - 1 {
                    self.menu_index = self.menu_index + 1;
                }
            },
            Key::Enter => {
                self.screen = screen_for(self.menu_index);
                self.focus = Focus::Content;
                self.input.cursor_pos = 0;
                self.task.result_text = None;
                self.search_query = String::new();
                self.search_active = false;
                self.lang_filter_cache = copy_entries(&self.catalog);
                self.language_scroll = 0;
            },
            Key::Esc => {
                self.quitting = true;
                self.quit_choice = 0;
            },
            _ => {},
        }
    }

    fn handle_languages_key(&mut self, key: Key)
        requires
            old(self).language_scroll < usize::MAX,
        ensures
            languages_post(*old(self), *final(self), key),
    {
        match key {
            Key::Up => {
                if self.language_scroll > 0 {
                    self.language_scroll = self.language_scroll - 1;
                }
            },
            Key::Down => {
                self.language_scroll = self.language_scroll + 1;
            },
            _ => {},
        }
    }

    fn handle_config_key(&mut self, key: Key)
        ensures
            config_post(*old(self), *final(self), key),
    {
        if key == Key::Char('m') || key == Key::Char('M') {
            let all = TranslationMode::all();
            let mut i: usize = 0;
            assert(all_modes()[mode_index(self.mode)] == self.mode);
            assert(forall|k: int| 0 <= k < 12 ==> mode_index(#[trigger] all_modes()[k]) == k);
            while i < all.len() && all[i] != self.mode
                invariant
                    all@ == all_modes(),
                    i <= 12,
                    i <= mode_index(self.mode),
                    forall|k: int| 0 <= k < i ==> all_modes()[k] != self.mode,
                decreases 12 - i,
            {
                i = i + 1;
            }
            self.service_picker_cursor = i;
            self.service_picker = true;
        }
    }
}

// ---------------------------------------------------------------------------
// The configuration screen
// ---------------------------------------------------------------------------
/// The color a service's name is shown in.
#[derive(Clone, Copy, Debug, PartialEq, Eq, Structural)]
pub enum ServiceTone {
    Cyan,
    Green,
    White,
    Magenta,
    Yellow,
    Red,
}

/// How a piece of a screen is shown.
#[derive(Clone, Copy, Debug, PartialEq, Eq, Structural)]
pub enum Tone {
    /// Dimmed: labels and missing values.
    Muted,
    Plain,
    /// Green: a value that is set.
    Good,
    /// Yellow: the context.
    Notice,
    /// Bold, in the service's color.
    Service(ServiceTone),
}

pub open spec fn service_tone_of(m: TranslationMode) -> ServiceTone {
    match m {
        TranslationMode::Local => ServiceTone::Cyan,
        TranslationMode::Ai => ServiceTone::Green,
        TranslationMode::Google | TranslationMode::Lingva => ServiceTone::White,
        TranslationMode::LibreTranslate | TranslationMode::Bergamot => ServiceTone::Magenta,
        TranslationMode::DeepL | TranslationMode::Yandex | TranslationMode::Azure => ServiceTone::Yellow,
        TranslationMode::Baidu | TranslationMode::Youdao | TranslationMode::Qq => ServiceTone::Red,
    }
}

/// The color of a service's name.
pub fn service_tone(m: TranslationMode) -> (r: ServiceTone)
    ensures
        r == service_tone_of(m),
{
    match m {
        TranslationMode::Local => ServiceTone::Cyan,
        TranslationMode::Ai => ServiceTone::Green,
        TranslationMode::Google | TranslationMode::Lingva => ServiceTone::White,
        TranslationMode::LibreTranslate | TranslationMode::Bergamot => ServiceTone::Magenta,
        TranslationMode::DeepL | TranslationMode::Yandex | TranslationMode::Azure => ServiceTone::Yellow,
        TranslationMode::Baidu | TranslationMode::Youdao | TranslationMode::Qq => ServiceTone::Red,
    }
}

/// A line of a screen as plain values: its pieces with their tones.
pub type LineView = Seq<(Seq<char>, Tone)>;

pub open spec fn line_view(l: Seq<(String, Tone)>) -> LineView {
    l.map_values(|p: (String, Tone)| (p.0@, p.1))
}

pub open spec fn lines_view(ls: Seq<Vec<(String, Tone)>>) -> Seq<LineView> {
    ls.map_values(|l: Vec<(String, Tone)>| line_view(l@))
}

/// A section rule.
pub open spec fn rule_of(title: Seq<char>) -> LineView {
    seq![(title, Tone::Muted)]
}

/// A label and its value.
pub open spec fn field_of(label: Seq<char>, value: Seq<char>, tone: Tone) -> LineView {
    seq![(label, Tone::Muted), (value, tone)]
}

/// A secret: masked when set.
pub open spec fn secret_of(label: Seq<char>, o: Option<String>) -> LineView {
    if o is Some {
        field_of(label, "●●●●●●●●"@, Tone::Good)
    } else {
        field_of(label, "(not set)"@, Tone::Muted)
    }
}

/// The strings joined by `, `.
pub open spec fn comma_joined(s: Seq<String>) -> Seq<char>
    decreases s.len(),
{
    if s.len() == 0 {
        seq![]
    } else if s.len() == 1 {
        s[0]@
    } else {
        comma_joined(s.drop_last()) + ", "@ + s.last()@
    }
}

/// The lines about the service in use.
pub open spec fn service_section(c: Config) -> Seq<LineView> {
    match c.mode {
        TranslationMode::Ai => seq![
            rule_of(" ─── AI Settings ─────────────────────────"@),
            field_of("   Provider        "@, c.ai.provider@, Tone::Plain),
            field_of("   Model           "@, c.ai.model@, Tone::Plain),
            secret_of("   API Key         "@, c.ai.api_key),
        ],
        TranslationMode::Local => seq![
            rule_of(" ─── Local Model ─────────────────────────"@),
            field_of("   Repo            "@, c.local.model_repo@, Tone::Plain),
            field_of("   Format          "@, c.local.model_format@, Tone::Plain),
            field_of("   Compute         "@, c.local.compute_type@, Tone::Plain),
            field_of("   Beam size       "@, decimal(c.local.beam_size as nat), Tone::Plain),
            field_of(
                "   Threads         "@,
                if c.local.num_threads == 0 {
                    "auto"@
                } else {
                    decimal(c.local.num_threads as nat)
                },
                Tone::Plain,
            ),
        ],
        TranslationMode::Google => seq![
            rule_of(" ─── Google Translate ────────────────────"@),
            field_of("   API key         "@, "not required (unofficial)"@, Tone::Good),
        ],
        TranslationMode::DeepL => seq![
            rule_of(" ─── DeepL ───────────────────────────────"@),
            secret_of("   API Key         "@, c.deepl.api_key),
            field_of(
                "   Endpoint        "@,
                if c.deepl.pro {
                    "Pro"@
                } else {
                    "Free"@
                },
                Tone::Plain,
            ),
        ],
        TranslationMode::Yandex => seq![
            rule_of(" ─── Yandex Translate ────────────────────"@),
            secret_of("   API Key         "@, c.yandex.api_key),
        ] + match c.yandex.folder_id {
            Some(f) => seq![field_of("   Folder ID       "@, f@, Tone::Plain)],
            None => seq![],
        },
        TranslationMode::LibreTranslate => seq![
            rule_of(" ─── LibreTranslate ──────────────────────"@),
            field_of("   URL             "@, c.libre_translate.url@, Tone::Plain),
            if c.libre_translate.api_key is Some {
                field_of("   API Key         "@, "●●●●●●●●"@, Tone::Good)
            } else {
                field_of("   API Key         "@, "(optional)"@, Tone::Muted)
            },
        ],
        TranslationMode::Azure => seq![
            rule_of(" ─── Azure Translator ────────────────────"@),
            secret_of("   API Key         "@, c.azure.api_key),
            field_of("   Region          "@, c.azure.region@, Tone::Plain),
        ],
        TranslationMode::Bergamot => seq![
            rule_of(" ─── Bergamot ────────────────────────────"@),
            field_of("   Server URL      "@, c.bergamot.url@, Tone::Plain),
        ],
        TranslationMode::Baidu => seq![
            rule_of(" ─── Baidu Fanyi ─────────────────────────"@),
            secret_of("   App ID          "@, c.baidu.app_id),
            secret_of("   Secret Key      "@, c.baidu.secret_key),
        ],
        TranslationMode::Youdao => seq![
            rule_of(" ─── Youdao Fanyi ────────────────────────"@),
            secret_of("   App Key         "@, c.youdao.app_key),
            secret_of("   App Secret      "@, c.youdao.app_secret),
        ],
        TranslationMode::Qq => seq![
            rule_of(" ─── QQ Fanyi (Tencent) ──────────────────"@),
            secret_of("   Secret ID       "@, c.qq.secret_id),
            secret_of("   Secret Key      "@, c.qq.secret_key),
            field_of("   Region          "@, c.qq.region@, Tone::Plain),
        ],
        TranslationMode::Lingva => seq![
            rule_of(" ─── Lingva Translate ────────────────────"@),
            field_of("   Instance URL    "@, c.lingva.instance_url@, Tone::Plain),
            field_of("   API key         "@, "not required"@, Tone::Good),
        ],
    }
}

/// The configuration screen: the service (and its limit), its settings,
/// and the translation defaults.
pub open spec fn config_screen(c: Config) -> Seq<LineView> {
    seq![
        rule_of(" ─── Translation ─────────────────────────"@),
        seq![
            ("   Service         "@, Tone::Muted),
            (mode_display_name(c.mode), Tone::Service(service_tone_of(c.mode))),
            ("   (M to select)"@, Tone::Muted),
        ],
    ] + match mode_char_limit(c.mode) {
        Some(n) => seq![field_of("   Char limit      "@, decimal(n as nat), Tone::Muted)],
        None => seq![],
    } + seq![seq![(seq![], Tone::Plain)]] + service_section(c) + seq![
        seq![(seq![], Tone::Plain)],
        rule_of(" ─── Translation Defaults ────────────────"@),
        field_of("   Source          "@, c.translation.default_source_lang@, Tone::Plain),
        field_of("   Targets         "@, comma_joined(c.translation.default_target_langs@), Tone::Plain),
    ] + match c.translation.context {
        Some(x) => seq![field_of("   Context         "@, x@, Tone::Notice)],
        None => seq![],
    }
}

fn push_line(lines: &mut Vec<Vec<(String, Tone)>>, l: Vec<(String, Tone)>)
    ensures
        lines_view(final(lines)@) == lines_view(old(lines)@).push(line_view(l@)),
{
    let ghost before = lines@;
    lines.push(l);
    assert(lines_view(lines@) =~= lines_view(before).push(line_view(l@)));
}

fn rule_line(title: &str) -> (r: Vec<(String, Tone)>)
    ensures
        line_view(r@) == rule_of(title@),
{
    let mut r: Vec<(String, Tone)> = Vec::new();
    r.push((String::from_str(title), Tone::Muted));
    assert(line_view(r@) =~= rule_of(title@));
    r
}

fn field_line(label: &str, value: String, tone: Tone) -> (r: Vec<(String, Tone)>)
    ensures
        line_view(r@) == field_of(label@, value@, tone),
{
    let mut r: Vec<(String, Tone)> = Vec::new();
    r.push((String::from_str(label), Tone::Muted));
    r.push((value, tone));
    assert(line_view(r@) =~= field_of(label@, value@, tone));
    r
}

fn secret_line(label: &str, o: &Option<String>) -> (r: Vec<(String, Tone)>)
    ensures
        line_view(r@) == secret_of(label@, *o),
{
    if o.is_some() {
        field_line(label, String::from_str("●●●●●●●●"), Tone::Good)
    } else {
        field_line(label, String::from_str("(not set)"), Tone::Muted)
    }
}

fn blank_line() -> (r: Vec<(String, Tone)>)
    ensures
        line_view(r@) == seq![(Seq::<char>::empty(), Tone::Plain)],
{
    let mut r: Vec<(String, Tone)> = Vec::new();
    r.push((String::new(), Tone::Plain));
    assert(line_view(r@) =~= seq![(Seq::<char>::empty(), Tone::Plain)]);
    r
}

/// The strings joined by `, `.
pub fn join_comma(s: &Vec<String>) -> (r: String)
    ensures
        r@ == comma_joined(s@),
{
    let mut r = String::new();
    let mut k: usize = 0;
    while k < s.len()
        invariant
            k <= s@.len(),
            r@ == comma_joined(s@.take(k as int)),
        decreases s@.len() - k,
    {
        assert(s@.take(k + 1).drop_last() =~= s@.take(k as int));
        if k > 0 {
            r.append(", ");
        }
        r.append(s[k].as_str());
        k = k + 1;
    }
    assert(s@.take(s@.len() as int) =~= s@);
    r
}

fn service_lines(c: &Config, lines: &mut Vec<Vec<(String, Tone)>>)
    ensures
        lines_view(final(lines)@) == lines_view(old(lines)@) + service_section(*c),
{
    let ghost before = lines_view(lines@);
    match c.mode {
        TranslationMode::Ai => {
            push_line(lines, rule_line(" ─── AI Settings ─────────────────────────"));
            push_line(lines, field_line("   Provider        ", c.ai.provider.clone(), Tone::Plain));
            push_line(lines, field_line("   Model           ", c.ai.model.clone(), Tone::Plain));
            push_line(lines, secret_line("   API Key         ", &c.ai.api_key));
        },
        TranslationMode::Local => {
            push_line(lines, rule_line(" ─── Local Model ─────────────────────────"));
            push_line(lines, field_line("   Repo            ", c.local.model_repo.clone(), Tone::Plain));
            push_line(lines, field_line("   Format          ", c.local.model_format.clone(), Tone::Plain));
            push_line(lines, field_line("   Compute         ", c.local.compute_type.clone(), Tone::Plain));
            push_line(
                lines,
                field_line(
                    "   Beam size       ",
                    crate::text::decimal_string(c.local.beam_size as u64),
                    Tone::Plain,
                ),
            );
            let threads = if c.local.num_threads == 0 {
                String::from_str("auto")
            } else {
                crate::text::decimal_string(c.local.num_threads as u64)
            };
            push_line(lines, field_line("   Threads         ", threads, Tone::Plain));
        },
        TranslationMode::Google => {
            push_line(lines, rule_line(" ─── Google Translate ────────────────────"));
            push_line(
                lines,
                field_line("   API key         ", String::from_str("not required (unofficial)"), Tone::Good),
            );
        },
        TranslationMode::DeepL => {
            push_line(lines, rule_line(" ─── DeepL ───────────────────────────────"));
            push_line(lines, secret_line("   API Key         ", &c.deepl.api_key));
            let endpoint = if c.deepl.pro {
                String::from_str("Pro")
            } else {
                String::from_str("Free")
            };
            push_line(lines, field_line("   Endpoint        ", endpoint, Tone::Plain));
        },
        TranslationMode::Yandex => {
            push_line(lines, rule_line(" ─── Yandex Translate ────────────────────"));
            push_line(lines, secret_line("   API Key         ", &c.yandex.api_key));
            match &c.yandex.folder_id {
                Some(f) => {
                    push_line(lines, field_line("   Folder ID       ", f.clone(), Tone::Plain));
                },
                None => {},
            }
        },
        TranslationMode::LibreTranslate => {
            push_line(lines, rule_line(" ─── LibreTranslate ──────────────────────"));
            push_line(lines, field_line("   URL             ", c.libre_translate.url.clone(), Tone::Plain));
            if c.libre_translate.api_key.is_some() {
                push_line(lines, field_line("   API Key         ", String::from_str("●●●●●●●●"), Tone::Good));
            } else {
                push_line(lines, field_line("   API Key         ", String::from_str("(optional)"), Tone::Muted));
            }
        },
        TranslationMode::Azure => {
            push_line(lines, rule_line(" ─── Azure Translator ────────────────────"));
            push_line(lines, secret_line("   API Key         ", &c.azure.api_key));
            push_line(lines, field_line("   Region          ", c.azure.region.clone(), Tone::Plain));
        },
        TranslationMode::Bergamot => {
            push_line(lines, rule_line(" ─── Bergamot ────────────────────────────"));
            push_line(lines, field_line("   Server URL      ", c.bergamot.url.clone(), Tone::Plain));
        },
        TranslationMode::Baidu => {
            push_line(lines, rule_line(" ─── Baidu Fanyi ─────────────────────────"));
            push_line(lines, secret_line("   App ID          ", &c.baidu.app_id));
            push_line(lines, secret_line("   Secret Key      ", &c.baidu.secret_key));
        },
        TranslationMode::Youdao => {
            push_line(lines, rule_line(" ─── Youdao Fanyi ────────────────────────"));
            push_line(lines, secret_line("   App Key         ", &c.youdao.app_key));
            push_line(lines, secret_line("   App Secret      ", &c.youdao.app_secret));
        },
        TranslationMode::Qq => {
            push_line(lines, rule_line(" ─── QQ Fanyi (Tencent) ──────────────────"));
            push_line(lines, secret_line("   Secret ID       ", &c.qq.secret_id));
            push_line(lines, secret_line("   Secret Key      ", &c.qq.secret_key));
            push_line(lines, field_line("   Region          ", c.qq.region.clone(), Tone::Plain));
        },
        TranslationMode::Lingva => {
            push_line(lines, rule_line(" ─── Lingva Translate ────────────────────"));
            push_line(lines, field_line("   Instance URL    ", c.lingva.instance_url.clone(), Tone::Plain));
            push_line(lines, field_line("   API key         ", String::from_str("not required"), Tone::Good));
        },
    }
    assert(lines_view(lines@) =~= before + service_section(*c));
}

/// The lines of the configuration screen.
pub fn config_lines(c: &Config) -> (r: Vec<Vec<(String, Tone)>>)
    ensures
        lines_view(r@) == config_screen(*c),
{
    let mut lines: Vec<Vec<(String, Tone)>> = Vec::new();
    assert(lines_view(lines@) =~= Seq::<LineView>::empty());
    push_line(&mut lines, rule_line(" ─── Translation ─────────────────────────"));
    let mut service: Vec<(String, Tone)> = Vec::new();
    service.push((String::from_str("   Service         "), Tone::Muted));
    service.push((String::from_str(c.mode.display_name()), Tone::Service(service_tone(c.mode))));
    service.push((String::from_str("   (M to select)"), Tone::Muted));
    let ghost service_view = seq![
        ("   Service         "@, Tone::Muted),
        (mode_display_name(c.mode), Tone::Service(service_tone_of(c.mode))),
        ("   (M to select)"@, Tone::Muted),
    ];
    assert(line_view(service@) =~= service_view);
    push_line(&mut lines, service);
    let ghost part1 = seq![rule_of(" ─── Translation ─────────────────────────"@), service_view];
    assert(lines_view(lines@) =~= part1);
    let ghost limit_part = match mode_char_limit(c.mode) {
        Some(n) => seq![field_of("   Char limit      "@, decimal(n as nat), Tone::Muted)],
        None => Seq::<LineView>::empty(),
    };
    match c.mode.char_limit() {
        Some(n) => {
            push_line(
                &mut lines,
                field_line("   Char limit      ", crate::text::decimal_string(n as u64), Tone::Muted),
            );
        },
        None => {},
    }
    assert(lines_view(lines@) =~= part1 + limit_part);
    push_line(&mut lines, blank_line());
    let ghost blank = seq![(Seq::<char>::empty(), Tone::Plain)];
    assert(lines_view(lines@) =~= part1 + limit_part + seq![blank]);
    service_lines(c, &mut lines);
    let ghost part2 = part1 + limit_part + seq![blank] + service_section(*c);
    assert(lines_view(lines@) =~= part2);
    push_line(&mut lines, blank_line());
    push_line(&mut lines, rule_line(" ─── Translation Defaults ────────────────"));
    push_line(
        &mut lines,
        field_line("   Source          ", c.translation.default_source_lang.clone(), Tone::Plain),
    );
    push_line(
        &mut lines,
        field_line("   Targets         ", join_comma(&c.translation.default_target_langs), Tone::Plain),
    );
    let ghost part3 = part2 + seq![
        blank,
        rule_of(" ─── Translation Defaults ────────────────"@),
        field_of("   Source          "@, c.translation.default_source_lang@, Tone::Plain),
        field_of("   Targets         "@, comma_joined(c.translation.default_target_langs@), Tone::Plain),
    ];
    assert(lines_view(lines@) =~= part3);
    match &c.translation.context {
        Some(x) => {
            push_line(&mut lines, field_line("   Context         ", x.clone(), Tone::Notice));
        },
        None => {},
    }
    assert(lines_view(lines@) =~= config_screen(*c));
    lines
}

// ---------------------------------------------------------------------------
// Texts of the lists and fields
// ---------------------------------------------------------------------------
/// `s` padded with spaces to `w` chars (`{:<w}`).
pub open spec fn padded(s: Seq<char>, w: nat) -> Seq<char> {
    if s.len() >= w {
        s
    } else {
        s + Seq::new((w - s.len()) as nat, |i: int| ' ')
    }
}

/// A string padded with spaces to `w` chars.
pub fn pad_right(s: &str, w: usize) -> (r: String)
    ensures
        r@ == padded(s@, w as nat),
{
    let mut out = chars_of(s);
    let n = out.len();
    let mut k = n;
    while k < w
        invariant
            n == s@.len(),
            n <= k <= w || (k == n && n >= w),
            out@ == s@ + Seq::new((k - n) as nat, |i: int| ' '),
        decreases w - k,
    {
        out.push(' ');
        k = k + 1;
        assert(out@ =~= s@ + Seq::new((k - n) as nat, |i: int| ' '));
    }
    assert(n >= w ==> out@ =~= s@);
    string_of(&out)
}

/// A row of the languages screen: the ISO code (a dash when there is
/// none), the NLLB code, the English and the native names, in columns.
pub open spec fn language_row_of(e: LanguageEntry) -> Seq<char> {
    "  "@ + padded(
        if e.iso@.len() == 0 {
            "—"@
        } else {
            e.iso@
        },
        6,
    ) + " "@ + padded(e.nllb@, 26) + " "@ + padded(e.english@, 30) + " "@ + e.native@
}

/// The row of a language on the languages screen.
pub fn language_row(e: &LanguageEntry) -> (r: String)
    ensures
        r@ == language_row_of(*e),
{
    let iso = if e.iso.as_str().is_empty() {
        pad_right("—", 6)
    } else {
        pad_right(e.iso.as_str(), 6)
    };
    let mut r = String::from_str("  ");
    r.append(iso.as_str());
    r.append(" ");
    r.append(pad_right(e.nllb.as_str(), 26).as_str());
    r.append(" ");
    r.append(pad_right(e.english.as_str(), 30).as_str());
    r.append(" ");
    r.append(e.native.as_str());
    r
}

/// The row of a language in the picker: its code, English and native names.
pub open spec fn picker_row_of(e: LanguageEntry) -> Seq<char> {
    "  "@ + padded(
        if e.iso@.len() > 0 {
            e.iso@
        } else {
            e.nllb@
        },
        10,
    ) + " "@ + padded(e.english@, 30) + " "@ + e.native@
}

/// The row of a language in the picker.
pub fn picker_row(e: &LanguageEntry) -> (r: String)
    ensures
        r@ == picker_row_of(*e),
{
    let code = lang_code_display(e.iso.as_str(), e.nllb.as_str());
    let mut r = String::from_str("  ");
    r.append(pad_right(code, 10).as_str());
    r.append(" ");
    r.append(pad_right(e.english.as_str(), 30).as_str());
    r.append(" ");
    r.append(e.native.as_str());
    r
}

/// An installed model in the list: starred, and highlighted, when it is the
/// configured one.
pub fn installed_item(model: &str, configured: &str) -> (r: (String, bool))
    ensures
        r.1 == (model@ == configured@),
        r.0@ == (if model@ == configured@ {
            "★ "@
        } else {
            "  "@
        }) + model@,
{
    let is_cfg = crate::text::str_is(model, configured);
    let mut t = if is_cfg {
        String::from_str("★ ")
    } else {
        String::from_str("  ")
    };
    t.append(model);
    (t, is_cfg)
}

/// A model found on the hub: checked when it is installed.
pub fn browse_item(entry: &ModelEntry, installed: &Vec<String>) -> (r: String)
    ensures
        r@ == (if exists|k: int| 0 <= k < installed@.len() && #[trigger] installed@[k]@ == entry.id@ {
            "✓ "@
        } else {
            "  "@
        }) + entry.display@,
{
    let mut found = false;
    let mut k: usize = 0;
    while k < installed.len()
        invariant
            k <= installed@.len(),
            found == exists|j: int| 0 <= j < k && #[trigger] installed@[j]@ == entry.id@,
        decreases installed@.len() - k,
    {
        if crate::text::str_is(installed[k].as_str(), entry.id.as_str()) {
            found = true;
        }
        k = k + 1;
    }
    let mut t = if found {
        String::from_str("✓ ")
    } else {
        String::from_str("  ")
    };
    t.append(entry.display.as_str());
    t
}

/// The count of the picker's matches.
pub fn match_count(n: usize) -> (r: String)
    ensures
        r@ == "  ("@ + decimal(n as nat) + " match"@ + (if n == 1 {
            ""@
        } else {
            "es"@
        }) + ")"@,
{
    let mut r = String::from_str("  (");
    r.append(crate::text::decimal_string(n as u64).as_str());
    r.append(" match");
    if n != 1 {
        r.append("es");
    }
    r.append(")");
    proof {
        reveal_strlit("");
        assert(""@ =~= Seq::<char>::empty());
    }
    r
}

/// `t` without its leading `✗`, `✓` and spaces.
pub open spec fn without_marks(t: Seq<char>) -> Seq<char>
    decreases t.len(),
{
    if t.len() > 0 && (t[0] == '✗' || t[0] == '✓' || t[0] == ' ') {
        without_marks(t.drop_first())
    } else {
        t
    }
}

/// How a result is shown: a failure after ` ✗ `, else after a space, its
/// own leading marks dropped.
pub fn result_display(text: &str, is_error: bool) -> (r: String)
    ensures
        r@ == (if is_error {
            " ✗ "@
        } else {
            " "@
        }) + without_marks(text@),
{
    let cs = chars_of(text);
    let mut i: usize = 0;
    assert(cs@.skip(0) =~= cs@);
    while i < cs.len() && (cs[i] == '✗' || cs[i] == '✓' || cs[i] == ' ')
        invariant
            cs@ == text@,
            i <= cs@.len(),
            without_marks(text@) == without_marks(cs@.skip(i as int)),
        decreases cs@.len() - i,
    {
        assert(cs@.skip(i as int).drop_first() =~= cs@.skip(i + 1));
        i = i + 1;
    }
    let rest = crate::text::slice_vec(&cs, i, cs.len());
    assert(rest@ =~= cs@.skip(i as int));
    let mut r = if is_error {
        String::from_str(" ✗ ")
    } else {
        String::from_str(" ")
    };
    r.append(string_of(&rest).as_str());
    r
}

/// The frames of the spinner.
pub open spec fn spinner_frames() -> Seq<char> {
    seq!['⠋', '⠙', '⠹', '⠸', '⠼', '⠴', '⠦', '⠧', '⠇', '⠏']
}

/// The spinner's frame at a tick: it moves every other tick.
pub fn spinner_frame(tick: u64) -> (c: char)
    ensures
        c == spinner_frames()[((tick / 2) % 10) as int],
{
    let frames: [char; 10] = ['⠋', '⠙', '⠹', '⠸', '⠼', '⠴', '⠦', '⠧', '⠇', '⠏'];
    let i = ((tick / 2) % 10) as usize;
    assert(frames@ == spinner_frames());
    frames[i]
}

/// The column of the cursor in a field `width` columns wide inside its
/// border.
pub fn cursor_column(cursor: usize, width: usize) -> (c: usize)
    ensures
        c == if width == 0 {
            0
        } else if cursor < width - 1 {
            cursor
        } else {
            (width - 1) as usize
        },
{
    let last = if width == 0 {
        0
    } else {
        width - 1
    };
    if cursor < last {
        cursor
    } else {
        last
    }
}

/// Typing a char and then erasing it with Backspace gives back the text and
/// the cursor, on the detection screen.
pub proof fn law_type_then_erase(
    a: App,
    b: App,
    c: App,
    ch: char,
    act1: Action,
    act2: Action,
)
    requires
        wf(a),
        !a.quitting,
        !a.service_picker,
        a.focus == Focus::Content,
        a.screen == Screen::Detect,
        a.input.text@.len() < usize::MAX,
        ch != 'q',
        key_post(a, b, Key::Char(ch), act1),
        key_post(b, c, Key::Backspace, act2),
    ensures
        c.input.text@ == a.input.text@,
        c.input.cursor_pos == a.input.cursor_pos,
        act1 is Nothing,
        act2 is Nothing,
{
    let t = a.input.text@;
    let pos = a.input.cursor_pos as int;
    assert(key_char(Key::Char(ch)) == Some(ch));
    assert(clamp_pos(t, pos) == pos);
    assert(b.input.text@ == spliced(t, pos, pos, seq![ch]));
    assert(b.input.cursor_pos == pos + 1);
    assert(c.input.text@ == spliced(b.input.text@, pos, pos + 1, seq![]));
    assert(spliced(spliced(t, pos, pos, seq![ch]), pos, pos + 1, seq![]) =~= t);
}

/// On the text field of the translation screens (the text, or the file's
/// path), typing a char and then erasing it with Backspace gives back the
/// text and the cursor, when no list of path completions is open.
pub proof fn law_type_then_erase_translate(
    a: App,
    b: App,
    c: App,
    ch: char,
    act1: Action,
    act2: Action,
)
    requires
        wf(a),
        !a.quitting,
        !a.service_picker,
        a.focus == Focus::Content,
        a.screen == Screen::TranslateText || a.screen == Screen::TranslateFile,
        a.input.active_field == 0,
        a.input.path_completions@.len() == 0,
        active_text(a).len() < usize::MAX,
        ch != 'q',
        key_post(a, b, Key::Char(ch), act1),
        key_post(b, c, Key::Backspace, act2),
    ensures
        active_text(c) == active_text(a),
        c.input.cursor_pos == a.input.cursor_pos,
        c.screen == a.screen,
        act1 is Nothing,
        act2 is Nothing,
{
    let t = active_text(a);
    let pos = a.input.cursor_pos as int;
    assert(key_char(Key::Char(ch)) == Some(ch));
    assert(!dropdown_open(a));
    assert(closed_list(a, b) == a);
    assert(clamp_pos(t, pos) == pos);
    assert(active_text(b) == spliced(t, pos, pos, seq![ch]));
    assert(b.input.cursor_pos == pos + 1);
    assert(b.input.path_completions@.len() == 0);
    assert(!dropdown_open(b));
    assert(closed_list(b, c) == b);
    assert(active_text(c) == spliced(active_text(b), pos, pos + 1, seq![]));
    assert(spliced(spliced(t, pos, pos, seq![ch]), pos, pos + 1, seq![]) =~= t);
}

/// On the translation screens, Tab moves through the three fields in turn:
/// three presses come back to the field they started from, with the texts
/// unchanged and the cursor at the start.
pub proof fn law_tab_cycles_fields(
    a: App,
    b: App,
    c: App,
    d: App,
    act1: Action,
    act2: Action,
    act3: Action,
)
    requires
        wf(a),
        !a.quitting,
        !a.service_picker,
        a.focus == Focus::Content,
        a.screen == Screen::TranslateText || a.screen == Screen::TranslateFile,
        a.input.path_completions@.len() == 0,
        key_post(a, b, Key::Tab, act1),
        key_post(b, c, Key::Tab, act2),
        key_post(c, d, Key::Tab, act3),
    ensures
        b.input.active_field == (a.input.active_field + 1) % 3,
        c.input.active_field == (a.input.active_field + 2) % 3,
        d.input.active_field == a.input.active_field,
        d.input.cursor_pos == 0,
        d.input.text == a.input.text,
        d.input.file == a.input.file,
        d.screen == a.screen,
        act1 is Nothing,
        act2 is Nothing,
        act3 is Nothing,
{
    assert(!dropdown_open(a));
    assert(closed_list(a, b) == a);
    assert(!dropdown_open(b));
    assert(closed_list(b, c) == b);
    assert(!dropdown_open(c));
    assert(closed_list(c, d) == c);
}

/// `d` is `c` but for the contents of its keys and secrets, which are set
/// in `d` exactly where they are set in `c`.
pub open spec fn same_but_secrets(c: Config, d: Config) -> bool {
    &&& d == (Config {
        ai: AiConfig { api_key: d.ai.api_key, ..c.ai },
        deepl: DeepLConfig { api_key: d.deepl.api_key, ..c.deepl },
        yandex: YandexConfig { api_key: d.yandex.api_key, ..c.yandex },
        libre_translate: LibreTranslateConfig { api_key: d.libre_translate.api_key, ..c.libre_translate },
        azure: AzureConfig { api_key: d.azure.api_key, ..c.azure },
        baidu: BaiduConfig { app_id: d.baidu.app_id, secret_key: d.baidu.secret_key, ..c.baidu },
        youdao: YoudaoConfig { app_key: d.youdao.app_key, app_secret: d.youdao.app_secret, ..c.youdao },
        qq: QqConfig { secret_id: d.qq.secret_id, secret_key: d.qq.secret_key, ..c.qq },
        ..c
    })
    &&& (d.ai.api_key is Some <==> c.ai.api_key is Some)
    &&& (d.deepl.api_key is Some <==> c.deepl.api_key is Some)
    &&& (d.yandex.api_key is Some <==> c.yandex.api_key is Some)
    &&& (d.libre_translate.api_key is Some <==> c.libre_translate.api_key is Some)
    &&& (d.azure.api_key is Some <==> c.azure.api_key is Some)
    &&& (d.baidu.app_id is Some <==> c.baidu.app_id is Some)
    &&& (d.baidu.secret_key is Some <==> c.baidu.secret_key is Some)
    &&& (d.youdao.app_key is Some <==> c.youdao.app_key is Some)
    &&& (d.youdao.app_secret is Some <==> c.youdao.app_secret is Some)
    &&& (d.qq.secret_id is Some <==> c.qq.secret_id is Some)
    &&& (d.qq.secret_key is Some <==> c.qq.secret_key is Some)
}

/// The configuration screen never shows a key or a secret: two
/// configurations that differ only in what their keys and secrets hold show
/// the same lines.
pub proof fn law_config_screen_hides_secrets(c: Config, d: Config)
    requires
        same_but_secrets(c, d),
    ensures
        config_screen(c) == config_screen(d),
{
    assert(service_section(c) == service_section(d));
}

} // verus!

//! The command line: its commands, and what the commands compute between
//! reading their input and writing their output.
use crate::config::TranslationMode;
use crate::error::ZelligError;
use crate::formats::{detect_format, kind_of_path, TranslatedString};

use crate::text::{
    as_int_pairs, chars_of, sort_strings, sorted_views, views, lemma_line_spans_ok, line_spans, line_spans_of, path_extension,
    path_extension_of, path_without_extension, path_without_extension_of, push_range, string_of,
    trim_of, trim_range, trimmed, lemma_trimmed_window,
};
use vstd::prelude::*;

verus! {

/// The command line: a command and, for every command, a configuration file.
pub struct Cli {
    pub command: Commands,
    pub config: Option<String>,
}

/// The commands.
pub enum Commands {
    Translate {
        text: Option<String>,
        source: String,
        target: Vec<String>,
        input: Option<String>,
        dir: Option<String>,
        context: Option<String>,
        mode: Option<TranslationMode>,
    },
    BatchTranslate {
        input: String,
        output: Option<String>,
        source: String,
        target: Vec<String>,
        mode: Option<TranslationMode>,
        context: Option<String>,
    },
    Detect { text: String, mode: Option<TranslationMode> },
    Config { generate: bool },
    Languages,
    Tui,
    Models {
        search: Option<String>,
        download: Option<String>,
        installed: bool,
        remove: Option<String>,
    },
}

/// Where the translation of a file goes: the target language before the
/// extension, or after the name when there is none.
pub open spec fn output_path(file: Seq<char>, lang: Seq<char>) -> Seq<char> {
    match path_extension_of(file) {
        Some(ext) => path_without_extension_of(file) + "."@ + lang + "."@ + ext,
        None => file + "."@ + lang,
    }
}

pub fn make_output_path(file_path: &str, target_lang: &str) -> (r: String)
    ensures
        r@ == output_path(file_path@, target_lang@),
{
    match path_extension(file_path) {
        Some(ext) => {
            let mut r = path_without_extension(file_path);
            r.append(".");
            r.append(target_lang);
            r.append(".");
            r.append(ext.as_str());
            r
        },
        None => {
            let mut r = String::from_str(file_path);
            r.append(".");
            r.append(target_lang);
            r
        },
    }
}

/// The targets given, or the configured ones when none are.
pub fn choose_targets(target: Vec<String>, defaults: &Vec<String>) -> (r: Vec<String>)
    ensures
        target@.len() == 0 ==> r@ == defaults@,
        target@.len() > 0 ==> r@ == target@,
{
    if target.len() == 0 {
        defaults.clone()
    } else {
        target
    }
}

/// The trimmed, non-empty lines among the first `n` lines of `s`.
pub open spec fn input_lines(s: Seq<char>, n: int) -> Seq<Seq<char>>
    decreases n,
{
    if n <= 0 || n > line_spans(s).len() {
        seq![]
    } else {
        let t = trimmed(s.subrange(line_spans(s)[n - 1].0, line_spans(s)[n - 1].1));
        input_lines(s, n - 1) + if t.len() > 0 {
            seq![t]
        } else {
            seq![]
        }
    }
}

/// The texts of a batch file: its lines, trimmed, the empty ones left out.
pub fn input_texts(content: &str) -> (r: Vec<String>)
    ensures
        r@.len() == input_lines(content@, line_spans(content@).len() as int).len(),
        forall|k: int|
            0 <= k < r@.len() ==> (#[trigger] r@[k])@ == input_lines(
                content@,
                line_spans(content@).len() as int,
            )[k],
{
    let s = chars_of(content);
    let spans = line_spans_of(&s);
    proof {
        lemma_line_spans_ok(s@);
    }
    let mut out: Vec<String> = Vec::new();
    let mut k: usize = 0;
    while k < spans.len()
        invariant
            k <= spans@.len(),
            s@ == content@,
            as_int_pairs(spans@) == line_spans(s@),
            forall|j: int|
                0 <= j < line_spans(s@).len() ==> 0 <= #[trigger] line_spans(s@)[j].0
                    <= line_spans(s@)[j].1 <= s@.len(),
            out@.len() == input_lines(s@, k as int).len(),
            forall|j: int| 0 <= j < out@.len() ==> (#[trigger] out@[j])@ == input_lines(s@, k as int)[j],
        decreases spans@.len() - k,
    {
        let (a, b) = spans[k];
        assert(line_spans(s@)[k as int] == (a as int, b as int));
        assert(0 <= a <= b <= s@.len());
        let (ta, tb) = trim_of(&s, a, b);
        proof {
            lemma_trimmed_window(s@, a as int, b as int);
        }
        if ta < tb {
            let mut t: Vec<char> = Vec::new();
            push_range(&mut t, &s, ta, tb);
            let ghost before = out@;
            out.push(string_of(&t));
            assert forall|j: int| 0 <= j < out@.len() implies (#[trigger] out@[j])@ == input_lines(
                s@,
                k + 1,
            )[j] by {
                if j < before.len() {
                    assert(out@[j] == before[j]);
                }
            }
        } else {
            assert(input_lines(s@, k + 1) =~= input_lines(s@, k as int));
        }
        k = k + 1;
    }
    out
}

/// The output of a batch for one target: each result on its own line after
/// the target in brackets.
pub open spec fn batch_lines(lang: Seq<char>, results: Seq<String>) -> Seq<char>
    decreases results.len(),
{
    if results.len() == 0 {
        seq![]
    } else {
        batch_lines(lang, results.drop_last()) + "["@ + lang + "] "@ + results.last()@ + "\n"@
    }
}

pub fn batch_output_text(lang: &str, results: &[String]) -> (r: String)
    ensures
        r@ == batch_lines(lang@, results@),
{
    let mut out = String::new();
    let mut k: usize = 0;
    while k < results.len()
        invariant
            k <= results@.len(),
            out@ == batch_lines(lang@, results@.take(k as int)),
        decreases results@.len() - k,
    {
        assert(results@.take(k + 1).drop_last() =~= results@.take(k as int));
        out.append("[");
        out.append(lang);
        out.append("] ");
        out.append(results[k].as_str());
        out.append("\n");
        k = k + 1;
    }
    assert(results@.take(results@.len() as int) =~= results@);
    out
}

/// What a `translate` command works on: a directory, a file, or a text
/// given on the command line, in that order of precedence.
#[derive(Debug)]
pub enum TranslateJob {
    Dir(String),
    File(String),
    Text(String),
    Missing,
}

/// The job of a `translate` command.
pub fn translate_job(text: Option<String>, input: Option<String>, dir: Option<String>) -> (r:
    TranslateJob)
    ensures
        dir is Some ==> r == TranslateJob::Dir(dir.unwrap()),
        dir is None && input is Some ==> r == TranslateJob::File(input.unwrap()),
        dir is None && input is None && text is Some ==> r == TranslateJob::Text(text.unwrap()),
        dir is None && input is None && text is None ==> r == TranslateJob::Missing,
{
    if let Some(d) = dir {
        TranslateJob::Dir(d)
    } else if let Some(f) = input {
        TranslateJob::File(f)
    } else if let Some(t) = text {
        TranslateJob::Text(t)
    } else {
        TranslateJob::Missing
    }
}

/// The message of a `translate` command given nothing to work on.
pub fn missing_input_message() -> (r: &'static str)
    ensures
        r@ == "Provide text, --input <file>, or --dir <directory>"@,
{
    "Provide text, --input <file>, or --dir <directory>"
}

/// The error for a file whose format has no handler.
pub fn unsupported_format(path: &str) -> (e: ZelligError)
    ensures
        e matches ZelligError::ConfigError(m) && m@ == "Unsupported file format: "@ + path@,
{
    let mut m = String::from_str("Unsupported file format: ");
    m.append(path);
    ZelligError::ConfigError(m)
}

/// The texts of a batch file: its trimmed non-empty lines, or an error when
/// there are none.
pub fn batch_texts(content: &str) -> (r: Result<Vec<String>, ZelligError>)
    ensures
        input_lines(content@, line_spans(content@).len() as int).len() == 0 ==> (r matches Err(
            ZelligError::ConfigError(m),
        ) && m@ == "No texts found in input file"@),
        input_lines(content@, line_spans(content@).len() as int).len() > 0 ==> (r matches Ok(v)
            && v@.len() == input_lines(content@, line_spans(content@).len() as int).len()
            && forall|k: int|
            0 <= k < v@.len() ==> (#[trigger] v@[k])@ == input_lines(
                content@,
                line_spans(content@).len() as int,
            )[k]),
{
    let texts = input_texts(content);
    if texts.len() == 0 {
        Err(ZelligError::ConfigError(String::from_str("No texts found in input file")))
    } else {
        Ok(texts)
    }
}

/// The paths of a directory that name files of a supported format, sorted.
pub open spec fn supported(paths: Seq<String>) -> Seq<Seq<char>>
    decreases paths.len(),
{
    if paths.len() == 0 {
        seq![]
    } else if kind_of_path(paths.last()@) is Some {
        supported(paths.drop_last()).push(paths.last()@)
    } else {
        supported(paths.drop_last())
    }
}

/// The files of a directory listing that a handler can read, sorted.
pub fn supported_files(paths: Vec<String>) -> (r: Vec<String>)
    ensures
        sorted_views(views(r@)),
        views(r@).to_multiset() == supported(paths@).to_multiset(),
{
    let mut keep: Vec<String> = Vec::new();
    let mut k: usize = 0;
    while k < paths.len()
        invariant
            k <= paths@.len(),
            views(keep@) == supported(paths@.take(k as int)),
        decreases paths@.len() - k,
    {
        assert(paths@.take(k + 1).drop_last() =~= paths@.take(k as int));
        assert(paths@.take(k + 1).last() == paths@[k as int]);
        if detect_format(paths[k].as_str()).is_some() {
            let ghost before = keep@;
            keep.push(paths[k].clone());
            assert(views(keep@) =~= views(before).push(paths@[k as int]@));
        }
        k = k + 1;
    }
    assert(paths@.take(paths@.len() as int) =~= paths@);
    sort_strings(keep)
}

/// The translations of a file's strings: each id with the result at its
/// position, as far as both lists go.
pub fn pair_translations(ids: &Vec<String>, results: Vec<String>) -> (r: Vec<TranslatedString>)
    ensures
        r@.len() == if ids@.len() < results@.len() {
            ids@.len()
        } else {
            results@.len()
        },
        forall|k: int|
            0 <= k < r@.len() ==> (#[trigger] r@[k]).id == ids@[k] && r@[k].translated_text
                == results@[k],
{
    let mut r: Vec<TranslatedString> = Vec::new();
    let mut k: usize = 0;
    while k < ids.len() && k < results.len()
        invariant
            k <= ids@.len(),
            k <= results@.len(),
            r@.len() == k,
            forall|j: int|
                0 <= j < k ==> (#[trigger] r@[j]).id == ids@[j] && r@[j].translated_text
                    == results@[j],
        decreases ids@.len() - k,
    {
        r.push(TranslatedString { id: ids[k].clone(), translated_text: results[k].clone() });
        k = k + 1;
    }
    r
}

} // verus!

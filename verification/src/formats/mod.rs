//! Translatable strings, the lookup of translations, and the edit model that
//! the text-based formats rebuild their files with.
use crate::text::{
    lowercase_of, path_extension, path_extension_of, push_all, push_range, str_is, string_of,
    to_lowercase,
};
use vstd::prelude::*;

pub mod json;
pub mod markdown;
pub mod po;
pub mod toml;
pub mod tree;
pub mod xliff;
pub mod yaml;



verus! {

/// A string found in a file, with an id that locates it.
#[derive(Debug, Clone)]
pub struct TranslatableString {
    pub id: String,
    pub text: String,
    pub _context: Option<String>,
}

/// The translation of the string with the given id.
#[derive(Debug, Clone)]
pub struct TranslatedString {
    pub id: String,
    pub translated_text: String,
}

/// `r` holds the (id, text) pairs in order, each with the context `context`.
pub open spec fn strings_match(
    r: Seq<TranslatableString>,
    pairs: Seq<(Seq<char>, Seq<char>)>,
    context: Seq<char>,
) -> bool {
    &&& r.len() == pairs.len()
    &&& forall|k: int|
        0 <= k < r.len() ==> (#[trigger] r[k]).id@ == pairs[k].0 && r[k].text@ == pairs[k].1
            && r[k]._context is Some && r[k]._context.unwrap()@ == context
}

pub open spec fn pairs_view(v: Seq<(Vec<char>, Vec<char>)>) -> Seq<(Seq<char>, Seq<char>)> {
    v.map_values(|p: (Vec<char>, Vec<char>)| (p.0@, p.1@))
}

/// The pairs as translatable strings with the context `context`.
pub fn to_translatables(pairs: &Vec<(Vec<char>, Vec<char>)>, context: &str) -> (r: Vec<
    TranslatableString,
>)
    ensures
        strings_match(r@, pairs_view(pairs@), context@),
{
    let mut r: Vec<TranslatableString> = Vec::new();
    let mut k: usize = 0;
    while k < pairs.len()
        invariant
            k <= pairs@.len(),
            r@.len() == k,
            forall|j: int|
                0 <= j < k ==> (#[trigger] r@[j]).id@ == pairs_view(pairs@)[j].0 && r@[j].text@
                    == pairs_view(pairs@)[j].1 && r@[j]._context is Some
                    && r@[j]._context.unwrap()@ == context@,
        decreases pairs@.len() - k,
    {
        let id = string_of(&pairs[k].0);
        let text = string_of(&pairs[k].1);
        let ctx = String::from_str(context);
        r.push(TranslatableString { id, text, _context: Some(ctx) });
        k = k + 1;
    }
    r
}

/// The translation for `id`: the last entry of `ts` with that id, as a map
/// built from `ts` keeps it.
pub open spec fn lookup(ts: Seq<TranslatedString>, id: Seq<char>) -> Option<Seq<char>>
    decreases ts.len(),
{
    if ts.len() == 0 {
        None
    } else if ts.last().id@ == id {
        Some(ts.last().translated_text@)
    } else {
        lookup(ts.drop_last(), id)
    }
}

/// Where no two entries share an id, each entry is what `lookup` finds for
/// its id.
pub proof fn lemma_lookup_distinct(ts: Seq<TranslatedString>, k: int)
    requires
        0 <= k < ts.len(),
        forall|i: int, j: int| 0 <= i < j < ts.len() ==> (#[trigger] ts[i]).id@ != (#[trigger] ts[j]).id@,
    ensures
        lookup(ts, ts[k].id@) == Some(ts[k].translated_text@),
    decreases ts.len(),
{
    if k < ts.len() - 1 {
        let init = ts.drop_last();
        assert(ts[k] != ts.last()) by {
            assert(ts[k].id@ != ts[ts.len() - 1].id@);
        }
        assert(ts.last().id@ != ts[k].id@) by {
            assert(ts[k].id@ != ts[ts.len() - 1].id@);
        }
        assert forall|i: int, j: int| 0 <= i < j < init.len() implies (#[trigger] init[i]).id@ != (
        #[trigger] init[j]).id@ by {
            assert(init[i] == ts[i]);
            assert(init[j] == ts[j]);
        }
        assert(init[k] == ts[k]);
        lemma_lookup_distinct(init, k);
    }
}

/// The index of the entry that `lookup` finds.
pub fn find_translation(ts: &[TranslatedString], id: &String) -> (r: Option<usize>)
    ensures
        match r {
            Some(k) => k < ts@.len() && lookup(ts@, id@) == Some(ts@[k as int].translated_text@),
            None => lookup(ts@, id@) is None,
        },
{
    let mut k: usize = ts.len();
    assert(ts@.take(k as int) =~= ts@);
    while k > 0
        invariant
            k <= ts@.len(),
            lookup(ts@, id@) == lookup(ts@.take(k as int), id@),
        decreases k,
    {
        let ghost pre = ts@.take(k as int);
        assert(pre.drop_last() =~= ts@.take(k - 1));
        if ts[k - 1].id == *id {
            return Some(k - 1);
        }
        k = k - 1;
    }
    None
}

/// A replacement of the chars `[start, end)` by `text`.
pub type Edit = (int, int, Seq<char>);

/// `s` from `pos` on, with each edit's range replaced by its text.
pub open spec fn splice(s: Seq<char>, edits: Seq<Edit>, pos: int) -> Seq<char>
    decreases edits.len(),
{
    if edits.len() == 0 {
        s.subrange(pos, s.len() as int)
    } else {
        s.subrange(pos, edits[0].0) + edits[0].2 + splice(s, edits.drop_first(), edits[0].1)
    }
}

/// The edits lie in `s` after `pos`, in order, without overlapping.
pub open spec fn edits_ordered(s: Seq<char>, edits: Seq<Edit>, pos: int) -> bool {
    &&& 0 <= pos <= s.len()
    &&& forall|k: int|
        0 <= k < edits.len() ==> pos <= #[trigger] edits[k].0 <= edits[k].1 <= s.len()
    &&& forall|k: int| 0 < k < edits.len() ==> edits[k - 1].1 <= #[trigger] edits[k].0
}

/// Every edit puts back what was there.
pub open spec fn edits_identity(s: Seq<char>, edits: Seq<Edit>) -> bool {
    forall|k: int|
        0 <= k < edits.len() ==> #[trigger] edits[k].2 == s.subrange(edits[k].0, edits[k].1)
}

/// Edits that put back what was there leave the text as it was.
pub proof fn lemma_splice_identity(s: Seq<char>, edits: Seq<Edit>, pos: int)
    requires
        edits_ordered(s, edits, pos),
        edits_identity(s, edits),
    ensures
        splice(s, edits, pos) == s.subrange(pos, s.len() as int),
    decreases edits.len(),
{
    if edits.len() > 0 {
        let rest = edits.drop_first();
        assert forall|k: int| 0 <= k < rest.len() implies edits[0].1 <= #[trigger] rest[k].0 by {
            assert(rest[k] == edits[k + 1]);
            if k > 0 {
                assert(rest[k - 1] == edits[k]);
            }
            lemma_chain(edits, k + 1);
        }
        assert(edits_ordered(s, rest, edits[0].1)) by {
            assert(pos <= edits[0].0 <= edits[0].1 <= s.len());
            assert forall|k: int| 0 < k < rest.len() implies rest[k - 1].1 <= #[trigger] rest[k].0 by {
                assert(rest[k] == edits[k + 1]);
                assert(rest[k - 1] == edits[k]);
            }
            assert forall|k: int| 0 <= k < rest.len() implies edits[0].1 <= #[trigger] rest[k].0
                <= rest[k].1 <= s.len() by {
                assert(rest[k] == edits[k + 1]);
            }
        }
        assert(edits_identity(s, rest)) by {
            assert forall|k: int| 0 <= k < rest.len() implies #[trigger] rest[k].2 == s.subrange(
                rest[k].0,
                rest[k].1,
            ) by {
                assert(rest[k] == edits[k + 1]);
            }
        }
        lemma_splice_identity(s, rest, edits[0].1);
        assert(edits[0].2 == s.subrange(edits[0].0, edits[0].1));
        assert(s.subrange(pos, edits[0].0) + s.subrange(edits[0].0, edits[0].1) + s.subrange(
            edits[0].1,
            s.len() as int,
        ) =~= s.subrange(pos, s.len() as int));
    }
}

proof fn lemma_chain(edits: Seq<Edit>, k: int)
    requires
        0 < k < edits.len(),
        forall|j: int| 0 <= j < edits.len() ==> #[trigger] edits[j].0 <= edits[j].1,
        forall|j: int| 0 < j < edits.len() ==> edits[j - 1].1 <= #[trigger] edits[j].0,
    ensures
        edits[0].1 <= edits[k].0,
    decreases k,
{
    if k > 1 {
        lemma_chain(edits, k - 1);
        assert(edits[k - 1].0 <= edits[k - 1].1);
    }
}

/// The rest of ordered edits is ordered after the first one.
proof fn lemma_edits_rest(s: Seq<char>, edits: Seq<Edit>, pos: int)
    requires
        edits_ordered(s, edits, pos),
        edits.len() > 0,
    ensures
        edits_ordered(s, edits.drop_first(), edits[0].1),
{
    let rest = edits.drop_first();
    assert(pos <= edits[0].0 <= edits[0].1 <= s.len());
    assert forall|k: int| 0 <= k < rest.len() implies edits[0].1 <= #[trigger] rest[k].0 by {
        assert(rest[k] == edits[k + 1]);
        assert forall|j: int| 0 <= j < edits.len() implies #[trigger] edits[j].0 <= edits[j].1 by {}
        lemma_chain(edits, k + 1);
    }
    assert forall|k: int| 0 < k < rest.len() implies rest[k - 1].1 <= #[trigger] rest[k].0 by {
        assert(rest[k] == edits[k + 1]);
        assert(rest[k - 1] == edits[k]);
    }
    assert forall|k: int| 0 <= k < rest.len() implies edits[0].1 <= #[trigger] rest[k].0 <= rest[k].1
        <= s.len() by {
        assert(rest[k] == edits[k + 1]);
    }
}

/// Splicing ordered edits is splicing all but the last into the text that
/// the last one has already changed.
pub proof fn lemma_splice_last(s: Seq<char>, edits: Seq<Edit>, pos: int)
    requires
        edits_ordered(s, edits, pos),
        edits.len() > 0,
    ensures
        splice(s, edits, pos) == splice(
            s.take(edits.last().0) + edits.last().2 + s.skip(edits.last().1),
            edits.drop_last(),
            pos,
        ),
    decreases edits.len(),
{
    let e = edits.last();
    let r = s.take(e.0) + e.2 + s.skip(e.1);
    let e0 = edits[0];
    assert(pos <= e0.0 <= e0.1 <= s.len());
    assert(e == edits[edits.len() - 1]);
    assert(pos <= e.0 <= e.1 <= s.len());
    if edits.len() == 1 {
        assert(edits.drop_first().len() == 0);
        assert(edits.drop_last().len() == 0);
        assert(e0 == e);
        assert(splice(s, edits, pos) == s.subrange(pos, e0.0) + e0.2 + splice(
            s,
            edits.drop_first(),
            e0.1,
        ));
        assert(splice(s, edits.drop_first(), e0.1) == s.subrange(e0.1, s.len() as int));
        assert(splice(r, edits.drop_last(), pos) == r.subrange(pos, r.len() as int));
        assert(r.subrange(pos, r.len() as int) =~= s.subrange(pos, e.0) + e.2 + s.subrange(
            e.1,
            s.len() as int,
        ));
    } else {
        let rest = edits.drop_first();
        lemma_edits_rest(s, edits, pos);
        assert(rest.last() == e);
        lemma_splice_last(s, rest, e0.1);
        assert forall|j: int| 0 <= j < edits.len() implies #[trigger] edits[j].0 <= edits[j].1 by {}
        lemma_chain(edits, edits.len() - 1);
        let init = edits.drop_last();
        assert(init[0] == e0);
        assert(init.drop_first() =~= rest.drop_last());
        assert(r.subrange(pos, e0.0) =~= s.subrange(pos, e0.0));
        assert(splice(s, edits, pos) == s.subrange(pos, e0.0) + e0.2 + splice(s, rest, e0.1));
        assert(splice(r, init, pos) == r.subrange(pos, init[0].0) + init[0].2 + splice(
            r,
            init.drop_first(),
            init[0].1,
        ));
    }
}

/// An edit in executable form.
pub struct ExecEdit {
    pub start: usize,
    pub end: usize,
    pub text: Vec<char>,
}

pub open spec fn edit_view(e: ExecEdit) -> Edit {
    (e.start as int, e.end as int, e.text@)
}

pub open spec fn edits_view(es: Seq<ExecEdit>) -> Seq<Edit> {
    es.map_values(|e: ExecEdit| edit_view(e))
}

/// `s` with the (ordered) edits applied.
pub fn apply_edits(s: &[char], edits: &[ExecEdit]) -> (r: Vec<char>)
    requires
        edits_ordered(s@, edits_view(edits@), 0),
    ensures
        r@ == splice(s@, edits_view(edits@), 0),
{
    let ghost all = edits_view(edits@);
    let mut out: Vec<char> = Vec::new();
    let mut pos: usize = 0;
    let mut k: usize = 0;
    assert(all.skip(0) =~= all);
    assert(out@ + splice(s@, all.skip(0), 0) =~= splice(s@, all, 0));
    while k < edits.len()
        invariant
            all == edits_view(edits@),
            edits_ordered(s@, all, 0),
            0 <= k <= edits@.len(),
            k == 0 ==> pos == 0,
            k > 0 ==> pos as int == all[k - 1].1,
            pos <= s.len(),
            out@ + splice(s@, all.skip(k as int), pos as int) == splice(s@, all, 0),
        decreases edits.len() - k,
    {
        let e = &edits[k];
        assert(all[k as int] == edit_view(*e));
        assert(pos <= e.start) by {
            if k > 0 {
                assert(all[k as int - 1].1 <= all[k as int].0);
            }
        }
        let ghost rest = all.skip(k as int);
        assert(rest[0] == all[k as int]);
        assert(rest.drop_first() =~= all.skip(k + 1));
        push_range(&mut out, s, pos, e.start);
        push_all(&mut out, &e.text);
        pos = e.end;
        k = k + 1;
        assert(out@ + splice(s@, all.skip(k as int), pos as int) =~= splice(s@, all, 0));
    }
    push_range(&mut out, s, pos, s.len());
    assert(all.skip(k as int) =~= Seq::<Edit>::empty());
    assert(out@ =~= splice(s@, all, 0));
    out
}

// ---------------------------------------------------------------------------
// Which handler reads a file
// ---------------------------------------------------------------------------
/// The file formats, one per handler.
#[derive(Debug, Clone, Copy, PartialEq, Eq, Structural)]
pub enum FormatKind {
    Json,
    Yaml,
    Toml,
    Markdown,
    Po,
    Xliff,
}

/// The format registered for a (lower-case) extension.
pub open spec fn kind_of_extension(ext: Seq<char>) -> Option<FormatKind> {
    if ext == "json"@ {
        Some(FormatKind::Json)
    } else if ext == "yaml"@ || ext == "yml"@ {
        Some(FormatKind::Yaml)
    } else if ext == "toml"@ {
        Some(FormatKind::Toml)
    } else if ext == "md"@ || ext == "markdown"@ {
        Some(FormatKind::Markdown)
    } else if ext == "po"@ {
        Some(FormatKind::Po)
    } else if ext == "xlf"@ || ext == "xliff"@ {
        Some(FormatKind::Xliff)
    } else {
        None
    }
}

/// The format of a file: by its extension, compared without regard to case.
pub open spec fn kind_of_path(path: Seq<char>) -> Option<FormatKind> {
    match path_extension_of(path) {
        Some(e) => kind_of_extension(lowercase_of(e)),
        None => None,
    }
}

/// The extensions that have a handler, each with its format.
pub struct FormatRegistry {
    handlers: Vec<(String, FormatKind)>,
}

impl FormatRegistry {
    pub closed spec fn entries(&self) -> Seq<(Seq<char>, FormatKind)> {
        self.handlers@.map_values(|e: (String, FormatKind)| (e.0@, e.1))
    }

    /// The registry holds each extension once, with the format it names.
    pub closed spec fn well_formed(&self) -> bool {
        forall|k: int|
            0 <= k < self.handlers@.len() ==> kind_of_extension((#[trigger] self.handlers@[k]).0@)
                == Some(self.handlers@[k].1)
    }

    pub closed spec fn covers(&self) -> bool {
        forall|ext: Seq<char>|
            #[trigger] kind_of_extension(ext) is Some ==> exists|k: int|
                0 <= k < self.handlers@.len() && (#[trigger] self.handlers@[k]).0@ == ext
    }

    pub fn new() -> (r: Self)
        ensures
            r.well_formed(),
            r.covers(),
    {
        let mut handlers: Vec<(String, FormatKind)> = Vec::new();
        handlers.push((String::from_str("json"), FormatKind::Json));
        handlers.push((String::from_str("yaml"), FormatKind::Yaml));
        handlers.push((String::from_str("yml"), FormatKind::Yaml));
        handlers.push((String::from_str("toml"), FormatKind::Toml));
        handlers.push((String::from_str("md"), FormatKind::Markdown));
        handlers.push((String::from_str("markdown"), FormatKind::Markdown));
        handlers.push((String::from_str("po"), FormatKind::Po));
        handlers.push((String::from_str("xlf"), FormatKind::Xliff));
        handlers.push((String::from_str("xliff"), FormatKind::Xliff));
        let r = FormatRegistry { handlers };
        proof {
            reveal_strlit("json");
            reveal_strlit("yaml");
            reveal_strlit("yml");
            reveal_strlit("toml");
            reveal_strlit("md");
            reveal_strlit("markdown");
            reveal_strlit("po");
            reveal_strlit("xlf");
            reveal_strlit("xliff");
            assert(r.handlers@.len() == 9);
            assert("yaml"@[0] != "json"@[0]);
            assert("yml"@.len() != "json"@.len());
            assert("toml"@[0] != "json"@[0] && "toml"@[0] != "yaml"@[0]);
            assert("md"@.len() != "json"@.len() && "md"@.len() != "yaml"@.len() && "md"@.len()
                != "yml"@.len() && "md"@.len() != "toml"@.len());
            assert("markdown"@.len() != "json"@.len() && "markdown"@.len() != "yaml"@.len()
                && "markdown"@.len() != "yml"@.len() && "markdown"@.len() != "toml"@.len()
                && "markdown"@.len() != "md"@.len());
            assert("po"@[0] != "md"@[0] && "po"@.len() != "json"@.len() && "po"@.len()
                != "yaml"@.len() && "po"@.len() != "yml"@.len() && "po"@.len() != "toml"@.len()
                && "po"@.len() != "markdown"@.len());
            assert("xlf"@[0] != "yml"@[0] && "xlf"@.len() != "json"@.len() && "xlf"@.len()
                != "toml"@.len() && "xlf"@.len() != "md"@.len() && "xlf"@.len()
                != "markdown"@.len() && "xlf"@.len() != "po"@.len() && "xlf"@.len()
                != "yaml"@.len());
            assert("xliff"@.len() != "json"@.len() && "xliff"@.len() != "yaml"@.len()
                && "xliff"@.len() != "yml"@.len() && "xliff"@.len() != "toml"@.len()
                && "xliff"@.len() != "md"@.len() && "xliff"@.len() != "markdown"@.len()
                && "xliff"@.len() != "po"@.len() && "xliff"@.len() != "xlf"@.len());
            assert(kind_of_extension(r.handlers@[0].0@) == Some(r.handlers@[0].1));
            assert(kind_of_extension(r.handlers@[1].0@) == Some(r.handlers@[1].1));
            assert(kind_of_extension(r.handlers@[2].0@) == Some(r.handlers@[2].1));
            assert(kind_of_extension(r.handlers@[3].0@) == Some(r.handlers@[3].1));
            assert(kind_of_extension(r.handlers@[4].0@) == Some(r.handlers@[4].1));
            assert(kind_of_extension(r.handlers@[5].0@) == Some(r.handlers@[5].1));
            assert(kind_of_extension(r.handlers@[6].0@) == Some(r.handlers@[6].1));
            assert(kind_of_extension(r.handlers@[7].0@) == Some(r.handlers@[7].1));
            assert(kind_of_extension(r.handlers@[8].0@) == Some(r.handlers@[8].1));
        }
        assert forall|ext: Seq<char>| #[trigger] kind_of_extension(ext) is Some implies exists|k: int|
            0 <= k < r.handlers@.len() && (#[trigger] r.handlers@[k]).0@ == ext by {
            if ext == "json"@ {
                assert(r.handlers@[0].0@ == ext);
            } else if ext == "yaml"@ {
                assert(r.handlers@[1].0@ == ext);
            } else if ext == "yml"@ {
                assert(r.handlers@[2].0@ == ext);
            } else if ext == "toml"@ {
                assert(r.handlers@[3].0@ == ext);
            } else if ext == "md"@ {
                assert(r.handlers@[4].0@ == ext);
            } else if ext == "markdown"@ {
                assert(r.handlers@[5].0@ == ext);
            } else if ext == "po"@ {
                assert(r.handlers@[6].0@ == ext);
            } else if ext == "xlf"@ {
                assert(r.handlers@[7].0@ == ext);
            } else {
                assert(r.handlers@[8].0@ == ext);
            }
        }
        r
    }

    /// The format of the file at `path`.
    pub fn get_handler(&self, path: &str) -> (r: Option<FormatKind>)
        requires
            self.well_formed(),
            self.covers(),
        ensures
            r == kind_of_path(path@),
    {
        let ext = match path_extension(path) {
            Some(e) => e,
            None => {
                return None;
            },
        };
        assert(path_extension_of(path@) == Some(ext@));
        let lower = to_lowercase(ext.as_str());
        assert(kind_of_path(path@) == kind_of_extension(lower@));
        let mut k: usize = 0;
        while k < self.handlers.len()
            invariant
                k <= self.handlers@.len(),
                self.well_formed(),
                self.covers(),
                kind_of_path(path@) == kind_of_extension(lower@),
                forall|j: int| 0 <= j < k ==> (#[trigger] self.handlers@[j]).0@ != lower@,
            decreases self.handlers@.len() - k,
        {
            if str_is(self.handlers[k].0.as_str(), lower.as_str()) {
                assert(kind_of_extension(self.handlers@[k as int].0@) == Some(self.handlers@[k as int].1));
                return Some(self.handlers[k].1);
            }
            k = k + 1;
        }
        assert(kind_of_extension(lower@) is None);
        None
    }
}

impl Default for FormatRegistry {
    fn default() -> (r: Self)
        ensures
            r.well_formed(),
            r.covers(),
    {
        FormatRegistry::new()
    }
}

/// The format of the file at `path`, as a fresh registry finds it.
pub fn detect_format(path: &str) -> (r: Option<FormatKind>)
    ensures
        r == kind_of_path(path@),
{
    let reg = FormatRegistry::new();
    reg.get_handler(path)
}

} // verus!

//! Models of the local translator: their cache directories, the search that
//! pages through a model hub, and how a model is listed.
use crate::text::{
    blen, char_at_byte, char_index_at_byte, chars_of, is_boundary, push_all, push_range,
    replace_pair, replace_pair_of, starts_with, str_is, string_of,
};
use crate::error::ZelligError;
use crate::formats::toml::{parse_toml, toml_doc_of, toml_text_of, write_toml};
use crate::formats::tree::{
    entries_view, key_index, key_position, lemma_entries_view, lemma_entries_view_update,
    set_entry, with_entry, JsonNode, JsonValue,
};
use vstd::prelude::*;

verus! {

pub open spec fn cache_prefix() -> Seq<char> {
    seq!['m', 'o', 'd', 'e', 'l', 's', '-', '-']
}

/// The repository that a cache directory holds: the name after `models--`,
/// each `--` read as `/`.
pub open spec fn model_of_dir(dir: Seq<char>) -> Option<Seq<char>> {
    if starts_with(dir, cache_prefix()) {
        Some(replace_pair(dir.skip(8), '-', '-', '/'))
    } else {
        None
    }
}

pub fn parse_model_dir(dir_name: &str) -> (r: Option<String>)
    ensures
        match r {
            Some(m) => model_of_dir(dir_name@) == Some(m@),
            None => model_of_dir(dir_name@) is None,
        },
{
    let d = chars_of(dir_name);
    let p = chars_of("models--");
    assert(p@ =~= cache_prefix()) by {
        reveal_strlit("models--");
    }
    if d.len() < 8 {
        assert(!starts_with(dir_name@, cache_prefix()));
        return None;
    }
    let mut k: usize = 0;
    while k < 8
        invariant
            k <= 8,
            d@.len() >= 8,
            d@ == dir_name@,
            p@ == cache_prefix(),
            forall|j: int| 0 <= j < k ==> d@[j] == p@[j],
        decreases 8 - k,
    {
        if d[k] != p[k] {
            assert(d@.take(8)[k as int] != cache_prefix()[k as int]);
            return None;
        }
        k = k + 1;
    }
    assert(d@.take(8) =~= cache_prefix());
    let mut rest: Vec<char> = Vec::new();
    push_range(&mut rest, &d, 8, d.len());
    assert(rest@ =~= d@.skip(8));
    let m = replace_pair_of(&rest, '-', '-', '/');
    Some(string_of(&m))
}

/// Each `/` written as `--`.
pub open spec fn slashes_as_dashes(s: Seq<char>) -> Seq<char>
    decreases s.len(),
{
    if s.len() == 0 {
        seq![]
    } else {
        (if s[0] == '/' {
            seq!['-', '-']
        } else {
            seq![s[0]]
        }) + slashes_as_dashes(s.drop_first())
    }
}

/// The cache directory of a repository.
pub open spec fn dir_of_model(repo: Seq<char>) -> Seq<char> {
    cache_prefix() + slashes_as_dashes(repo)
}

pub fn model_dir_name(repo: &str) -> (r: String)
    ensures
        r@ == dir_of_model(repo@),
{
    let s = chars_of(repo);
    let mut out = chars_of("models--");
    assert(out@ =~= cache_prefix()) by {
        reveal_strlit("models--");
    }
    let mut i: usize = 0;
    assert(s@.skip(0) =~= s@);
    while i < s.len()
        invariant
            i <= s@.len(),
            s@ == repo@,
            out@ + slashes_as_dashes(s@.skip(i as int)) == dir_of_model(repo@),
        decreases s@.len() - i,
    {
        let ghost before = out@;
        assert(s@.skip(i as int).drop_first() =~= s@.skip(i + 1));
        if s[i] == '/' {
            out.push('-');
            out.push('-');
        } else {
            out.push(s[i]);
        }
        i = i + 1;
        assert(out@ + slashes_as_dashes(s@.skip(i as int)) =~= before + slashes_as_dashes(
            s@.skip(i - 1),
        ));
    }
    assert(s@.skip(i as int) =~= Seq::<char>::empty());
    assert(out@ =~= dir_of_model(repo@));
    string_of(&out)
}

/// A repository whose cache name reads back: no `-` is followed by `-` or `/`,
/// and no `/` by `-`.
pub open spec fn plain_repo(r: Seq<char>) -> bool {
    forall|i: int|
        0 <= i < r.len() - 1 ==> (#[trigger] r[i] == '-' ==> r[i + 1] != '-' && r[i + 1] != '/')
            && (r[i] == '/' ==> r[i + 1] != '-')
}

proof fn lemma_dashes_read_back(r: Seq<char>)
    requires
        plain_repo(r),
    ensures
        replace_pair(slashes_as_dashes(r), '-', '-', '/') == r,
    decreases r.len(),
{
    if r.len() > 0 {
        let rest = r.drop_first();
        assert(plain_repo(rest)) by {
            assert forall|i: int| 0 <= i < rest.len() - 1 implies (#[trigger] rest[i] == '-'
                ==> rest[i + 1] != '-' && rest[i + 1] != '/') && (rest[i] == '/' ==> rest[i + 1]
                != '-') by {
                assert(rest[i] == r[i + 1] && rest[i + 1] == r[i + 2]);
                assert(r[i + 1] == '-' ==> r[i + 2] != '-' && r[i + 2] != '/');
            }
        }
        lemma_dashes_read_back(rest);
        let x = slashes_as_dashes(rest);
        if r[0] == '/' {
            let s = seq!['-', '-'] + x;
            assert(s.subrange(2, s.len() as int) =~= x);
            assert(r =~= seq!['/'] + rest);
        } else {
            let s = seq![r[0]] + x;
            if s.len() >= 2 {
                assert(s.subrange(1, s.len() as int) =~= x);
                if r[0] == '-' {
                    assert(r[0] == '-' ==> r[1] != '-' && r[1] != '/');
                    assert(rest[0] == r[1]);
                    assert(x[0] != '-') by {
                        assert(slashes_as_dashes(rest) == (if rest[0] == '/' {
                            seq!['-', '-']
                        } else {
                            seq![rest[0]]
                        }) + slashes_as_dashes(rest.drop_first()));
                    }
                }
            }
            assert(r =~= seq![r[0]] + rest);
        }
    }
}

/// A plain repository's cache directory names it again.
pub proof fn law_model_dir_round_trip(repo: Seq<char>)
    requires
        plain_repo(repo),
    ensures
        model_of_dir(dir_of_model(repo)) == Some(repo),
{
    let d = dir_of_model(repo);
    assert(d.take(8) =~= cache_prefix());
    assert(d.skip(8) =~= slashes_as_dashes(repo));
    lemma_dashes_read_back(repo);
}

/// The configuration file: the one named on the command line, else
/// `zellig.toml` if it exists, else `zelling.toml` if that exists, else
/// `zellig.toml`.
pub fn resolve_config_path(config_flag: Option<&str>, zellig_exists: bool, zelling_exists: bool) -> (r: String)
    ensures
        r@ == match config_flag {
            Some(p) => p@,
            None => if !zellig_exists && zelling_exists {
                "zelling.toml"@
            } else {
                "zellig.toml"@
            },
        },
{
    match config_flag {
        Some(p) => String::from_str(p),
        None => {
            if zellig_exists {
                String::from_str("zellig.toml")
            } else if zelling_exists {
                String::from_str("zelling.toml")
            } else {
                String::from_str("zellig.toml")
            }
        },
    }
}

/// The query a search sends: `ct2` when none is given.
pub fn effective_search(search: &str) -> (r: &str)
    ensures
        r@ == if search@.len() == 0 {
            "ct2"@
        } else {
            search@
        },
{
    if search.is_empty() {
        "ct2"
    } else {
        search
    }
}

// ---------------------------------------------------------------------------
// Paging through the hub
// ---------------------------------------------------------------------------
/// The ids seen after the first `n` ids of a page, as a set of ids that keeps
/// the order of insertion.
pub open spec fn seen_after(seen: Seq<Seq<char>>, ids: Seq<Seq<char>>, n: int) -> Seq<Seq<char>>
    decreases n,
{
    if n <= 0 || n > ids.len() {
        seen
    } else {
        let s = seen_after(seen, ids, n - 1);
        if s.contains(ids[n - 1]) {
            s
        } else {
            s.push(ids[n - 1])
        }
    }
}

pub open spec fn strings_view(v: Seq<String>) -> Seq<Seq<char>> {
    v.map_values(|s: String| s@)
}

/// A search through the hub, 50 models a page, at most 10 pages; each model
/// is kept the first time it is seen.
pub struct ModelPager {
    offset: usize,
    seen: Vec<String>,
    done: bool,
}

impl ModelPager {
    pub closed spec fn offset_view(&self) -> nat {
        self.offset as nat
    }

    pub closed spec fn seen_view(&self) -> Seq<Seq<char>> {
        strings_view(self.seen@)
    }

    pub closed spec fn done_view(&self) -> bool {
        self.done
    }

    pub closed spec fn inv(&self) -> bool {
        self.offset < 500 && self.offset % 50 == 0 && self.seen_view().no_duplicates()
    }

    pub fn new() -> (r: Self)
        ensures
            r.inv(),
            r.offset_view() == 0,
            r.seen_view().len() == 0,
            !r.done_view(),
    {
        let r = ModelPager { offset: 0, seen: Vec::new(), done: false };
        assert(r.seen_view() =~= Seq::<Seq<char>>::empty());
        r
    }

    /// The offset of the next page to fetch, or `None` when the search is
    /// over.
    pub fn next_offset(&self) -> (r: Option<usize>)
        ensures
            r == if self.done_view() {
                None
            } else {
                Some(self.offset_view() as usize)
            },
    {
        if self.done {
            None
        } else {
            Some(self.offset)
        }
    }

    /// Takes in a page of model ids: which of them to keep, and whether to
    /// go on.
    pub fn add_page(&mut self, ids: &[String]) -> (keep: Vec<bool>)
        requires
            old(self).inv(),
            !old(self).done_view(),
        ensures
            final(self).inv() || final(self).done_view(),
            keep@.len() == ids@.len(),
            forall|k: int|
                0 <= k < ids@.len() ==> keep@[k] == !seen_after(
                    old(self).seen_view(),
                    strings_view(ids@),
                    k,
                ).contains(ids@[k]@),
            final(self).seen_view() == seen_after(
                old(self).seen_view(),
                strings_view(ids@),
                ids@.len() as int,
            ),
            final(self).seen_view().no_duplicates(),
            final(self).done_view() == (ids@.len() < 50 || old(self).offset_view() + 50 >= 500),
            !final(self).done_view() ==> final(self).offset_view() == old(self).offset_view() + 50,
    {
        let ghost ids_v = strings_view(ids@);
        let ghost seen0 = self.seen_view();
        let mut keep: Vec<bool> = Vec::new();
        let mut k: usize = 0;
        while k < ids.len()
            invariant
                k <= ids@.len(),
                ids_v == strings_view(ids@),
                self.seen_view() == seen_after(seen0, ids_v, k as int),
                self.seen_view().no_duplicates(),
                self.offset == old(self).offset,
                self.done == old(self).done,
                keep@.len() == k,
                forall|j: int|
                    0 <= j < k ==> keep@[j] == !seen_after(seen0, ids_v, j).contains(ids_v[j]),
            decreases ids@.len() - k,
        {
            let mut found = false;
            let mut j: usize = 0;
            while j < self.seen.len()
                invariant
                    j <= self.seen@.len(),
                    k < ids@.len(),
                    !found ==> forall|i: int| 0 <= i < j ==> self.seen_view()[i] != ids@[k as int]@,
                    found ==> self.seen_view().contains(ids@[k as int]@),
                decreases self.seen@.len() - j,
            {
                if str_is(self.seen[j].as_str(), ids[k].as_str()) {
                    found = true;
                    assert(self.seen_view()[j as int] == ids@[k as int]@);
                }
                j = j + 1;
            }
            assert(ids_v[k as int] == ids@[k as int]@);
            let ghost before = self.seen_view();
            if !found {
                self.seen.push(ids[k].clone());
                assert(self.seen_view() =~= before.push(ids_v[k as int]));
            }
            keep.push(!found);
            k = k + 1;
        }
        if ids.len() < 50 || self.offset + 50 >= 500 {
            self.done = true;
        } else {
            self.offset = self.offset + 50;
        }
        keep
    }
}

// ---------------------------------------------------------------------------
// Listing models
// ---------------------------------------------------------------------------
/// How a model id is shown in a list of 49 columns: cut to its first 47
/// bytes and `..` when longer than 49 bytes, else padded with spaces.
pub open spec fn shown_model_id(id: Seq<char>) -> Seq<char> {
    if blen(id) > 49 {
        id.take(char_at_byte(id, 47)) + ".."@
    } else if id.len() < 49 {
        id + Seq::new((49 - id.len()) as nat, |i: int| ' ')
    } else {
        id
    }
}

/// A model id as the list shows it.  Cutting it must fall between chars.
pub fn display_model_id(id: &str) -> (r: String)
    requires
        blen(id@) <= usize::MAX,
        blen(id@) > 49 ==> is_boundary(id@, 47),
    ensures
        r@ == shown_model_id(id@),
{
    let s = chars_of(id);
    if id.len() > 49 {
        let cut = char_index_at_byte(&s, 47);
        let c = match cut {
            Some(c) => c,
            None => {
                assert(false);
                0
            },
        };
        let mut out: Vec<char> = Vec::new();
        push_range(&mut out, &s, 0, c);
        let dots = chars_of("..");
        push_all(&mut out, &dots);
        return string_of(&out);
    }
    let mut out: Vec<char> = Vec::new();
    push_all(&mut out, &s);
    let mut k = s.len();
    while k < 49
        invariant
            s@.len() <= k <= 49 || (k == s@.len() && k >= 49),
            out@ == s@ + Seq::new((k - s@.len()) as nat, |i: int| ' '),
        decreases 49 - k,
    {
        out.push(' ');
        k = k + 1;
        assert(out@ =~= s@ + Seq::new((k - s@.len()) as nat, |i: int| ' '));
    }
    assert(s@.len() >= 49 ==> out@ =~= s@);
    string_of(&out)
}

/// How a model is marked in a list.
#[derive(Debug, Clone, Copy, PartialEq, Eq, Structural)]
pub enum ModelMarker {
    Active,
    Installed,
    Plain,
}

pub fn model_marker(id: &str, active_model: &str, installed: bool) -> (r: ModelMarker)
    ensures
        r == if id@ == active_model@ {
            ModelMarker::Active
        } else if installed {
            ModelMarker::Installed
        } else {
            ModelMarker::Plain
        },
{
    if str_is(id, active_model) {
        ModelMarker::Active
    } else if installed {
        ModelMarker::Installed
    } else {
        ModelMarker::Plain
    }
}


// ---------------------------------------------------------------------------
// Recording the model in the configuration
// ---------------------------------------------------------------------------
/// The configuration document with `local.model_repo` set to the model and
/// `local.model_format` to `ct2`; `None` when the document is not a table.
/// A `local` entry that is not a table is left as it is.
pub open spec fn model_doc(root: JsonValue, repo: Seq<char>) -> Option<JsonValue> {
    match root {
        JsonValue::Object(es) => {
            let local = match key_index(es, "local"@, 0) {
                Some(i) => es[i].1,
                None => JsonValue::Object(seq![]),
            };
            match local {
                JsonValue::Object(ls) => Some(
                    JsonValue::Object(
                        with_entry(
                            es,
                            "local"@,
                            JsonValue::Object(
                                with_entry(
                                    with_entry(ls, "model_repo"@, JsonValue::Str(repo)),
                                    "model_format"@,
                                    JsonValue::Str("ct2"@),
                                ),
                            ),
                        ),
                    ),
                ),
                _ => Some(root),
            }
        },
        _ => None,
    }
}

fn model_entries(ls: Vec<(String, JsonNode)>, repo: &str) -> (r: Vec<(String, JsonNode)>)
    ensures
        entries_view(r@, r@.len()) == with_entry(
            with_entry(entries_view(ls@, ls@.len()), "model_repo"@, JsonValue::Str(repo@)),
            "model_format"@,
            JsonValue::Str("ct2"@),
        ),
{
    let a = set_entry(ls, "model_repo", JsonNode::Str(String::from_str(repo)));
    set_entry(a, "model_format", JsonNode::Str(String::from_str("ct2")))
}

/// Records the model in a parsed configuration document.
pub fn set_model_in_doc(root: JsonNode, repo: &str) -> (r: Result<JsonNode, ZelligError>)
    ensures
        match model_doc(root@, repo@) {
            Some(v) => r is Ok && r.unwrap()@ == v,
            None => r matches Err(ZelligError::ConfigError(m)) && m@
                == "config root is not a TOML table"@,
        },
{
    match root {
        JsonNode::Object(es) => {
            let ghost ev = entries_view(es@, es@.len());
            proof {
                lemma_entries_view(es@, es@.len());
            }
            let kc = chars_of("local");
            match key_position(&es, &kc) {
                Some(i) => {
                    proof {
                        crate::formats::tree::lemma_key_index(ev, kc@, 0);
                    }
                    let ghost before = es@;
                    let mut es = es;
                    let (k, v) = es.remove(i);
                    match v {
                        JsonNode::Object(ls) => {
                            let nl = JsonNode::Object(model_entries(ls, repo));
                            let e = (String::from_str("local"), nl);
                            es.insert(i, e);
                            proof {
                                assert(es@ =~= before.update(i as int, e));
                                lemma_entries_view_update(before, i as int, e);
                                assert(k@ == "local"@);
                            }
                            Ok(JsonNode::Object(es))
                        },
                        other => {
                            let ghost o = other;
                            es.insert(i, (k, other));
                            proof {
                                assert(es@ =~= before);
                            }
                            Ok(JsonNode::Object(es))
                        },
                    }
                },
                None => {
                    let nl = JsonNode::Object(model_entries(Vec::new(), repo));
                    proof {
                        lemma_entries_view(Seq::<(String, JsonNode)>::empty(), 0);
                        assert(entries_view(Seq::<(String, JsonNode)>::empty(), 0) =~= Seq::<(Seq<char>, JsonValue)>::empty());
                    }
                    Ok(JsonNode::Object(set_entry(es, "local", nl)))
                },
            }
        },
        _ => Err(ZelligError::ConfigError(String::from_str("config root is not a TOML table"))),
    }
}

/// What the configuration file's text comes to as a document: what TOML
/// reads from it, or an empty table where it is no TOML.
pub open spec fn config_doc(content: Seq<char>) -> JsonValue {
    match toml_doc_of(content) {
        Some(v) => v,
        None => JsonValue::Object(seq![]),
    }
}

pub open spec fn serialize_prefix() -> Seq<char> {
    "Failed to serialize config: "@
}

/// Records the model in the configuration file's text: its document with
/// `local.model_repo` and `local.model_format` set, written out as TOML.
pub fn set_model_in_config_text(content: &str, repo: &str) -> (r: Result<String, ZelligError>)
    ensures
        match model_doc(config_doc(content@), repo@) {
            None => r matches Err(ZelligError::ConfigError(m)) && m@
                == "config root is not a TOML table"@,
            Some(d) => match toml_text_of(d) {
                Some(t) => r matches Ok(x) && x@ == t,
                None => r matches Err(ZelligError::ConfigError(m)) && starts_with(
                    m@,
                    serialize_prefix(),
                ),
            },
        },
{
    let root = match parse_toml(content) {
        Ok(n) => n,
        Err(_) => JsonNode::Object(Vec::new()),
    };
    proof {
        if toml_doc_of(content@) is None {
            assert(root@ =~= JsonValue::Object(seq![])) by {
                crate::formats::tree::lemma_entries_view(Seq::<(String, JsonNode)>::empty(), 0);
            }
        }
    }
    let doc = match set_model_in_doc(root, repo) {
        Ok(d) => d,
        Err(e) => {
            return Err(e);
        },
    };
    match write_toml(&doc) {
        Ok(t) => Ok(t),
        Err(m) => {
            let mut msg = String::from_str("Failed to serialize config: ");
            msg.append(m.as_str());
            proof {
                reveal_strlit("Failed to serialize config: ");
                assert(msg@.take(serialize_prefix().len() as int) =~= serialize_prefix());
            }
            Err(ZelligError::ConfigError(msg))
        },
    }
}

} // verus!

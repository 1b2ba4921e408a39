//! Gettext PO files: the text of every `msgstr` line is translatable.
use crate::error::ZelligError;
use crate::formats::{
    apply_edits, edits_identity, edits_ordered, edits_view, find_translation, lemma_splice_identity,
    lemma_splice_last, lookup, splice, Edit, ExecEdit, TranslatableString, TranslatedString,
};
use crate::text::{
    blen, byte_at, byte_offsets, char_at_byte, chars_of, decimal, find_char, find_char_in,
    boundary_index, is_boundary, lemma_byte_at_mono, lemma_byte_at_subrange, lemma_char_at_byte,
    lemma_find_char_from, lemma_line_spans_ok, lemma_trim_range, line_spans, line_spans_of,
    push_decimal, slice_vec, starts_with, starts_with_at, string_of, trim_of, trim_range,
    is_ws, lemma_find_char_at, lemma_line_no_newline, lemma_line_spans_replace, lemma_skip_back_to,
    lemma_skip_ws, lemma_skip_ws_back, lemma_trimmed_window, line_text, moved, moved_spans,
    no_newline, replace_range, skip_ws, trimmed,
};
use vstd::prelude::*;

verus! {

/// The handler of PO files.
pub struct PoHandler;

impl PoHandler {
    pub fn new() -> Self {
        PoHandler
    }
}

impl Default for PoHandler {
    fn default() -> (r: Self)
        ensures
            r == PoHandler,
    {
        PoHandler
    }
}

// ---------------------------------------------------------------------------
// Model
// ---------------------------------------------------------------------------
pub open spec fn msgstr_word() -> Seq<char> {
    seq!['m', 's', 'g', 's', 't', 'r']
}

/// The value of a trimmed `msgstr` line whose first quote is at `q`: the text
/// between that quote and a closing quote that ends the line; empty when the
/// line does not end with a second quote.
pub open spec fn msgstr_value(t: Seq<char>, q: int) -> Seq<char> {
    if q + 1 <= t.len() - 1 && t[t.len() - 1] == '"' {
        t.subrange(q + 1, t.len() - 1)
    } else {
        seq![]
    }
}

/// A `msgstr` line: its value and the byte range that a translation replaces.
/// The range starts after the first quote and ends before the last char of
/// the trimmed line, both counted from the start of the file.
pub open spec fn po_line(s: Seq<char>, span: (int, int)) -> Option<(Seq<char>, int, int)> {
    let (ts, te) = trim_range(s, span.0, span.1);
    let t = s.subrange(ts, te);
    if starts_with(t, msgstr_word()) {
        let ls = byte_at(s, ts);
        match find_char(t, '"') {
            Some(q) => Some((msgstr_value(t, q), ls + blen(t.take(q + 1)), ls + blen(t) - 1)),
            None => Some((seq![], 0, 0)),
        }
    } else {
        None
    }
}

/// A parsed `msgstr` line: value, byte start, byte end, and line number.
pub type PoItem = (Seq<char>, int, int, int);

/// The `msgstr` lines among the first `k` lines of `s`.
pub open spec fn po_items_upto(s: Seq<char>, k: int) -> Seq<PoItem>
    decreases k,
{
    if k <= 0 {
        seq![]
    } else {
        let prev = po_items_upto(s, k - 1);
        match po_line(s, line_spans(s)[k - 1]) {
            Some(it) => prev.push((it.0, it.1, it.2, k - 1)),
            None => prev,
        }
    }
}

pub open spec fn po_items(s: Seq<char>) -> Seq<PoItem> {
    po_items_upto(s, line_spans(s).len() as int)
}

/// `"po.{n}"`.
pub open spec fn po_id(n: nat) -> Seq<char> {
    seq!['p', 'o', '.'] + decimal(n)
}

/// A translatable entry: id, text, byte start, byte end, line number.
pub type PoEntry = (Seq<char>, Seq<char>, int, int, int);

/// The translatable entries among the first `k` items: those with a
/// non-empty value, numbered in order.
pub open spec fn po_entries_upto(items: Seq<PoItem>, k: int) -> Seq<PoEntry>
    decreases k,
{
    if k <= 0 {
        seq![]
    } else {
        let prev = po_entries_upto(items, k - 1);
        let it = items[k - 1];
        if it.0.len() > 0 {
            prev.push((po_id(prev.len()), it.0, it.1, it.2, it.3))
        } else {
            prev
        }
    }
}

/// The translatable entries of `s`.
pub open spec fn po_entries(s: Seq<char>) -> Seq<PoEntry> {
    po_entries_upto(po_items(s), po_items(s).len() as int)
}

/// The edits that the translations `ts` make to `s`: one for every entry
/// that has a translation, with its byte range turned into chars.
pub open spec fn po_edits_upto(
    s: Seq<char>,
    es: Seq<PoEntry>,
    ts: Seq<TranslatedString>,
    k: int,
) -> Seq<Edit>
    decreases k,
{
    if k <= 0 {
        seq![]
    } else {
        let prev = po_edits_upto(s, es, ts, k - 1);
        let e = es[k - 1];
        match lookup(ts, e.0) {
            Some(t) => prev.push((char_at_byte(s, e.2), char_at_byte(s, e.3), t)),
            None => prev,
        }
    }
}

pub open spec fn po_edits(s: Seq<char>, ts: Seq<TranslatedString>) -> Seq<Edit> {
    po_edits_upto(s, po_entries(s), ts, po_entries(s).len() as int)
}

/// Every byte position that a translation in `ts` replaces at is a char
/// boundary of `s` (elsewhere the replacement panics).
pub open spec fn po_edits_defined(s: Seq<char>, ts: Seq<TranslatedString>) -> bool {
    forall|k: int|
        0 <= k < po_entries(s).len() && (#[trigger] lookup(ts, po_entries(s)[k].0)) is Some
            ==> is_boundary(s, po_entries(s)[k].2) && is_boundary(s, po_entries(s)[k].3)
}

/// What extraction yields for `s`, as (id, text) pairs.
pub open spec fn po_extract_spec(s: Seq<char>) -> Seq<(Seq<char>, Seq<char>)> {
    po_entries(s).map_values(|e: PoEntry| (e.0, e.1))
}

pub open spec fn po_range_error() -> Seq<char> {
    "PO edit does not fall between characters"@
}

pub open spec fn po_context() -> Seq<char> {
    "PO msgstr text"@
}

// ---------------------------------------------------------------------------
// Facts about the model
// ---------------------------------------------------------------------------
/// The byte range of a line's value lies inside the line, and its ends are
/// in order.
proof fn lemma_po_line(s: Seq<char>, span: (int, int))
    requires
        0 <= span.0 <= span.1 <= s.len(),
        po_line(s, span) is Some,
        po_line(s, span).unwrap().0.len() > 0,
    ensures
        byte_at(s, span.0) < po_line(s, span).unwrap().1 <= po_line(s, span).unwrap().2 < byte_at(
            s,
            span.1,
        ),
{
    let (ts, te) = trim_range(s, span.0, span.1);
    lemma_trim_range(s, span.0, span.1);
    let t = s.subrange(ts, te);
    let q = find_char(t, '"').unwrap();
    lemma_find_char_from(t, '"', 0);
    lemma_byte_at_subrange(s, ts, te, q + 1);
    lemma_byte_at_subrange(s, ts, te, t.len() as int);
    lemma_byte_at_mono(s, span.0, ts);
    lemma_byte_at_mono(s, te, span.1);
    lemma_byte_at_mono(t, q + 1, t.len() - 1);
    lemma_byte_at_mono(t, t.len() - 1, t.len() as int);
    lemma_byte_at_mono(t, 0, q + 1);
    assert(t.take(t.len() as int) =~= t);
}

/// Items come from increasing lines and are those lines' `po_line`.
proof fn lemma_po_items(s: Seq<char>, k: int)
    requires
        0 <= k <= line_spans(s).len(),
    ensures
        forall|j: int|
            0 <= j < po_items_upto(s, k).len() ==> 0 <= (#[trigger] po_items_upto(s, k)[j]).3 < k
                && po_line(s, line_spans(s)[po_items_upto(s, k)[j].3]) == Some(
                (po_items_upto(s, k)[j].0, po_items_upto(s, k)[j].1, po_items_upto(s, k)[j].2),
            ),
        forall|j1: int, j2: int|
            0 <= j1 < j2 < po_items_upto(s, k).len() ==> (#[trigger] po_items_upto(s, k)[j1]).3
                < (#[trigger] po_items_upto(s, k)[j2]).3,
    decreases k,
{
    if k > 0 {
        lemma_po_items(s, k - 1);
    }
}

/// Entries come from increasing lines and carry those lines' values.
proof fn lemma_po_entries(s: Seq<char>, k: int)
    requires
        0 <= k <= po_items(s).len(),
    ensures
        forall|j: int|
            0 <= j < po_entries_upto(po_items(s), k).len() ==> {
                let e = #[trigger] po_entries_upto(po_items(s), k)[j];
                &&& 0 <= e.4 < line_spans(s).len()
                &&& e.1.len() > 0
                &&& po_line(s, line_spans(s)[e.4]) == Some((e.1, e.2, e.3))
            },
        forall|j1: int, j2: int|
            0 <= j1 < j2 < po_entries_upto(po_items(s), k).len() ==> (#[trigger] po_entries_upto(
                po_items(s),
                k,
            )[j1]).4 < (#[trigger] po_entries_upto(po_items(s), k)[j2]).4,
        po_entries_upto(po_items(s), k).len() > 0 ==> exists|j: int|
            0 <= j < k && po_items(s)[j].3 == po_entries_upto(po_items(s), k).last().4,
        forall|j: int|
            #![trigger po_entries_upto(po_items(s), k)[j]]
            0 <= j < po_entries_upto(po_items(s), k).len() ==> exists|i: int|
                0 <= i < k && #[trigger] po_items(s)[i].3 == po_entries_upto(po_items(s), k)[j].4,
    decreases k,
{
    lemma_po_items(s, line_spans(s).len() as int);
    if k > 0 {
        lemma_po_entries(s, k - 1);
        let items = po_items(s);
        let prev = po_entries_upto(items, k - 1);
        let cur = po_entries_upto(items, k);
        if items[k - 1].0.len() > 0 {
            assert forall|j1: int, j2: int| 0 <= j1 < j2 < cur.len() implies (#[trigger] cur[j1]).4
                < (#[trigger] cur[j2]).4 by {
                if j2 == prev.len() {
                    assert(cur[j1] == prev[j1]);
                    let i = choose|i: int| 0 <= i < k - 1 && #[trigger] items[i].3 == prev[j1].4;
                    assert(items[i].3 < items[k - 1].3);
                } else {
                    assert(cur[j1] == prev[j1]);
                    assert(cur[j2] == prev[j2]);
                }
            }
            assert forall|j: int| #![trigger cur[j]] 0 <= j < cur.len() implies exists|i: int|
                0 <= i < k && #[trigger] items[i].3 == cur[j].4 by {
                if j == prev.len() {
                    assert(items[k - 1].3 == cur[j].4);
                } else {
                    assert(cur[j] == prev[j]);
                }
            }
        }
    }
}

/// `po_entries_upto` grows by extension.
proof fn lemma_po_entries_prefix(items: Seq<PoItem>, k: int, n: int)
    requires
        0 <= k <= n <= items.len(),
    ensures
        po_entries_upto(items, k).len() <= po_entries_upto(items, n).len(),
        po_entries_upto(items, k) == po_entries_upto(items, n).take(
            po_entries_upto(items, k).len() as int,
        ),
    decreases n - k,
{
    if k < n {
        lemma_po_entries_prefix(items, k, n - 1);
        let a = po_entries_upto(items, k);
        let b = po_entries_upto(items, n - 1);
        let c = po_entries_upto(items, n);
        assert(c.take(b.len() as int) =~= b);
        assert(c.take(a.len() as int) =~= b.take(a.len() as int));
    } else {
        assert(po_entries_upto(items, n).take(po_entries_upto(items, n).len() as int)
            =~= po_entries_upto(items, n));
    }
}

proof fn lemma_po_entries_len(items: Seq<PoItem>, k: int)
    requires
        0 <= k <= items.len(),
    ensures
        po_entries_upto(items, k).len() <= k,
    decreases k,
{
    if k > 0 {
        lemma_po_entries_len(items, k - 1);
    }
}

/// `po_edits_upto` only reads the entries it has passed.
proof fn lemma_po_edits_prefix(
    s: Seq<char>,
    es: Seq<PoEntry>,
    fs: Seq<PoEntry>,
    ts: Seq<TranslatedString>,
    k: int,
)
    requires
        0 <= k <= es.len(),
        k <= fs.len(),
        es.take(k) == fs.take(k),
    ensures
        po_edits_upto(s, es, ts, k) == po_edits_upto(s, fs, ts, k),
    decreases k,
{
    if k > 0 {
        assert(es.take(k - 1) =~= es.take(k).take(k - 1));
        assert(fs.take(k - 1) =~= fs.take(k).take(k - 1));
        assert(es[k - 1] == es.take(k)[k - 1]);
        assert(fs[k - 1] == fs.take(k)[k - 1]);
        lemma_po_edits_prefix(s, es, fs, ts, k - 1);
    }
}

/// A boundary past the byte offset of `x` has a char index past `x`, and one
/// before the offset of `y` has a char index before `y`.
proof fn lemma_char_at_byte_bounds(s: Seq<char>, b: int, x: int, y: int)
    requires
        is_boundary(s, b),
        0 <= x <= s.len(),
        0 <= y <= s.len(),
    ensures
        byte_at(s, x) < b ==> x < char_at_byte(s, b),
        b < byte_at(s, y) ==> char_at_byte(s, b) < y,
        byte_at(s, x) <= b ==> x <= char_at_byte(s, b),
        0 <= char_at_byte(s, b) <= s.len(),
        byte_at(s, char_at_byte(s, b)) == b,
{
    let i = char_at_byte(s, b);
    if i <= x {
        lemma_byte_at_mono(s, i, x);
    }
    if y <= i {
        lemma_byte_at_mono(s, y, i);
    }
}

/// The edits of defined translations are ordered, each inside its line.
proof fn lemma_po_edits_ordered(s: Seq<char>, ts: Seq<TranslatedString>, k: int)
    requires
        0 <= k <= po_entries(s).len(),
        po_edits_defined(s, ts),
    ensures
        edits_ordered(s, po_edits_upto(s, po_entries(s), ts, k), 0),
        k > 0 ==> forall|j: int|
            0 <= j < po_edits_upto(s, po_entries(s), ts, k).len() ==> (#[trigger] po_edits_upto(
                s,
                po_entries(s),
                ts,
                k,
            )[j]).1 < line_spans(s)[po_entries(s)[k - 1].4].1,
    decreases k,
{
    let es = po_entries(s);
    let items = po_items(s);
    lemma_po_entries(s, items.len() as int);
    lemma_line_spans_ok(s);
    if k > 0 {
        lemma_po_edits_ordered(s, ts, k - 1);
        let prev = po_edits_upto(s, es, ts, k - 1);
        let cur = po_edits_upto(s, es, ts, k);
        let e = es[k - 1];
        let span = line_spans(s)[e.4];
        lemma_po_line(s, span);
        // every earlier edit ends before this line begins
        if k > 1 {
            assert(es[k - 2].4 < e.4);
            let sp2 = line_spans(s)[es[k - 2].4];
            assert(sp2.1 <= span.0) by {
                lemma_spans_between(s, es[k - 2].4, e.4);
            }
        }
        match lookup(ts, e.0) {
            Some(t) => {
                assert(is_boundary(s, e.2) && is_boundary(s, e.3));
                lemma_char_at_byte_bounds(s, e.2, span.0, span.1);
                lemma_char_at_byte_bounds(s, e.3, span.0, span.1);
                lemma_char_at_byte_bounds(s, e.3, char_at_byte(s, e.2), span.1);
                assert forall|j: int| 0 <= j < cur.len() implies (#[trigger] cur[j]).1 < span.1 by {
                    if j < prev.len() {
                        assert(cur[j] == prev[j]);
                    }
                }
                assert(edits_ordered(s, cur, 0)) by {
                    assert forall|j: int| 0 < j < cur.len() implies cur[j - 1].1
                        <= #[trigger] cur[j].0 by {
                        if j < prev.len() {
                            assert(cur[j] == prev[j]);
                            assert(cur[j - 1] == prev[j - 1]);
                        } else {
                            assert(cur[j - 1] == prev[j - 1]);
                        }
                    }
                    assert forall|j: int| 0 <= j < cur.len() implies 0 <= #[trigger] cur[j].0
                        <= cur[j].1 <= s.len() by {
                        if j < prev.len() {
                            assert(cur[j] == prev[j]);
                        }
                    }
                }
            },
            None => {
                assert forall|j: int| 0 <= j < cur.len() implies (#[trigger] cur[j]).1 < span.1 by {
                    assert(cur[j] == prev[j]);
                }
            },
        }
    }
}

/// A later line begins after an earlier one ends.
proof fn lemma_spans_between(s: Seq<char>, l1: int, l2: int)
    requires
        0 <= l1 < l2 < line_spans(s).len(),
    ensures
        line_spans(s)[l1].1 < line_spans(s)[l2].0,
    decreases l2 - l1,
{
    lemma_line_spans_ok(s);
    if l1 + 1 < l2 {
        lemma_spans_between(s, l1, l2 - 1);
    }
}

// ---------------------------------------------------------------------------
// Executable code
// ---------------------------------------------------------------------------
struct MsgstrLine {
    text: Vec<char>,
    start: usize,
    end: usize,
}

spec fn msgstr_lines_match(items: Seq<MsgstrLine>, spec_items: Seq<PoItem>) -> bool {
    &&& items.len() == spec_items.len()
    &&& forall|j: int|
        0 <= j < items.len() ==> (#[trigger] items[j]).text@ == spec_items[j].0 && items[j].start
            == spec_items[j].1 && items[j].end == spec_items[j].2
}

fn msgstr_vec() -> (v: Vec<char>)
    ensures
        v@ == msgstr_word(),
{
    let v = vec!['m', 's', 'g', 's', 't', 'r'];
    assert(v@ =~= msgstr_word());
    v
}

/// A line's span lies inside `s`.
proof fn lemma_span_in(s: Seq<char>, l: int)
    requires
        0 <= l < line_spans(s).len(),
    ensures
        0 <= line_spans(s)[l].0 <= line_spans(s)[l].1 <= s.len(),
{
    lemma_line_spans_ok(s);
    assert(line_spans(s)[l].0 <= line_spans(s)[l].1);
}

/// The `msgstr` item of the line `s[a..b]`, if it is one.
fn parse_msgstr_line(s: &[char], offs: &[usize], word: &[char], a: usize, b: usize) -> (r: Option<
    MsgstrLine,
>)
    requires
        offs@.len() == s@.len() + 1,
        forall|i: int| 0 <= i <= s@.len() ==> #[trigger] offs@[i] as int == byte_at(s@, i),
        word@ == msgstr_word(),
        a <= b <= s@.len(),
    ensures
        match r {
            Some(it) => po_line(s@, (a as int, b as int)) == Some(
                (it.text@, it.start as int, it.end as int),
            ),
            None => po_line(s@, (a as int, b as int)) is None,
        },
{
    let (ts, te) = trim_of(s, a, b);
    let ghost t = s@.subrange(ts as int, te as int);
    if !starts_with_at(s, ts, te, word) {
        return None;
    }
    match find_char_in(s, ts, te, '"') {
        Some(q) => {
            proof {
                lemma_find_char_from(t, '"', 0);
                lemma_byte_at_subrange(s@, ts as int, te as int, q + 1);
                lemma_byte_at_subrange(s@, ts as int, te as int, t.len() as int);
                lemma_byte_at_mono(s@, a as int, ts as int);
                lemma_byte_at_mono(s@, ts as int, (ts + q + 1) as int);
                lemma_byte_at_mono(s@, (ts + q + 1) as int, te as int);
                lemma_byte_at_mono(s@, ts as int, te as int);
                lemma_byte_at_mono(s@, te as int, s@.len() as int);
                assert(t.take(t.len() as int) =~= t);
                assert(t.len() >= 6);
            }
            let text = if q + 1 < te - ts && s[te - 1] == '"' {
                slice_vec(s, ts + q + 1, te - 1)
            } else {
                Vec::new()
            };
            assert(text@ =~= msgstr_value(t, q as int));
            let ls = offs[ts];
            let start = ls + (offs[ts + q + 1] - offs[ts]);
            let end = ls + (offs[te] - offs[ts]) - 1;
            Some(MsgstrLine { text, start, end })
        },
        None => Some(MsgstrLine { text: Vec::new(), start: 0, end: 0 }),
    }
}

/// The `msgstr` lines of `s`.
fn parse_msgstr_lines(s: &[char], offs: &[usize]) -> (items: Vec<MsgstrLine>)
    requires
        offs@.len() == s@.len() + 1,
        forall|i: int| 0 <= i <= s@.len() ==> #[trigger] offs@[i] as int == byte_at(s@, i),
    ensures
        msgstr_lines_match(items@, po_items(s@)),
{
    let spans = line_spans_of(s);
    let word = msgstr_vec();
    let mut items: Vec<MsgstrLine> = Vec::new();
    let mut k: usize = 0;
    while k < spans.len()
        invariant
            offs@.len() == s@.len() + 1,
            forall|i: int| 0 <= i <= s@.len() ==> #[trigger] offs@[i] as int == byte_at(s@, i),
            crate::text::as_int_pairs(spans@) == line_spans(s@),
            word@ == msgstr_word(),
            0 <= k <= spans@.len(),
            msgstr_lines_match(items@, po_items_upto(s@, k as int)),
        decreases spans.len() - k,
    {
        let (a, b) = spans[k];
        assert(line_spans(s@)[k as int] == (a as int, b as int));
        proof {
            lemma_span_in(s@, k as int);
        }
        let ghost old_items = items@;
        match parse_msgstr_line(s, offs, &word, a, b) {
            Some(item) => {
                items.push(item);
                assert(msgstr_lines_match(items@, po_items_upto(s@, k + 1))) by {
                    let sp = po_items_upto(s@, k + 1);
                    assert forall|j: int| 0 <= j < items@.len() implies (#[trigger] items@[j]).text@
                        == sp[j].0 && items@[j].start == sp[j].1 && items@[j].end == sp[j].2 by {
                        if j < old_items.len() {
                            assert(items@[j] == old_items[j]);
                        }
                    }
                }
            },
            None => {},
        }
        k = k + 1;
    }
    items
}

fn push_po_id(n: usize) -> (id: String)
    ensures
        id@ == po_id(n as nat),
{
    let mut v = vec!['p', 'o', '.'];
    push_decimal(&mut v, n as u64);
    assert(v@ =~= po_id(n as nat));
    string_of(&v)
}

impl PoHandler {
    /// The translatable strings of a PO file: the non-empty `msgstr` values,
    /// with ids `po.0`, `po.1`, … in order.
    pub fn extract(&self, content: &str) -> (r: Result<Vec<TranslatableString>, ZelligError>)
        requires
            blen(content@) <= usize::MAX,
        ensures
            r is Ok,
            r.unwrap()@.len() == po_extract_spec(content@).len(),
            forall|k: int|
                0 <= k < r.unwrap()@.len() ==> (#[trigger] r.unwrap()@[k]).id@ == po_extract_spec(
                    content@,
                )[k].0 && r.unwrap()@[k].text@ == po_extract_spec(content@)[k].1
                    && r.unwrap()@[k]._context is Some && r.unwrap()@[k]._context.unwrap()@
                    == po_context(),
    {
        let s = chars_of(content);
        let offs = byte_offsets(&s);
        let items = parse_msgstr_lines(&s, &offs);
        let ghost spec_items = po_items(s@);
        let mut strings: Vec<TranslatableString> = Vec::new();
        let mut k: usize = 0;
        while k < items.len()
            invariant
                s@ == content@,
                spec_items == po_items(s@),
                msgstr_lines_match(items@, spec_items),
                0 <= k <= items@.len(),
                strings@.len() == po_entries_upto(spec_items, k as int).len(),
                forall|j: int|
                    0 <= j < strings@.len() ==> (#[trigger] strings@[j]).id@ == po_entries_upto(
                        spec_items,
                        k as int,
                    )[j].0 && strings@[j].text@ == po_entries_upto(spec_items, k as int)[j].1
                        && strings@[j]._context is Some && strings@[j]._context.unwrap()@
                        == po_context(),
            decreases items.len() - k,
        {
            let item = &items[k];
            if item.text.len() > 0 {
                let ghost old_strings = strings@;
                let id = push_po_id(strings.len());
                let text = string_of(&item.text);
                let ctx = String::from_str("PO msgstr text");
                strings.push(TranslatableString { id, text, _context: Some(ctx) });
                assert forall|j: int| 0 <= j < strings@.len() implies (#[trigger] strings@[j]).id@
                    == po_entries_upto(spec_items, k + 1)[j].0 && strings@[j].text@
                    == po_entries_upto(spec_items, k + 1)[j].1 && strings@[j]._context is Some
                    && strings@[j]._context.unwrap()@ == po_context() by {
                    if j < old_strings.len() {
                        assert(strings@[j] == old_strings[j]);
                    }
                }
            }
            k = k + 1;
        }
        Ok(strings)
    }

    /// `original` with every `msgstr` value that has a translation replaced by
    /// it.  Entries are numbered as `extract` numbers them; the last
    /// translation given for an id wins.  A value whose byte range does not
    /// fall between chars cannot be replaced: that is an error.
    pub fn reconstruct(&self, original: &str, translations: &[TranslatedString]) -> (r: Result<
        String,
        ZelligError,
    >)
        requires
            blen(original@) <= usize::MAX,
        ensures
            po_edits_defined(original@, translations@) ==> r is Ok && edits_ordered(
                original@,
                po_edits(original@, translations@),
                0,
            ) && r.unwrap()@ == splice(original@, po_edits(original@, translations@), 0),
            !po_edits_defined(original@, translations@) ==> (r matches Err(
                ZelligError::ConfigError(m),
            ) && m@ == po_range_error()),
    {
        let s = chars_of(original);
        let offs = byte_offsets(&s);
        let items = parse_msgstr_lines(&s, &offs);
        let ghost spec_items = po_items(s@);
        let ghost es = po_entries(s@);
        let mut edits: Vec<ExecEdit> = Vec::new();
        let mut idx: usize = 0;
        let mut lo: usize = 0;
        let mut k: usize = 0;
        proof {
            lemma_po_entries(s@, spec_items.len() as int);
            lemma_line_spans_ok(s@);
        }
        while k < items.len()
            invariant
                s@ == original@,
                offs@.len() == s@.len() + 1,
                forall|i: int| 0 <= i <= s@.len() ==> #[trigger] offs@[i] as int == byte_at(s@, i),
                spec_items == po_items(s@),
                es == po_entries(s@),
                forall|j: int|
                    0 <= j < idx && (#[trigger] lookup(translations@, es[j].0)) is Some
                        ==> is_boundary(s@, es[j].2) && is_boundary(s@, es[j].3),
                msgstr_lines_match(items@, spec_items),
                0 <= k <= items@.len(),
                idx == po_entries_upto(spec_items, k as int).len(),
                idx <= es.len(),
                po_entries_upto(spec_items, k as int) == es.take(idx as int),
                edits_view(edits@) == po_edits_upto(s@, es, translations@, idx as int),
                lo <= s@.len(),
                idx > 0 ==> lo < line_spans(s@)[es[idx - 1].4].1,
                idx == 0 ==> lo == 0,
            decreases items.len() - k,
        {
            proof {
                lemma_po_entries_prefix(spec_items, k + 1, spec_items.len() as int);
                lemma_po_items(s@, line_spans(s@).len() as int);
                lemma_po_entries(s@, spec_items.len() as int);
                lemma_line_spans_ok(s@);
                lemma_po_entries_len(spec_items, k + 1);
            }
            let item = &items[k];
            if item.text.len() > 0 {
                let id = push_po_id(idx);
                assert(es[idx as int] == po_entries_upto(spec_items, k + 1)[idx as int]);
                assert(es[idx as int].0 == id@);
                let ghost e = es[idx as int];
                let ghost span = line_spans(s@)[e.4];
                proof {
                    lemma_span_in(s@, e.4);
                    lemma_po_line(s@, span);
                    if idx > 0 {
                        assert(es[idx - 1].4 < e.4);
                        lemma_spans_between(s@, es[idx - 1].4, e.4);
                    }
                }
                match find_translation(translations, &id) {
                    Some(t) => {
                        assert(lookup(translations@, es[idx as int].0) is Some);
                        proof {
                            assert(byte_at(s@, 0) == 0) by {
                                assert(s@.take(0) =~= Seq::<char>::empty());
                                assert(vstd::utf8::encode_utf8(Seq::<char>::empty())
                                    =~= Seq::<u8>::empty());
                            }
                        }
                        let a = match boundary_index(&offs, Ghost(s@), 0, item.start) {
                            Some(a) => a,
                            None => {
                                assert(!po_edits_defined(s@, translations@));
                                return Err(ZelligError::ConfigError(String::from_str("PO edit does not fall between characters")));
                            },
                        };
                        let b = match boundary_index(&offs, Ghost(s@), 0, item.end) {
                            Some(b) => b,
                            None => {
                                assert(!po_edits_defined(s@, translations@));
                                return Err(ZelligError::ConfigError(String::from_str("PO edit does not fall between characters")));
                            },
                        };
                        proof {
                            lemma_char_at_byte_bounds(s@, e.2, span.0, span.1);
                            lemma_char_at_byte_bounds(s@, e.3, span.0, span.1);
                            lemma_byte_at_mono(s@, lo as int, span.0);
                            lemma_char_at_byte_bounds(s@, e.3, a as int, span.1);
                            lemma_byte_at_mono(s@, lo as int, a as int);
                        }
                        let text = chars_of(translations[t].translated_text.as_str());
                        let ghost old_edits = edits@;
                        edits.push(ExecEdit { start: a, end: b, text });
                        assert(edits_view(edits@) =~= edits_view(old_edits).push(
                            (a as int, b as int, translations@[t as int].translated_text@),
                        ));
                        lo = b;
                    },
                    None => {},
                }
                idx = idx + 1;
                assert(es.take(idx as int) =~= po_entries_upto(spec_items, k + 1));
            } else {
                assert(po_entries_upto(spec_items, k + 1) == po_entries_upto(spec_items, k as int));
            }
            k = k + 1;
        }
        assert(es.take(idx as int) =~= es) by {
            assert(po_entries_upto(spec_items, k as int) == es);
        }
        assert(po_edits_defined(s@, translations@));
        proof {
            lemma_po_edits_ordered(s@, translations@, es.len() as int);
        }
        let out = apply_edits(&s, &edits);
        Ok(string_of(&out))
    }
}

// ---------------------------------------------------------------------------
// Laws
// ---------------------------------------------------------------------------
proof fn lemma_po_ids_upto(items: Seq<PoItem>, k: int)
    requires
        0 <= k <= items.len(),
    ensures
        forall|j: int|
            0 <= j < po_entries_upto(items, k).len() ==> (#[trigger] po_entries_upto(items, k)[j]).0
                == po_id(j as nat),
    decreases k,
{
    if k > 0 {
        lemma_po_ids_upto(items, k - 1);
        let prev = po_entries_upto(items, k - 1);
        let cur = po_entries_upto(items, k);
        assert forall|j: int| 0 <= j < cur.len() implies (#[trigger] cur[j]).0 == po_id(
            j as nat,
        ) by {
            if j < prev.len() {
                assert(cur[j] == prev[j]);
            }
        }
    }
}

/// The strings of a PO file are numbered in order: the `k`-th has id `po.k`.
pub proof fn law_po_ids_in_order(s: Seq<char>)
    ensures
        forall|k: int|
            0 <= k < po_extract_spec(s).len() ==> (#[trigger] po_extract_spec(s)[k]).0 == po_id(
                k as nat,
            ),
{
    lemma_po_ids_upto(po_items(s), po_items(s).len() as int);
}

/// Translations that match no string leave a PO file as it was.
pub proof fn law_po_unmatched_translations_change_nothing(s: Seq<char>, ts: Seq<TranslatedString>)
    requires
        forall|k: int| 0 <= k < po_entries(s).len() ==> #[trigger] lookup(ts, po_entries(s)[k].0) is None,
    ensures
        po_edits_defined(s, ts),
        splice(s, po_edits(s, ts), 0) == s,
{
    assert(po_edits(s, ts) =~= Seq::<Edit>::empty()) by {
        lemma_po_no_edits(s, ts, po_entries(s).len() as int);
    }
    assert(s.subrange(0, s.len() as int) =~= s);
}

proof fn lemma_po_no_edits(s: Seq<char>, ts: Seq<TranslatedString>, k: int)
    requires
        0 <= k <= po_entries(s).len(),
        forall|j: int| 0 <= j < po_entries(s).len() ==> #[trigger] lookup(ts, po_entries(s)[j].0) is None,
    ensures
        po_edits_upto(s, po_entries(s), ts, k) =~= Seq::<Edit>::empty(),
    decreases k,
{
    if k > 0 {
        lemma_po_no_edits(s, ts, k - 1);
        assert(lookup(ts, po_entries(s)[k - 1].0) is None);
    }
}

/// An entry's byte range is the byte range of its text's chars.
proof fn lemma_po_entry_exact(s: Seq<char>, j: int)
    requires
        0 <= j < po_entries(s).len(),
    ensures
        is_boundary(s, po_entries(s)[j].2),
        is_boundary(s, po_entries(s)[j].3),
        s.subrange(char_at_byte(s, po_entries(s)[j].2), char_at_byte(s, po_entries(s)[j].3))
            == po_entries(s)[j].1,
{
    lemma_po_entries(s, po_items(s).len() as int);
    let e = po_entries(s)[j];
    let l = e.4;
    lemma_span_in(s, l);
    let span = line_spans(s)[l];
    assert(po_line(s, span) is Some);
    let (ts, te) = trim_range(s, span.0, span.1);
    lemma_trim_range(s, span.0, span.1);
    let t = s.subrange(ts, te);
    let q = find_char(t, '"').unwrap();
    lemma_find_char_from(t, '"', 0);
    assert(q + 1 <= t.len() - 1 && t[t.len() - 1] == '"');
    lemma_byte_at_subrange(s, ts, te, q + 1);
    lemma_byte_at_subrange(s, ts, te, t.len() as int);
    assert(t.take(t.len() as int) =~= t);
    crate::text::lemma_byte_at_step(s, te - 1);
    assert(s[te - 1] == t[t.len() - 1]);
    assert(e.2 == byte_at(s, ts + q + 1));
    assert(e.3 == byte_at(s, te - 1));
    lemma_char_at_byte(s, ts + q + 1);
    lemma_char_at_byte(s, te - 1);
    assert(s.subrange(ts + q + 1, te - 1) =~= t.subrange(q + 1, t.len() - 1));
}

proof fn lemma_po_edits_identity(s: Seq<char>, ts: Seq<TranslatedString>, k: int)
    requires
        0 <= k <= po_entries(s).len(),
        forall|j: int|
            0 <= j < po_entries(s).len() ==> #[trigger] lookup(ts, po_entries(s)[j].0) is None
                || lookup(ts, po_entries(s)[j].0) == Some(po_entries(s)[j].1),
    ensures
        edits_identity(s, po_edits_upto(s, po_entries(s), ts, k)),
    decreases k,
{
    if k > 0 {
        lemma_po_edits_identity(s, ts, k - 1);
        let prev = po_edits_upto(s, po_entries(s), ts, k - 1);
        let cur = po_edits_upto(s, po_entries(s), ts, k);
        lemma_po_entry_exact(s, k - 1);
        assert forall|j: int| 0 <= j < cur.len() implies #[trigger] cur[j].2 == s.subrange(
            cur[j].0,
            cur[j].1,
        ) by {
            if j < prev.len() {
                assert(cur[j] == prev[j]);
            }
        }
    }
}

/// Putting back the strings that were extracted gives back the file.
pub proof fn law_po_round_trip(s: Seq<char>, ts: Seq<TranslatedString>)
    requires
        forall|j: int|
            0 <= j < po_entries(s).len() ==> #[trigger] lookup(ts, po_entries(s)[j].0) is None
                || lookup(ts, po_entries(s)[j].0) == Some(po_entries(s)[j].1),
    ensures
        po_edits_defined(s, ts),
        splice(s, po_edits(s, ts), 0) == s,
{
    assert(po_edits_defined(s, ts)) by {
        assert forall|k: int|
            0 <= k < po_entries(s).len() && (#[trigger] lookup(ts, po_entries(s)[k].0)) is Some
                implies is_boundary(s, po_entries(s)[k].2) && is_boundary(s, po_entries(s)[k].3) by {
            lemma_po_entry_exact(s, k);
        }
    }
    lemma_po_edits_ordered(s, ts, po_entries(s).len() as int);
    lemma_po_edits_identity(s, ts, po_entries(s).len() as int);
    lemma_splice_identity(s, po_edits(s, ts), 0);
    assert(s.subrange(0, s.len() as int) =~= s);
}

// ---------------------------------------------------------------------------
// Reading back a translated file
// ---------------------------------------------------------------------------
/// The value of a line read alone: `None` for a line that is no `msgstr`
/// line.
pub open spec fn po_line_value(x: Seq<char>) -> Option<Seq<char>> {
    let t = trimmed(x);
    if starts_with(t, msgstr_word()) {
        match find_char(t, '"') {
            Some(q) => Some(msgstr_value(t, q)),
            None => Some(seq![]),
        }
    } else {
        None
    }
}

/// What `po_line` finds in a line is what the line's text holds.
proof fn lemma_po_line_value(s: Seq<char>, span: (int, int))
    requires
        0 <= span.0 <= span.1 <= s.len(),
    ensures
        po_line(s, span) is Some == po_line_value(s.subrange(span.0, span.1)) is Some,
        po_line(s, span) is Some ==> po_line(s, span).unwrap().0 == po_line_value(
            s.subrange(span.0, span.1),
        ).unwrap(),
{
    lemma_trimmed_window(s, span.0, span.1);
}

/// A `msgstr` line with a value.
pub open spec fn line_editable(x: Seq<char>) -> bool {
    po_line_value(x) matches Some(v) && v.len() > 0
}

/// Where the value of a line begins: after its first quote.
pub open spec fn value_start(x: Seq<char>) -> int {
    trim_range(x, 0, x.len() as int).0 + find_char(trimmed(x), '"').unwrap() + 1
}

/// Where the value of a line ends: at its closing quote.
pub open spec fn value_end(x: Seq<char>) -> int {
    trim_range(x, 0, x.len() as int).1 - 1
}

/// Skipping whitespace from `i` stops at `p` when all before it is
/// whitespace and it is not.
proof fn lemma_skip_to(y: Seq<char>, i: int, p: int, hi: int)
    requires
        0 <= i <= p < hi <= y.len(),
        !is_ws(y[p]),
        forall|k: int| i <= k < p ==> is_ws(#[trigger] y[k]),
    ensures
        skip_ws(y, i, hi) == p,
    decreases p - i,
{
    if i < p {
        lemma_skip_to(y, i + 1, p, hi);
    }
}

/// Writing a new value into an editable line: the line reads the new value.
proof fn lemma_line_value_replace(x: Seq<char>, t: Seq<char>)
    requires
        line_editable(x),
        t.len() > 0,
    ensures
        0 < value_start(x) < value_end(x) < x.len(),
        x[value_end(x)] == '"',
        x.subrange(value_start(x), value_end(x)) == po_line_value(x).unwrap(),
        po_line_value(replace_range(x, value_start(x), value_end(x), t)) == Some(t),
        line_editable(replace_range(x, value_start(x), value_end(x), t)),
{
    let n = x.len() as int;
    lemma_trim_range(x, 0, n);
    lemma_skip_ws(x, 0, n);
    let p = trim_range(x, 0, n).0;
    lemma_skip_ws_back(x, p, n);
    let te = trim_range(x, 0, n).1;
    let tt = trimmed(x);
    assert(tt == x.subrange(p, te));
    let q = find_char(tt, '"').unwrap();
    lemma_find_char_from(tt, '"', 0);
    assert(q >= 6) by {
        if q < 6 {
            assert(tt.take(6)[q] == tt[q]);
        }
    }
    let vs = p + q + 1;
    let ve = te - 1;
    assert(tt[tt.len() - 1] == '"');
    assert(x[ve] == tt[tt.len() - 1]);
    assert(x.subrange(vs, ve) =~= tt.subrange(q + 1, tt.len() - 1));
    let y = replace_range(x, vs, ve, t);
    let m = vs + t.len() + 1;
    let yn = y.len() as int;
    assert(yn == n + t.len() - (ve - vs));
    assert(!is_ws(x[p]));
    assert forall|k: int| 0 <= k < p implies is_ws(#[trigger] y[k]) by {
        assert(y[k] == x[k]);
    }
    assert(y[p] == x[p]);
    lemma_skip_to(y, 0, p, yn);
    assert(y[m - 1] == x[ve]);
    assert forall|k: int| m <= k < yn implies is_ws(#[trigger] y[k]) by {
        assert(y[k] == x[k - m + te]);
    }
    lemma_skip_back_to(y, p, m, yn);
    assert(trim_range(y, 0, yn) == (p, m));
    let tu = trimmed(y);
    assert(tu == y.subrange(p, m));
    assert(tu.take(6) =~= tt.take(6)) by {
        assert forall|k: int| 0 <= k < 6 implies tu.take(6)[k] == tt.take(6)[k] by {
            assert(tu[k] == x[p + k]);
        }
    }
    assert forall|k: int| 0 <= k < q implies tu[k] != '"' by {
        assert(tu[k] == tt[k]);
    }
    assert(tu[q] == tt[q]);
    lemma_find_char_at(tu, '"', 0, q);
    assert(tu.subrange(q + 1, m - p - 1) =~= t);
}

/// The chars of line `l`'s value.
pub open spec fn line_value_range(s: Seq<char>, l: int) -> (int, int) {
    (
        line_spans(s)[l].0 + value_start(line_text(s, l)),
        line_spans(s)[l].0 + value_end(line_text(s, l)),
    )
}

/// `s` with the value of line `l` replaced by `t`.
pub open spec fn replace_line(s: Seq<char>, l: int, t: Seq<char>) -> Seq<char> {
    replace_range(s, line_value_range(s, l).0, line_value_range(s, l).1, t)
}

/// Replacing the value of one line leaves the other lines as they were, and
/// those before it where they were.
proof fn lemma_replace_line(s: Seq<char>, ln: int, t: Seq<char>)
    requires
        0 <= ln < line_spans(s).len(),
        line_editable(line_text(s, ln)),
        t.len() > 0,
        no_newline(t, 0, t.len() as int),
    ensures
        line_spans(replace_line(s, ln, t)).len() == line_spans(s).len(),
        forall|l: int|
            0 <= l < line_spans(s).len() && l != ln ==> #[trigger] line_text(replace_line(s, ln, t), l)
                == line_text(s, l),
        forall|l: int| 0 <= l < ln ==> #[trigger] line_spans(replace_line(s, ln, t))[l] == line_spans(s)[l],
        line_text(replace_line(s, ln, t), ln) == replace_range(
            line_text(s, ln),
            value_start(line_text(s, ln)),
            value_end(line_text(s, ln)),
            t,
        ),
{
    let x = line_text(s, ln);
    lemma_line_value_replace(x, t);
    lemma_span_in(s, ln);
    lemma_line_no_newline(s, ln);
    lemma_line_spans_ok(s);
    let sp = line_spans(s)[ln];
    let a = sp.0 + value_start(x);
    let b = sp.0 + value_end(x);
    assert(s[b] == x[value_end(x)]);
    assert(no_newline(s, a, b));
    let r = replace_line(s, ln, t);
    let d = t.len() - (b - a);
    lemma_line_spans_replace(s, a, b, t);
    let ms = moved_spans(line_spans(s), a, b, t);
    assert forall|l: int| 0 <= l < line_spans(s).len() && l != ln implies #[trigger] line_text(r, l)
        == line_text(s, l) by {
        let p = line_spans(s)[l];
        assert(line_spans(r)[l] == ms[l]);
        lemma_span_in(s, l);
        if l < ln {
            lemma_spans_between(s, l, ln);
            assert(line_text(r, l) =~= line_text(s, l));
        } else {
            lemma_spans_between(s, ln, l);
            assert forall|k: int| p.0 <= k < p.1 implies #[trigger] r[k + d] == s[k] by {}
            assert(line_text(r, l) =~= line_text(s, l));
        }
    }
    assert forall|l: int| 0 <= l < ln implies #[trigger] line_spans(r)[l] == line_spans(s)[l] by {
        assert(line_spans(r)[l] == ms[l]);
        lemma_spans_between(s, l, ln);
        lemma_span_in(s, l);
    }
    assert(line_spans(r)[ln] == ms[ln]);
    assert(line_text(r, ln) =~= replace_range(x, value_start(x), value_end(x), t));
}

/// Lines to write values into, in order, each with its new value.
pub type PoPlan = Seq<(int, Seq<char>)>;

/// Each planned line is editable and gets a value without a line break, and
/// the lines come in order.
pub open spec fn plan_ok(s: Seq<char>, plan: PoPlan) -> bool {
    &&& forall|i: int|
        0 <= i < plan.len() ==> 0 <= (#[trigger] plan[i]).0 < line_spans(s).len() && line_editable(
            line_text(s, plan[i].0),
        ) && plan[i].1.len() > 0 && no_newline(plan[i].1, 0, plan[i].1.len() as int)
    &&& forall|i: int, j: int| 0 <= i < j < plan.len() ==> (#[trigger] plan[i]).0 < (#[trigger] plan[j]).0
}

/// The edits that write the planned values.
pub open spec fn plan_edits(s: Seq<char>, plan: PoPlan) -> Seq<Edit> {
    plan.map_values(
        |p: (int, Seq<char>)| (line_value_range(s, p.0).0, line_value_range(s, p.0).1, p.1),
    )
}

/// The value planned for line `l`, if any.
pub open spec fn planned(plan: PoPlan, l: int) -> Option<Seq<char>>
    decreases plan.len(),
{
    if plan.len() == 0 {
        None
    } else if plan.last().0 == l {
        Some(plan.last().1)
    } else {
        planned(plan.drop_last(), l)
    }
}

proof fn lemma_planned(plan: PoPlan, l: int)
    ensures
        planned(plan, l) matches Some(t) ==> exists|i: int|
            0 <= i < plan.len() && (#[trigger] plan[i]).0 == l && plan[i].1 == t,
        (forall|i: int| 0 <= i < plan.len() ==> (#[trigger] plan[i]).0 != l) ==> planned(plan, l) is None,
    decreases plan.len(),
{
    if plan.len() > 0 {
        let init = plan.drop_last();
        lemma_planned(init, l);
        if plan.last().0 != l {
            if planned(init, l) is Some {
                let i = choose|i: int| 0 <= i < init.len() && (#[trigger] init[i]).0 == l && init[i].1
                    == planned(init, l).unwrap();
                assert(plan[i] == init[i]);
            }
            if forall|i: int| 0 <= i < plan.len() ==> (#[trigger] plan[i]).0 != l {
                assert forall|i: int| 0 <= i < init.len() implies (#[trigger] init[i]).0 != l by {
                    assert(init[i] == plan[i]);
                }
            }
        } else {
            assert(plan[plan.len() - 1].0 == l);
        }
    }
}

/// Writing the planned values: the lines stay, the planned ones read their
/// new values and the others what they read before.
proof fn lemma_plan_apply(s: Seq<char>, plan: PoPlan)
    requires
        plan_ok(s, plan),
    ensures
        line_spans(splice(s, plan_edits(s, plan), 0)).len() == line_spans(s).len(),
        forall|l: int|
            0 <= l < line_spans(s).len() ==> po_line_value(
                #[trigger] line_text(splice(s, plan_edits(s, plan), 0), l),
            ) == match planned(plan, l) {
                Some(t) => Some(t),
                None => po_line_value(line_text(s, l)),
            },
    decreases plan.len(),
{
    let es = plan_edits(s, plan);
    if plan.len() == 0 {
        assert(es.len() == 0);
        assert(splice(s, es, 0) =~= s);
    } else {
        let n = plan.len() as int;
        let ln = plan.last().0;
        let t = plan.last().1;
        assert(plan[n - 1] == plan.last());
        let s1 = replace_line(s, ln, t);
        lemma_replace_line(s, ln, t);
        lemma_line_value_replace(line_text(s, ln), t);
        let init = plan.drop_last();
        lemma_line_spans_ok(s);
        // the edits lie in their lines, which come in order
        assert forall|i: int| 0 <= i < n implies line_spans(s)[(#[trigger] plan[i]).0].0 < line_value_range(
            s,
            plan[i].0,
        ).0 < line_value_range(s, plan[i].0).1 < line_spans(s)[plan[i].0].1 by {
            lemma_line_value_replace(line_text(s, plan[i].0), plan[i].1);
            lemma_span_in(s, plan[i].0);
        }
        assert(edits_ordered(s, es, 0)) by {
            assert forall|k: int| 0 <= k < es.len() implies 0 <= #[trigger] es[k].0 <= es[k].1 <= s.len() by {
                assert(es[k] == (line_value_range(s, plan[k].0).0, line_value_range(s, plan[k].0).1, plan[k].1));
                lemma_span_in(s, plan[k].0);
            }
            assert forall|k: int| 0 < k < es.len() implies es[k - 1].1 <= #[trigger] es[k].0 by {
                assert(es[k] == (line_value_range(s, plan[k].0).0, line_value_range(s, plan[k].0).1, plan[k].1));
                assert(es[k - 1] == (
                    line_value_range(s, plan[k - 1].0).0,
                    line_value_range(s, plan[k - 1].0).1,
                    plan[k - 1].1,
                ));
                assert(plan[k - 1].0 < plan[k].0);
                lemma_spans_between(s, plan[k - 1].0, plan[k].0);
            }
        }
        lemma_splice_last(s, es, 0);
        assert(es.last() == (line_value_range(s, ln).0, line_value_range(s, ln).1, t));
        assert(s.take(es.last().0) + es.last().2 + s.skip(es.last().1) == s1);
        // the earlier lines are where they were, and read as before
        assert forall|i: int| 0 <= i < init.len() implies (#[trigger] init[i]).0 < ln by {
            assert(init[i] == plan[i]);
        }
        assert(es.drop_last() =~= plan_edits(s1, init)) by {
            assert forall|i: int| 0 <= i < init.len() implies #[trigger] es.drop_last()[i] == plan_edits(
                s1,
                init,
            )[i] by {
                assert(init[i] == plan[i]);
                let p = init[i].0;
                assert(line_spans(s1)[p] == line_spans(s)[p]);
                assert(line_text(s1, p) == line_text(s, p));
            }
        }
        assert(plan_ok(s1, init)) by {
            assert forall|i: int| 0 <= i < init.len() implies 0 <= (#[trigger] init[i]).0 < line_spans(
                s1,
            ).len() && line_editable(line_text(s1, init[i].0)) && init[i].1.len() > 0 && no_newline(
                init[i].1,
                0,
                init[i].1.len() as int,
            ) by {
                assert(init[i] == plan[i]);
                assert(line_text(s1, init[i].0) == line_text(s, init[i].0));
            }
            assert forall|i: int, j: int| 0 <= i < j < init.len() implies (#[trigger] init[i]).0 < (
            #[trigger] init[j]).0 by {
                assert(init[i] == plan[i]);
                assert(init[j] == plan[j]);
            }
        }
        lemma_plan_apply(s1, init);
        let r = splice(s, es, 0);
        assert(r == splice(s1, plan_edits(s1, init), 0));
        assert forall|l: int| 0 <= l < line_spans(s).len() implies po_line_value(
            #[trigger] line_text(r, l),
        ) == match planned(plan, l) {
            Some(u) => Some(u),
            None => po_line_value(line_text(s, l)),
        } by {
            lemma_planned(init, l);
            if l == ln {
                assert(planned(init, l) is None);
            }
        }
    }
}

/// Two texts whose lines read alike, but for the planned values: their
/// `msgstr` items come from the same lines, with the planned values in place.
proof fn lemma_items_relate(s: Seq<char>, r: Seq<char>, plan: PoPlan, k: int)
    requires
        line_spans(r).len() == line_spans(s).len(),
        forall|l: int|
            0 <= l < line_spans(s).len() ==> po_line_value(#[trigger] line_text(r, l)) == match planned(
                plan,
                l,
            ) {
                Some(t) => Some(t),
                None => po_line_value(line_text(s, l)),
            },
        forall|l: int|
            0 <= l < line_spans(s).len() && #[trigger] planned(plan, l) is Some ==> po_line_value(
                line_text(s, l),
            ) is Some,
        0 <= k <= line_spans(s).len(),
    ensures
        po_items_upto(r, k).len() == po_items_upto(s, k).len(),
        forall|j: int|
            0 <= j < po_items_upto(s, k).len() ==> (#[trigger] po_items_upto(r, k)[j]).3 == po_items_upto(
                s,
                k,
            )[j].3 && po_items_upto(r, k)[j].0 == match planned(plan, po_items_upto(s, k)[j].3) {
                Some(t) => t,
                None => po_items_upto(s, k)[j].0,
            },
    decreases k,
{
    if k > 0 {
        lemma_items_relate(s, r, plan, k - 1);
        lemma_span_in(s, k - 1);
        lemma_span_in(r, k - 1);
        let sps = line_spans(s)[k - 1];
        let spr = line_spans(r)[k - 1];
        lemma_po_line_value(s, sps);
        lemma_po_line_value(r, spr);
        assert(line_text(s, k - 1) == s.subrange(sps.0, sps.1));
        assert(line_text(r, k - 1) == r.subrange(spr.0, spr.1));
        let ps = po_items_upto(s, k - 1);
        let pr = po_items_upto(r, k - 1);
        let cs = po_items_upto(s, k);
        let cr = po_items_upto(r, k);
        assert forall|j: int| 0 <= j < cs.len() implies (#[trigger] cr[j]).3 == cs[j].3 && cr[j].0
            == match planned(plan, cs[j].3) {
            Some(t) => t,
            None => cs[j].0,
        } by {
            if j < ps.len() {
                assert(cs[j] == ps[j]);
                assert(cr[j] == pr[j]);
            }
        }
    }
}

/// Items that agree but for the planned values give entries that agree but
/// for the planned values, when planned values and the values they replace
/// are not empty.
proof fn lemma_entries_relate(si: Seq<PoItem>, ri: Seq<PoItem>, plan: PoPlan, k: int)
    requires
        si.len() == ri.len(),
        0 <= k <= si.len(),
        forall|j: int|
            0 <= j < si.len() ==> (#[trigger] ri[j]).3 == si[j].3 && ri[j].0 == match planned(
                plan,
                si[j].3,
            ) {
                Some(t) => t,
                None => si[j].0,
            },
        forall|j: int|
            0 <= j < si.len() ==> (planned(plan, (#[trigger] si[j]).3) matches Some(t) ==> t.len() > 0
                && si[j].0.len() > 0),
    ensures
        po_entries_upto(ri, k).len() == po_entries_upto(si, k).len(),
        forall|j: int|
            0 <= j < po_entries_upto(si, k).len() ==> (#[trigger] po_entries_upto(ri, k)[j]).0
                == po_entries_upto(si, k)[j].0 && po_entries_upto(ri, k)[j].4 == po_entries_upto(
                si,
                k,
            )[j].4 && po_entries_upto(ri, k)[j].1 == match planned(plan, po_entries_upto(si, k)[j].4) {
                Some(t) => t,
                None => po_entries_upto(si, k)[j].1,
            },
    decreases k,
{
    if k > 0 {
        lemma_entries_relate(si, ri, plan, k - 1);
        let ps = po_entries_upto(si, k - 1);
        let pr = po_entries_upto(ri, k - 1);
        let cs = po_entries_upto(si, k);
        let cr = po_entries_upto(ri, k);
        assert(ri[k - 1].3 == si[k - 1].3);
        assert(ri[k - 1].0.len() > 0 <==> si[k - 1].0.len() > 0);
        assert forall|j: int| 0 <= j < cs.len() implies (#[trigger] cr[j]).0 == cs[j].0 && cr[j].4
            == cs[j].4 && cr[j].1 == match planned(plan, cs[j].4) {
            Some(t) => t,
            None => cs[j].1,
        } by {
            if j < ps.len() {
                assert(cs[j] == ps[j]);
                assert(cr[j] == pr[j]);
            }
        }
    }
}

/// The lines and values that translations `ts` write, entry by entry.
pub open spec fn po_plan_upto(es: Seq<PoEntry>, ts: Seq<TranslatedString>, k: int) -> PoPlan
    decreases k,
{
    if k <= 0 {
        seq![]
    } else {
        let prev = po_plan_upto(es, ts, k - 1);
        match lookup(ts, es[k - 1].0) {
            Some(t) => prev.push((es[k - 1].4, t)),
            None => prev,
        }
    }
}

/// An entry's line is editable and its edit is the line's value range.
proof fn lemma_entry_range(s: Seq<char>, j: int)
    requires
        0 <= j < po_entries(s).len(),
    ensures
        0 <= po_entries(s)[j].4 < line_spans(s).len(),
        line_editable(line_text(s, po_entries(s)[j].4)),
        po_line_value(line_text(s, po_entries(s)[j].4)) == Some(po_entries(s)[j].1),
        char_at_byte(s, po_entries(s)[j].2) == line_value_range(s, po_entries(s)[j].4).0,
        char_at_byte(s, po_entries(s)[j].3) == line_value_range(s, po_entries(s)[j].4).1,
{
    lemma_po_entries(s, po_items(s).len() as int);
    let e = po_entries(s)[j];
    let l = e.4;
    lemma_span_in(s, l);
    let span = line_spans(s)[l];
    let x = line_text(s, l);
    assert(x == s.subrange(span.0, span.1));
    lemma_po_line_value(s, span);
    let (ts, te) = trim_range(s, span.0, span.1);
    lemma_trim_range(s, span.0, span.1);
    lemma_trimmed_window(s, span.0, span.1);
    crate::text::lemma_skip_ws_shift(s, span.0, span.1, span.0);
    crate::text::lemma_skip_ws_back_shift(s, span.0, span.1, ts, span.1);
    assert(trim_range(x, 0, x.len() as int) == (ts - span.0, te - span.0));
    let t = s.subrange(ts, te);
    assert(trimmed(x) == t);
    let q = find_char(t, '"').unwrap();
    lemma_find_char_from(t, '"', 0);
    assert(q + 1 <= t.len() - 1 && t[t.len() - 1] == '"');
    lemma_byte_at_subrange(s, ts, te, q + 1);
    lemma_byte_at_subrange(s, ts, te, t.len() as int);
    assert(t.take(t.len() as int) =~= t);
    crate::text::lemma_byte_at_step(s, te - 1);
    assert(s[te - 1] == t[t.len() - 1]);
    assert(e.2 == byte_at(s, ts + q + 1));
    assert(e.3 == byte_at(s, te - 1));
    lemma_char_at_byte(s, ts + q + 1);
    lemma_char_at_byte(s, te - 1);
}

/// The plan of the translations: editable lines in order, the planned value
/// of an entry's line is the entry's translation, and its edits are the
/// translations' edits.
proof fn lemma_po_plan(s: Seq<char>, ts: Seq<TranslatedString>, k: int)
    requires
        0 <= k <= po_entries(s).len(),
        forall|j: int|
            0 <= j < po_entries(s).len() ==> (#[trigger] lookup(ts, po_entries(s)[j].0) matches Some(
                t,
            ) ==> t.len() > 0 && no_newline(t, 0, t.len() as int)),
    ensures
        plan_ok(s, po_plan_upto(po_entries(s), ts, k)),
        k > 0 ==> forall|i: int|
            0 <= i < po_plan_upto(po_entries(s), ts, k).len() ==> (#[trigger] po_plan_upto(
                po_entries(s),
                ts,
                k,
            )[i]).0 <= po_entries(s)[k - 1].4,
        forall|j: int|
            0 <= j < k ==> planned(po_plan_upto(po_entries(s), ts, k), (#[trigger] po_entries(s)[j]).4)
                == lookup(ts, po_entries(s)[j].0),
        plan_edits(s, po_plan_upto(po_entries(s), ts, k)) == po_edits_upto(s, po_entries(s), ts, k),
    decreases k,
{
    let es = po_entries(s);
    lemma_po_entries(s, po_items(s).len() as int);
    if k == 0 {
        assert(plan_edits(s, po_plan_upto(es, ts, 0)) =~= Seq::<Edit>::empty());
    } else {
        lemma_po_plan(s, ts, k - 1);
        let prev = po_plan_upto(es, ts, k - 1);
        let cur = po_plan_upto(es, ts, k);
        let e = es[k - 1];
        lemma_entry_range(s, k - 1);
        if k > 1 {
            assert(es[k - 2].4 < e.4);
        }
        match lookup(ts, e.0) {
            Some(t) => {
                assert(cur == prev.push((e.4, t)));
                assert(cur[cur.len() - 1] == (e.4, t));
                assert(plan_ok(s, cur)) by {
                    assert forall|i: int| 0 <= i < cur.len() implies 0 <= (#[trigger] cur[i]).0
                        < line_spans(s).len() && line_editable(line_text(s, cur[i].0)) && cur[i].1.len()
                        > 0 && no_newline(cur[i].1, 0, cur[i].1.len() as int) by {
                        if i < prev.len() {
                            assert(cur[i] == prev[i]);
                        }
                    }
                    assert forall|i: int, j: int| 0 <= i < j < cur.len() implies (#[trigger] cur[i]).0
                        < (#[trigger] cur[j]).0 by {
                        assert(cur[i] == prev[i]);
                        if j < prev.len() {
                            assert(cur[j] == prev[j]);
                        }
                    }
                }
                assert forall|i: int| 0 <= i < cur.len() implies (#[trigger] cur[i]).0 <= e.4 by {
                    if i < prev.len() {
                        assert(cur[i] == prev[i]);
                    }
                }
                assert forall|j: int| 0 <= j < k implies planned(cur, (#[trigger] es[j]).4) == lookup(
                    ts,
                    es[j].0,
                ) by {
                    assert(cur.drop_last() =~= prev);
                    if j < k - 1 {
                        assert(es[j].4 < e.4);
                    }
                }
                assert(plan_edits(s, cur) =~= plan_edits(s, prev).push(
                    (line_value_range(s, e.4).0, line_value_range(s, e.4).1, t),
                ));
            },
            None => {
                assert(cur == prev);
                assert forall|j: int| 0 <= j < k implies planned(cur, (#[trigger] es[j]).4) == lookup(
                    ts,
                    es[j].0,
                ) by {
                    if j == k - 1 {
                        lemma_planned(prev, e.4);
                        if k > 1 {
                            assert forall|i: int| 0 <= i < prev.len() implies (#[trigger] prev[i]).0
                                != e.4 by {}
                        }
                    }
                }
            },
        }
    }
}

/// Translating a PO file and reading it again gives each string its
/// translation, and the others their text, under the same ids: when every
/// translation given is not empty and holds no line break.
pub proof fn law_po_translations_read_back(s: Seq<char>, ts: Seq<TranslatedString>)
    requires
        forall|j: int|
            0 <= j < po_entries(s).len() ==> (#[trigger] lookup(ts, po_entries(s)[j].0) matches Some(
                t,
            ) ==> t.len() > 0 && no_newline(t, 0, t.len() as int)),
    ensures
        po_edits_defined(s, ts),
        po_extract_spec(splice(s, po_edits(s, ts), 0)).len() == po_extract_spec(s).len(),
        forall|k: int|
            0 <= k < po_extract_spec(s).len() ==> #[trigger] po_extract_spec(
                splice(s, po_edits(s, ts), 0),
            )[k] == (
                po_extract_spec(s)[k].0,
                match lookup(ts, po_extract_spec(s)[k].0) {
                    Some(t) => t,
                    None => po_extract_spec(s)[k].1,
                },
            ),
{
    let es = po_entries(s);
    assert(po_edits_defined(s, ts)) by {
        assert forall|k: int|
            0 <= k < es.len() && (#[trigger] lookup(ts, es[k].0)) is Some implies is_boundary(
                s,
                es[k].2,
            ) && is_boundary(s, es[k].3) by {
            lemma_po_entry_exact(s, k);
        }
    }
    let plan = po_plan_upto(es, ts, es.len() as int);
    lemma_po_plan(s, ts, es.len() as int);
    let r = splice(s, po_edits(s, ts), 0);
    assert(r == splice(s, plan_edits(s, plan), 0));
    lemma_plan_apply(s, plan);
    let n = line_spans(s).len() as int;
    assert forall|l: int| 0 <= l < n && #[trigger] planned(plan, l) is Some implies po_line_value(
        line_text(s, l),
    ) is Some by {
        lemma_planned(plan, l);
    }
    lemma_items_relate(s, r, plan, n);
    let si = po_items(s);
    let ri = po_items(r);
    lemma_po_items(s, n);
    assert forall|j: int| 0 <= j < si.len() implies (planned(plan, (#[trigger] si[j]).3) matches Some(
        t,
    ) ==> t.len() > 0 && si[j].0.len() > 0) by {
        let l = si[j].3;
        lemma_planned(plan, l);
        lemma_span_in(s, l);
        lemma_po_line_value(s, line_spans(s)[l]);
        if planned(plan, l) is Some {
            let i = choose|i: int| 0 <= i < plan.len() && (#[trigger] plan[i]).0 == l && plan[i].1
                == planned(plan, l).unwrap();
            assert(line_editable(line_text(s, plan[i].0)));
        }
    }
    lemma_entries_relate(si, ri, plan, si.len() as int);
    assert forall|k: int| 0 <= k < po_extract_spec(s).len() implies #[trigger] po_extract_spec(r)[k] == (
        po_extract_spec(s)[k].0,
        match lookup(ts, po_extract_spec(s)[k].0) {
            Some(t) => t,
            None => po_extract_spec(s)[k].1,
        },
    ) by {
        assert(planned(plan, es[k].4) == lookup(ts, es[k].0));
    }
}

/// Putting back the strings that were extracted, as extraction lists them,
/// gives back the file.
pub proof fn law_po_extracted_round_trip(s: Seq<char>, ts: Seq<TranslatedString>)
    requires
        ts.len() == po_extract_spec(s).len(),
        forall|k: int|
            0 <= k < ts.len() ==> (#[trigger] ts[k]).id@ == po_extract_spec(s)[k].0
                && ts[k].translated_text@ == po_extract_spec(s)[k].1,
    ensures
        po_edits_defined(s, ts),
        splice(s, po_edits(s, ts), 0) == s,
{
    let es = po_entries(s);
    law_po_ids_in_order(s);
    assert forall|i: int, j: int| 0 <= i < j < ts.len() implies (#[trigger] ts[i]).id@ != (
    #[trigger] ts[j]).id@ by {
        assert(ts[i].id@ == po_id(i as nat));
        assert(ts[j].id@ == po_id(j as nat));
        crate::formats::tree::lemma_decimal_digits(i as nat);
        crate::formats::tree::lemma_decimal_digits(j as nat);
        if po_id(i as nat) == po_id(j as nat) {
            assert(decimal(i as nat) =~= po_id(i as nat).skip(3));
            assert(decimal(j as nat) =~= po_id(j as nat).skip(3));
        }
    }
    assert forall|j: int|
        0 <= j < es.len() implies #[trigger] lookup(ts, es[j].0) is None || lookup(ts, es[j].0)
        == Some(es[j].1) by {
        crate::formats::lemma_lookup_distinct(ts, j);
        assert(ts[j].id@ == es[j].0);
    }
    law_po_round_trip(s, ts);
}

} // verus!

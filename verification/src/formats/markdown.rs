//! Markdown files: headings, paragraphs, list items and block quotes are
//! translatable; fenced code blocks are left alone.
use crate::error::ZelligError;
use crate::formats::{
    apply_edits, edits_identity, edits_ordered, edits_view, lemma_splice_identity, find_translation, lookup, splice, Edit, ExecEdit,
    TranslatableString, TranslatedString,
};
use crate::text::{
    blen, byte_at, byte_offsets, char_at_byte, chars_of, decimal, boundary_index, is_boundary,
    lemma_byte_at_mono, lemma_byte_at_subrange, lemma_line_spans_ok, lemma_trim_range,
    lemma_trimmed_window, line_spans, line_spans_of, push_decimal, slice_vec, starts_with,
    starts_with_at, string_of, trim_of, trim_range, trimmed,
};
use vstd::prelude::*;

verus! {

/// The handler of Markdown files.
pub struct MarkdownHandler;

impl MarkdownHandler {
    pub fn new() -> Self {
        MarkdownHandler
    }
}

impl Default for MarkdownHandler {
    fn default() -> (r: Self)
        ensures
            r == MarkdownHandler,
    {
        MarkdownHandler
    }
}

/// The kind of a translatable block.
#[derive(Debug, Clone, Copy, PartialEq, Eq)]
pub enum SegmentKind {
    Heading,
    Paragraph,
    ListItem,
    Blockquote,
}

// ---------------------------------------------------------------------------
// Model
// ---------------------------------------------------------------------------
pub open spec fn fence() -> Seq<char> {
    seq!['`', '`', '`']
}

/// The trimmed text of line `m`.
pub open spec fn tline(s: Seq<char>, m: int) -> Seq<char> {
    let sp = line_spans(s)[m];
    s.subrange(trim_range(s, sp.0, sp.1).0, trim_range(s, sp.0, sp.1).1)
}

/// Number of lines.
pub open spec fn nlines(s: Seq<char>) -> int {
    line_spans(s).len() as int
}

/// The byte where line `m` starts if every line ended with a single `'\n'`
/// (the sum of the lengths of the lines before it, plus one each).
pub open spec fn vstart(s: Seq<char>, m: int) -> int
    decreases m,
{
    if m <= 0 {
        0
    } else {
        vstart(s, m - 1) + blen(crate::text::line_text(s, m - 1)) + 1
    }
}

/// The first line at or after `j` whose trimmed text opens or closes a fence.
pub open spec fn fence_close(s: Seq<char>, j: int) -> int
    decreases nlines(s) - j,
{
    if j >= nlines(s) {
        nlines(s)
    } else if starts_with(tline(s, j), fence()) {
        j
    } else {
        fence_close(s, j + 1)
    }
}

/// A trimmed line that ends a paragraph.
pub open spec fn breaks_paragraph(t: Seq<char>) -> bool {
    t.len() == 0 || t[0] == '#' || t[0] == '>' || t[0] == '-' || t[0] == '*' || starts_with(
        t,
        fence(),
    )
}

/// The first line at or after `j` that ends a paragraph, or the number of lines.
pub open spec fn para_end(s: Seq<char>, j: int) -> int
    decreases nlines(s) - j,
{
    if j >= nlines(s) {
        nlines(s)
    } else if breaks_paragraph(tline(s, j)) {
        j
    } else {
        para_end(s, j + 1)
    }
}

/// The lines `[a, b)` joined with `'\n'`.
pub open spec fn join_lines(s: Seq<char>, a: int, b: int) -> Seq<char>
    decreases b - a,
{
    if b <= a {
        seq![]
    } else if b == a + 1 {
        crate::text::line_text(s, a)
    } else {
        join_lines(s, a, b - 1) + seq!['\n'] + crate::text::line_text(s, b - 1)
    }
}

/// The index just past the leading chars of `t` (from `i` on) that `mode`
/// strips: 0 strips `'>'`, 1 strips `'-'`, `'*'` and `' '`, 2 strips `'#'`.
pub open spec fn strip_lead(t: Seq<char>, mode: int, i: int) -> int
    decreases t.len() - i,
{
    if i >= t.len() {
        t.len() as int
    } else if lead_char(t[i], mode) {
        strip_lead(t, mode, i + 1)
    } else {
        i
    }
}

pub open spec fn lead_char(c: char, mode: int) -> bool {
    if mode == 0 {
        c == '>'
    } else if mode == 1 {
        c == '-' || c == '*' || c == ' '
    } else {
        c == '#'
    }
}

/// The first index at or after `i` where `needle` occurs in `hay`.
pub open spec fn find_seq_from(hay: Seq<char>, needle: Seq<char>, i: int) -> Option<int>
    decreases hay.len() - i,
{
    if i < 0 || i + needle.len() > hay.len() {
        None
    } else if hay.subrange(i, i + needle.len()) == needle {
        Some(i)
    } else {
        proof {
            if needle.len() == 0 {
                assert(hay.subrange(i, i + needle.len()) =~= needle);
            }
        }
        find_seq_from(hay, needle, i + 1)
    }
}

/// `hay.find(needle)` as a char index.  A match of UTF-8 bytes always starts
/// at a char, so the first byte match is the first char match.
pub open spec fn find_seq(hay: Seq<char>, needle: Seq<char>) -> Option<int> {
    find_seq_from(hay, needle, 0)
}

/// A segment: id, text, kind (0 heading, 1 paragraph, 2 list item,
/// 3 block quote), byte start, byte end.
pub type MdSeg = (Seq<char>, Seq<char>, int, int, int);

/// The segment of a one-line block on line `i` whose text `c` was cut from
/// the trimmed line `t`: its bytes are found by searching `c` in `t`, and
/// counted from the line's start past the whitespace that trimming dropped.
pub open spec fn line_seg(s: Seq<char>, i: int, t: Seq<char>, c: Seq<char>, id: Seq<char>, kind: int) -> MdSeg {
    let f = match find_seq(t, c) {
        Some(f) => f,
        None => 0,
    };
    let sp = line_spans(s)[i];
    let lead = s.subrange(sp.0, trim_range(s, sp.0, sp.1).0);
    let start = vstart(s, i) + blen(lead) + blen(t.take(f));
    (id, c, kind, start, start + blen(c))
}

pub open spec fn md_id(tag: Seq<char>, n: nat) -> Seq<char> {
    seq!['m', 'd', '.'] + tag + seq!['.'] + decimal(n)
}

pub open spec fn heading_tag(level: nat) -> Seq<char> {
    seq!['h'] + decimal(level)
}

/// The segments found from line `i` on, with the counters of headings,
/// paragraphs, list items and block quotes seen so far.
pub open spec fn md_segs_from(s: Seq<char>, i: int, h: nat, p: nat, li: nat, bq: nat) -> Seq<MdSeg>
    decreases nlines(s) + 1 - i,
{
    if i < 0 || i >= nlines(s) {
        seq![]
    } else {
        let t = tline(s, i);
        if t.len() == 0 {
            md_segs_from(s, i + 1, h, p, li, bq)
        } else if starts_with(t, fence()) {
            let j = fence_close(s, i + 1);
            proof {
                lemma_fence_close(s, i + 1);
            }
            md_segs_from(s, j + 1, h, p, li, bq)
        } else if t[0] == '>' {
            let c = trimmed(t.skip(strip_lead(t, 0, 0)));
            seq![line_seg(s, i, t, c, md_id(seq!['b', 'l', 'o', 'c', 'k', 'q', 'u', 'o', 't', 'e'], bq), 3)]
                + md_segs_from(s, i + 1, h, p, li, bq + 1)
        } else if t[0] == '-' || t[0] == '*' {
            let c = trimmed(t.skip(strip_lead(t, 1, 0)));
            seq![line_seg(s, i, t, c, md_id(seq!['l', 'i'], li), 2)] + md_segs_from(
                s,
                i + 1,
                h,
                p,
                li + 1,
                bq,
            )
        } else if t[0] == '#' {
            let level = strip_lead(t, 2, 0);
            let c = trimmed(t.skip(level));
            seq![line_seg(s, i, t, c, md_id(heading_tag(level as nat), h), 0)] + md_segs_from(
                s,
                i + 1,
                h + 1,
                p,
                li,
                bq,
            )
        } else {
            let j = para_end(s, i + 1);
            proof {
                lemma_para_end(s, i + 1);
            }
            let text = trimmed(join_lines(s, i, j));
            if text.len() > 0 {
                seq![
                    (
                        md_id(seq!['p'], p),
                        text,
                        1,
                        vstart(s, i),
                        vstart(s, j - 1) + blen(crate::text::line_text(s, j - 1)),
                    ),
                ] + md_segs_from(s, j, h, p + 1, li, bq)
            } else {
                md_segs_from(s, j, h, p, li, bq)
            }
        }
    }
}

/// The segments of `s`.
pub open spec fn md_segments(s: Seq<char>) -> Seq<MdSeg> {
    md_segs_from(s, 0, 0, 0, 0, 0)
}

pub open spec fn md_kind_name(kind: int) -> Seq<char> {
    if kind == 0 {
        "Heading"@
    } else if kind == 1 {
        "Paragraph"@
    } else if kind == 2 {
        "ListItem"@
    } else {
        "Blockquote"@
    }
}

/// The edits that the translations `ts` make: one per segment that has one.
pub open spec fn md_edits_of(s: Seq<char>, segs: Seq<MdSeg>, ts: Seq<TranslatedString>) -> Seq<Edit>
    decreases segs.len(),
{
    if segs.len() == 0 {
        seq![]
    } else {
        let rest = md_edits_of(s, segs.drop_first(), ts);
        match lookup(ts, segs[0].0) {
            Some(t) => seq![(char_at_byte(s, segs[0].3), char_at_byte(s, segs[0].4), t)] + rest,
            None => rest,
        }
    }
}

pub open spec fn md_edits(s: Seq<char>, ts: Seq<TranslatedString>) -> Seq<Edit> {
    md_edits_of(s, md_segments(s), ts)
}

/// Every byte position that a translation replaces at is a char boundary of
/// `s` (elsewhere the replacement panics).
pub open spec fn md_range_error() -> Seq<char> {
    "Markdown edit does not fall between characters"@
}

pub open spec fn md_edits_defined(s: Seq<char>, ts: Seq<TranslatedString>) -> bool {
    forall|k: int|
        0 <= k < md_segments(s).len() && (#[trigger] lookup(ts, md_segments(s)[k].0)) is Some
            ==> is_boundary(s, md_segments(s)[k].3) && is_boundary(s, md_segments(s)[k].4)
}

// ---------------------------------------------------------------------------
// Facts about the model
// ---------------------------------------------------------------------------
pub proof fn lemma_fence_close(s: Seq<char>, j: int)
    ensures
        j <= nlines(s) ==> j <= fence_close(s, j) <= nlines(s),
        j > nlines(s) ==> fence_close(s, j) == nlines(s),
        forall|k: int| j <= k < fence_close(s, j) ==> !starts_with(#[trigger] tline(s, k), fence()),
        fence_close(s, j) < nlines(s) ==> starts_with(tline(s, fence_close(s, j)), fence()),
    decreases nlines(s) - j,
{
    if j < nlines(s) && !starts_with(tline(s, j), fence()) {
        lemma_fence_close(s, j + 1);
    }
}

pub proof fn lemma_para_end(s: Seq<char>, j: int)
    ensures
        j <= nlines(s) ==> j <= para_end(s, j) <= nlines(s),
        j > nlines(s) ==> para_end(s, j) == nlines(s),
        forall|k: int| j <= k < para_end(s, j) ==> !breaks_paragraph(#[trigger] tline(s, k)),
        para_end(s, j) < nlines(s) ==> breaks_paragraph(tline(s, para_end(s, j))),
    decreases nlines(s) - j,
{
    if j < nlines(s) && !breaks_paragraph(tline(s, j)) {
        lemma_para_end(s, j + 1);
    }
}

/// Line `m`'s length in bytes, from the byte offsets of its span.
pub proof fn lemma_line_blen(s: Seq<char>, m: int)
    requires
        0 <= m < nlines(s),
    ensures
        0 <= line_spans(s)[m].0 <= line_spans(s)[m].1 <= s.len(),
        blen(crate::text::line_text(s, m)) == byte_at(s, line_spans(s)[m].1) - byte_at(
            s,
            line_spans(s)[m].0,
        ),
{
    lemma_line_spans_ok(s);
    let sp = line_spans(s)[m];
    assert(sp.0 <= sp.1);
    lemma_byte_at_subrange(s, sp.0, sp.1, sp.1 - sp.0);
    let t = s.subrange(sp.0, sp.1);
    assert(t.take(t.len() as int) =~= t);
}

/// The virtual start of a line is at most its real start.
pub proof fn lemma_vstart_le(s: Seq<char>, m: int)
    requires
        0 <= m < nlines(s),
    ensures
        0 <= vstart(s, m) <= byte_at(s, line_spans(s)[m].0),
    decreases m,
{
    lemma_line_spans_ok(s);
    if m > 0 {
        lemma_vstart_le(s, m - 1);
        lemma_line_blen(s, m - 1);
        let a = line_spans(s)[m - 1];
        let b = line_spans(s)[m];
        assert(a.1 < b.0);
        lemma_byte_at_mono(s, a.1, b.0);
        lemma_byte_at_mono(s, a.0, a.1);
    }
}

// ---------------------------------------------------------------------------
// Executable code
// ---------------------------------------------------------------------------
/// A translatable block with its byte range.
struct Segment {
    id: String,
    text: Vec<char>,
    kind: SegmentKind,
    start: usize,
    end: usize,
}

spec fn kind_code(k: SegmentKind) -> int {
    match k {
        SegmentKind::Heading => 0,
        SegmentKind::Paragraph => 1,
        SegmentKind::ListItem => 2,
        SegmentKind::Blockquote => 3,
    }
}

spec fn seg_view(g: Segment) -> MdSeg {
    (g.id@, g.text@, kind_code(g.kind), g.start as int, g.end as int)
}

spec fn segs_view(gs: Seq<Segment>) -> Seq<MdSeg> {
    gs.map_values(|g: Segment| seg_view(g))
}

/// What the line scan shares: the text, byte offsets, lines, virtual starts.
struct MdDoc {
    s: Vec<char>,
    offs: Vec<usize>,
    spans: Vec<(usize, usize)>,
    vs: Vec<usize>,
}

spec fn doc_ok(d: MdDoc) -> bool {
    &&& d.offs@.len() == d.s@.len() + 1
    &&& forall|i: int| 0 <= i <= d.s@.len() ==> #[trigger] d.offs@[i] as int == byte_at(d.s@, i)
    &&& crate::text::as_int_pairs(d.spans@) == line_spans(d.s@)
    &&& d.vs@.len() == d.spans@.len()
    &&& forall|m: int| 0 <= m < d.vs@.len() ==> #[trigger] d.vs@[m] as int == vstart(d.s@, m)
}

fn make_doc(content: &str) -> (d: MdDoc)
    requires
        blen(content@) <= usize::MAX,
    ensures
        doc_ok(d),
        d.s@ == content@,
{
    let s = chars_of(content);
    let offs = byte_offsets(&s);
    let spans = line_spans_of(&s);
    let mut vs: Vec<usize> = Vec::new();
    let mut cur: usize = 0;
    let mut m: usize = 0;
    while m < spans.len()
        invariant
            offs@.len() == s@.len() + 1,
            forall|i: int| 0 <= i <= s@.len() ==> #[trigger] offs@[i] as int == byte_at(s@, i),
            crate::text::as_int_pairs(spans@) == line_spans(s@),
            0 <= m <= spans@.len(),
            vs@.len() == m,
            m < spans@.len() ==> cur as int == vstart(s@, m as int),
            forall|k: int| 0 <= k < m ==> #[trigger] vs@[k] as int == vstart(s@, k),
        decreases spans.len() - m,
    {
        vs.push(cur);
        let (a, b) = spans[m];
        assert(line_spans(s@)[m as int] == (a as int, b as int));
        proof {
            lemma_line_blen(s@, m as int);
            lemma_vstart_le(s@, m as int);
            lemma_byte_at_mono(s@, b as int, s@.len() as int);
            lemma_byte_at_mono(s@, a as int, b as int);
            assert(s@.take(s@.len() as int) =~= s@);
            if m + 1 < spans.len() {
                lemma_vstart_le(s@, m + 1);
                lemma_line_blen(s@, m + 1);
                lemma_byte_at_mono(s@, line_spans(s@)[m + 1].0, s@.len() as int);
            }
        }
        if m + 1 < spans.len() {
            proof {
                let ghost nx = line_spans(s@)[m + 1].0;
                assert(vstart(s@, m + 1) == vstart(s@, m as int) + blen(
                    crate::text::line_text(s@, m as int),
                ) + 1);
                assert(crate::text::line_text(s@, m as int) == s@.subrange(a as int, b as int));
                assert(offs@[s@.len() as int] as int == byte_at(s@, s@.len() as int));
                assert(offs@[b as int] as int == byte_at(s@, b as int));
                assert(offs@[a as int] as int == byte_at(s@, a as int));
            }
            cur = cur + (offs[b] - offs[a]) + 1;
        }
        m = m + 1;
    }
    MdDoc { s, offs, spans, vs }
}

/// The trimmed range of line `m`.
fn tline_range(d: &MdDoc, m: usize) -> (r: (usize, usize))
    requires
        doc_ok(*d),
        m < d.spans@.len(),
    ensures
        d.s@.subrange(r.0 as int, r.1 as int) == tline(d.s@, m as int),
        line_spans(d.s@)[m as int].0 <= r.0 <= r.1 <= line_spans(d.s@)[m as int].1,
        r.1 <= d.s@.len(),
        r.0 as int == trim_range(d.s@, line_spans(d.s@)[m as int].0, line_spans(d.s@)[m as int].1).0,
        r.1 as int == trim_range(d.s@, line_spans(d.s@)[m as int].0, line_spans(d.s@)[m as int].1).1,
{
    let (a, b) = d.spans[m];
    assert(line_spans(d.s@)[m as int] == (a as int, b as int));
    proof {
        lemma_line_blen(d.s@, m as int);
    }
    trim_of(&d.s, a, b)
}

/// The index past the leading chars of `s[a..b]` that `mode` strips, relative to `a`.
fn strip_lead_in(s: &[char], a: usize, b: usize, mode: u8) -> (r: usize)
    requires
        a <= b <= s.len(),
        mode <= 2,
    ensures
        r as int == strip_lead(s@.subrange(a as int, b as int), mode as int, 0),
        r <= b - a,
{
    let ghost t = s@.subrange(a as int, b as int);
    let mut k: usize = 0;
    while a + k < b
        invariant
            a <= b <= s.len(),
            0 <= k <= b - a,
            t == s@.subrange(a as int, b as int),
            strip_lead(t, mode as int, 0) == strip_lead(t, mode as int, k as int),
        decreases b - a - k,
    {
        let c = s[a + k];
        let lead = if mode == 0 {
            c == '>'
        } else if mode == 1 {
            c == '-' || c == '*' || c == ' '
        } else {
            c == '#'
        };
        if !lead {
            return k;
        }
        k = k + 1;
    }
    k
}

/// `s[a..b].find(s[c..e])`, relative to `a`.
fn find_seq_in(s: &[char], a: usize, b: usize, c: usize, e: usize) -> (r: Option<usize>)
    requires
        a <= b <= s.len(),
        c <= e <= s.len(),
    ensures
        match r {
            Some(f) => find_seq(s@.subrange(a as int, b as int), s@.subrange(c as int, e as int))
                == Some(f as int),
            None => find_seq(s@.subrange(a as int, b as int), s@.subrange(c as int, e as int)) is None,
        },
{
    let ghost hay = s@.subrange(a as int, b as int);
    let ghost needle = s@.subrange(c as int, e as int);
    let n = e - c;
    if n > b - a {
        return None;
    }
    let mut f: usize = 0;
    while f <= (b - a) - n
        invariant
            a <= b <= s.len(),
            c <= e <= s.len(),
            n == e - c,
            n <= b - a,
            hay == s@.subrange(a as int, b as int),
            needle == s@.subrange(c as int, e as int),
            find_seq(hay, needle) == find_seq_from(hay, needle, f as int),
        decreases b - a - f,
    {
        let mut k: usize = 0;
        let mut same = true;
        while k < n
            invariant
                a <= b <= s.len(),
                c <= e <= s.len(),
                n == e - c,
                n <= b - a,
                f <= (b - a) - n,
                0 <= k <= n,
                hay == s@.subrange(a as int, b as int),
                needle == s@.subrange(c as int, e as int),
                same == forall|j: int| 0 <= j < k ==> hay[f + j] == #[trigger] needle[j],
            decreases n - k,
        {
            if s[a + f + k] != s[c + k] {
                same = false;
            }
            assert(hay[f + k] == s@[a + f + k] && needle[k as int] == s@[c + k]);
            k = k + 1;
        }
        if same {
            assert(hay.subrange(f as int, f + needle.len()) =~= needle);
            return Some(f);
        } else {
            assert(hay.subrange(f as int, f + needle.len()) != needle) by {
                let j = choose|j: int| 0 <= j < n && hay[f + j] != #[trigger] needle[j];
                assert(hay.subrange(f as int, f + needle.len())[j] != needle[j]);
            }
        }
        f = f + 1;
    }
    None
}

/// `md.{tag}.{n}`.
fn md_id_string(tag: &[char], n: usize) -> (r: String)
    ensures
        r@ == md_id(tag@, n as nat),
{
    let mut v = vec!['m', 'd', '.'];
    crate::text::push_all(&mut v, tag);
    v.push('.');
    push_decimal(&mut v, n as u64);
    assert(v@ =~= md_id(tag@, n as nat));
    string_of(&v)
}

/// `h{level}`.
fn heading_tag_vec(level: usize) -> (r: Vec<char>)
    ensures
        r@ == heading_tag(level as nat),
{
    let mut v = vec!['h'];
    push_decimal(&mut v, level as u64);
    assert(v@ =~= heading_tag(level as nat));
    v
}

/// The segment of a one-line block: `s[cs..ce]` cut from the trimmed line
/// `s[ts..te]` of line `i`.
#[verifier::spinoff_prover]
#[verifier::rlimit(30)]
fn line_segment(
    d: &MdDoc,
    i: usize,
    ts: usize,
    te: usize,
    cs: usize,
    ce: usize,
    id: String,
    kind: SegmentKind,
) -> (g: Segment)
    requires
        doc_ok(*d),
        i < d.spans@.len(),
        line_spans(d.s@)[i as int].0 <= ts <= cs <= ce <= te <= d.s@.len(),
        ts as int == trim_range(d.s@, line_spans(d.s@)[i as int].0, line_spans(d.s@)[i as int].1).0,
    ensures
        seg_view(g) == line_seg(
            d.s@,
            i as int,
            d.s@.subrange(ts as int, te as int),
            d.s@.subrange(cs as int, ce as int),
            id@,
            kind_code(kind),
        ),
{
    let ghost s = d.s@;
    let ghost t = s.subrange(ts as int, te as int);
    let ghost c = s.subrange(cs as int, ce as int);
    proof {
        lemma_vstart_le(s, i as int);
        lemma_byte_at_mono(s, line_spans(s)[i as int].0, ts as int);
        lemma_byte_at_mono(s, ts as int, cs as int);
        lemma_byte_at_mono(s, cs as int, ce as int);
        lemma_byte_at_mono(s, ce as int, te as int);
        lemma_byte_at_subrange(s, cs as int, ce as int, (ce - cs) as int);
        assert(c.take(c.len() as int) =~= c);
    }
    let f = match find_seq_in(&d.s, ts, te, cs, ce) {
        Some(f) => {
            proof {
                lemma_find_seq(t, c, 0);
                lemma_byte_at_subrange(s, ts as int, te as int, f as int);
                lemma_byte_at_subrange(s, (ts + f) as int, te as int, c.len() as int);
                assert(s.subrange((ts + f) as int, te as int).take(c.len() as int) =~= t.subrange(
                    f as int,
                    f + c.len(),
                ));
                lemma_byte_at_mono(s, ts as int, (ts + f) as int);
                lemma_byte_at_mono(s, (ts + f + c.len()) as int, te as int);
            }
            f
        },
        None => 0,
    };
    proof {
        lemma_byte_at_subrange(s, ts as int, te as int, f as int);
        lemma_byte_at_mono(s, ts as int, (ts + f) as int);
        lemma_byte_at_mono(s, te as int, s.len() as int);
        assert(s.take(s.len() as int) =~= s);
    }
    let a0 = d.spans[i].0;
    proof {
        let ghost a = line_spans(s)[i as int].0;
        assert(a0 == a);
        lemma_byte_at_subrange(s, a, ts as int, ts - a);
        assert(s.subrange(a, ts as int).take(ts - a) =~= s.subrange(a, ts as int));
        lemma_byte_at_mono(s, a, ts as int);
    }
    let start = d.vs[i] + (d.offs[ts + f] - d.offs[a0]);
    proof {
        let ghost a = line_spans(s)[i as int].0;
        assert(d.offs@[a] as int == byte_at(s, a));
        assert(d.offs@[te as int] as int == byte_at(s, te as int));
        assert(blen(c) == byte_at(s, ce as int) - byte_at(s, cs as int));
        assert(blen(t.take(f as int)) == byte_at(s, (ts + f) as int) - byte_at(s, ts as int));
        assert(start + blen(c) <= byte_at(s, te as int));
    }
    let end = start + (d.offs[ce] - d.offs[cs]);
    Segment { id, text: slice_vec(&d.s, cs, ce), kind, start, end }
}

/// Where `needle` is found, it is there, inside `hay`.
pub proof fn lemma_find_seq(hay: Seq<char>, needle: Seq<char>, i: int)
    requires
        0 <= i,
    ensures
        find_seq_from(hay, needle, i) matches Some(f) ==> i <= f && f + needle.len() <= hay.len()
            && hay.subrange(f, f + needle.len()) == needle,
    decreases hay.len() - i,
{
    if i + needle.len() <= hay.len() && hay.subrange(i, i + needle.len()) != needle {
        if needle.len() == 0 {
            assert(hay.subrange(i, i + needle.len()) =~= needle);
        }
        lemma_find_seq(hay, needle, i + 1);
    }
}

/// The first line at or after `j` whose trimmed text starts with a fence.
fn skip_fence(d: &MdDoc, fence_v: &[char], j: usize) -> (r: usize)
    requires
        doc_ok(*d),
        fence_v@ == fence(),
        j <= d.spans@.len(),
    ensures
        r as int == fence_close(d.s@, j as int),
        r <= d.spans@.len(),
{
    let mut k = j;
    while k < d.spans.len()
        invariant
            doc_ok(*d),
            fence_v@ == fence(),
            j <= k <= d.spans@.len(),
            fence_close(d.s@, j as int) == fence_close(d.s@, k as int),
        decreases d.spans.len() - k,
    {
        let (x, y) = tline_range(d, k);
        if starts_with_at(&d.s, x, y, fence_v) {
            return k;
        }
        k = k + 1;
    }
    k
}

/// Whether the trimmed line `s[x..y]` ends a paragraph.
fn breaks_at(s: &[char], x: usize, y: usize, fence_v: &[char]) -> (r: bool)
    requires
        x <= y <= s.len(),
        fence_v@ == fence(),
    ensures
        r == breaks_paragraph(s@.subrange(x as int, y as int)),
{
    if x == y {
        return true;
    }
    let c = s[x];
    c == '#' || c == '>' || c == '-' || c == '*' || starts_with_at(s, x, y, fence_v)
}

/// The first line at or after `j` that ends a paragraph.
fn paragraph_end(d: &MdDoc, fence_v: &[char], j: usize) -> (r: usize)
    requires
        doc_ok(*d),
        fence_v@ == fence(),
        j <= d.spans@.len(),
    ensures
        r as int == para_end(d.s@, j as int),
        j <= r <= d.spans@.len(),
{
    let mut k = j;
    while k < d.spans.len()
        invariant
            doc_ok(*d),
            fence_v@ == fence(),
            j <= k <= d.spans@.len(),
            para_end(d.s@, j as int) == para_end(d.s@, k as int),
        decreases d.spans.len() - k,
    {
        let (x, y) = tline_range(d, k);
        if breaks_at(&d.s, x, y, fence_v) {
            return k;
        }
        k = k + 1;
    }
    k
}

/// The chars of lines `[i, j)` joined with `'\n'`.
fn join_range(d: &MdDoc, i: usize, j: usize) -> (r: Vec<char>)
    requires
        doc_ok(*d),
        i < j <= d.spans@.len(),
    ensures
        r@ == join_lines(d.s@, i as int, j as int),
{
    let mut out: Vec<char> = Vec::new();
    let mut m = i;
    while m < j
        invariant
            doc_ok(*d),
            i <= m <= j <= d.spans@.len(),
            m == i ==> out@.len() == 0,
            m > i ==> out@ == join_lines(d.s@, i as int, m as int),
        decreases j - m,
    {
        if m > i {
            out.push('\n');
        }
        let (a, b) = d.spans[m];
        assert(line_spans(d.s@)[m as int] == (a as int, b as int));
        proof {
            lemma_line_blen(d.s@, m as int);
        }
        let ghost before = out@;
        crate::text::push_range(&mut out, &d.s, a, b);
        assert(out@ =~= join_lines(d.s@, i as int, m + 1)) by {
            if m > i {
                assert(out@ =~= before + crate::text::line_text(d.s@, m as int));
            }
        }
        m = m + 1;
    }
    out
}

/// The paragraph made of lines `[i, j)`, if its text is not blank.
fn paragraph_segment(d: &MdDoc, i: usize, j: usize, id: String) -> (r: Option<Segment>)
    requires
        doc_ok(*d),
        i < j <= d.spans@.len(),
    ensures
        match r {
            Some(g) => trimmed(join_lines(d.s@, i as int, j as int)).len() > 0 && seg_view(g) == (
                id@,
                trimmed(join_lines(d.s@, i as int, j as int)),
                1int,
                vstart(d.s@, i as int),
                vstart(d.s@, j - 1) + blen(crate::text::line_text(d.s@, j - 1)),
            ),
            None => trimmed(join_lines(d.s@, i as int, j as int)).len() == 0,
        },
{
    let joined = join_range(d, i, j);
    let (x, y) = trim_of(&joined, 0, joined.len());
    proof {
        crate::text::lemma_trimmed_window(joined@, 0, joined@.len() as int);
        assert(joined@.subrange(0, joined@.len() as int) =~= joined@);
    }
    if x == y {
        return None;
    }
    let text = slice_vec(&joined, x, y);
    let (a, b) = d.spans[j - 1];
    assert(line_spans(d.s@)[j - 1] == (a as int, b as int));
    proof {
        lemma_line_blen(d.s@, j - 1);
        lemma_vstart_le(d.s@, j - 1);
        lemma_byte_at_mono(d.s@, a as int, b as int);
    }
    let end = d.vs[j - 1] + (d.offs[b] - d.offs[a]);
    Some(Segment { id, text, kind: SegmentKind::Paragraph, start: d.vs[i], end })
}

fn fence_vec() -> (v: Vec<char>)
    ensures
        v@ == fence(),
{
    let v = vec!['`', '`', '`'];
    assert(v@ =~= fence());
    v
}

/// One step of the scan: `segs` grows by `seg` and the scan resumes after.
proof fn lemma_segs_step(segs: Seq<Segment>, g: Segment, rest: Seq<MdSeg>, whole: Seq<MdSeg>)
    requires
        segs_view(segs) + (seq![seg_view(g)] + rest) == whole,
    ensures
        segs_view(segs.push(g)) + rest == whole,
{
    assert(segs_view(segs.push(g)) =~= segs_view(segs).push(seg_view(g)));
    assert(segs_view(segs).push(seg_view(g)) + rest =~= segs_view(segs) + (seq![seg_view(g)]
        + rest));
}

/// The translatable blocks of the document, in order.
fn extract_md_segments(d: &MdDoc) -> (segs: Vec<Segment>)
    requires
        doc_ok(*d),
    ensures
        segs_view(segs@) == md_segments(d.s@),
{
    let fence_v = fence_vec();
    let n = d.spans.len();
    let mut segs: Vec<Segment> = Vec::new();
    let mut i: usize = 0;
    let mut h: usize = 0;
    let mut p: usize = 0;
    let mut li: usize = 0;
    let mut bq: usize = 0;
    assert(segs_view(segs@) =~= Seq::<MdSeg>::empty());
    while i < n
        invariant
            doc_ok(*d),
            fence_v@ == fence(),
            n == d.spans@.len(),
            n == nlines(d.s@),
            h + p + li + bq <= i,
            segs_view(segs@) + md_segs_from(d.s@, i as int, h as nat, p as nat, li as nat, bq as nat)
                == md_segments(d.s@),
        decreases n + 1 - i,
    {
        let ghost s = d.s@;
        let (x, y) = tline_range(d, i);
        let ghost t = s.subrange(x as int, y as int);
        if x == y {
            i = i + 1;
            continue;
        }
        if starts_with_at(&d.s, x, y, &fence_v) {
            let j = skip_fence(d, &fence_v, i + 1);
            proof {
                lemma_fence_close(s, i + 1);
                assert(md_segs_from(s, i as int, h as nat, p as nat, li as nat, bq as nat)
                    == md_segs_from(s, j + 1, h as nat, p as nat, li as nat, bq as nat));
                if j == n {
                    assert(md_segs_from(s, j + 1, h as nat, p as nat, li as nat, bq as nat)
                        == md_segs_from(s, n as int, h as nat, p as nat, li as nat, bq as nat));
                }
            }
            i = if j < n {
                j + 1
            } else {
                n
            };
            continue;
        }
        let c0 = d.s[x];
        assert(t[0] == c0);
        if c0 == '>' {
            let k = strip_lead_in(&d.s, x, y, 0);
            let (cs, ce) = trim_of(&d.s, x + k, y);
            proof {
                crate::text::lemma_trimmed_window(s, (x + k) as int, y as int);
                assert(t.skip(k as int) =~= s.subrange((x + k) as int, y as int));
            }
            let tag = vec!['b', 'l', 'o', 'c', 'k', 'q', 'u', 'o', 't', 'e'];
            let id = md_id_string(&tag, bq);
            let g = line_segment(d, i, x, y, cs, ce, id, SegmentKind::Blockquote);
            proof {
                assert(tag@ =~= seq!['b', 'l', 'o', 'c', 'k', 'q', 'u', 'o', 't', 'e']);
                lemma_segs_step(
                    segs@,
                    g,
                    md_segs_from(s, i + 1, h as nat, p as nat, li as nat, (bq + 1) as nat),
                    md_segments(s),
                );
            }
            segs.push(g);
            bq = bq + 1;
            i = i + 1;
        } else if c0 == '-' || c0 == '*' {
            let k = strip_lead_in(&d.s, x, y, 1);
            let (cs, ce) = trim_of(&d.s, x + k, y);
            proof {
                crate::text::lemma_trimmed_window(s, (x + k) as int, y as int);
                assert(t.skip(k as int) =~= s.subrange((x + k) as int, y as int));
            }
            let tag = vec!['l', 'i'];
            let id = md_id_string(&tag, li);
            let g = line_segment(d, i, x, y, cs, ce, id, SegmentKind::ListItem);
            proof {
                assert(tag@ =~= seq!['l', 'i']);
                lemma_segs_step(
                    segs@,
                    g,
                    md_segs_from(s, i + 1, h as nat, p as nat, (li + 1) as nat, bq as nat),
                    md_segments(s),
                );
            }
            segs.push(g);
            li = li + 1;
            i = i + 1;
        } else if c0 == '#' {
            let k = strip_lead_in(&d.s, x, y, 2);
            let (cs, ce) = trim_of(&d.s, x + k, y);
            proof {
                crate::text::lemma_trimmed_window(s, (x + k) as int, y as int);
                assert(t.skip(k as int) =~= s.subrange((x + k) as int, y as int));
            }
            let tag = heading_tag_vec(k);
            let id = md_id_string(&tag, h);
            let g = line_segment(d, i, x, y, cs, ce, id, SegmentKind::Heading);
            proof {
                lemma_segs_step(
                    segs@,
                    g,
                    md_segs_from(s, i + 1, (h + 1) as nat, p as nat, li as nat, bq as nat),
                    md_segments(s),
                );
            }
            segs.push(g);
            h = h + 1;
            i = i + 1;
        } else {
            let j = paragraph_end(d, &fence_v, i + 1);
            let tag = vec!['p'];
            let id = md_id_string(&tag, p);
            assert(tag@ =~= seq!['p']);
            match paragraph_segment(d, i, j, id) {
                Some(g) => {
                    proof {
                        lemma_segs_step(
                            segs@,
                            g,
                            md_segs_from(s, j as int, h as nat, (p + 1) as nat, li as nat, bq as nat),
                            md_segments(s),
                        );
                    }
                    segs.push(g);
                    p = p + 1;
                },
                None => {},
            }
            i = j;
        }
    }
    proof {
        assert(md_segs_from(d.s@, i as int, h as nat, p as nat, li as nat, bq as nat) =~= Seq::<
            MdSeg,
        >::empty());
        assert(segs_view(segs@) + Seq::<MdSeg>::empty() =~= segs_view(segs@));
    }
    segs
}

// ---------------------------------------------------------------------------
// Order of the segments
// ---------------------------------------------------------------------------
pub proof fn lemma_vstart_mono(s: Seq<char>, a: int, b: int)
    requires
        a <= b,
    ensures
        vstart(s, a) + (b - a) <= vstart(s, b) || a < 0,
        0 <= a < b ==> vstart(s, b - 1) + blen(crate::text::line_text(s, b - 1)) < vstart(s, b),
    decreases b - a,
{
    if a < b {
        lemma_vstart_mono(s, a, b - 1);
    }
}

/// Byte ranges in increasing order, each at or after `lo`.
pub open spec fn segs_ok(segs: Seq<MdSeg>, lo: int) -> bool {
    &&& forall|k: int| 0 <= k < segs.len() ==> lo <= (#[trigger] segs[k]).3 <= segs[k].4
    &&& forall|k: int| 0 < k < segs.len() ==> segs[k - 1].4 < (#[trigger] segs[k]).3
}

proof fn lemma_segs_ok_prepend(g: MdSeg, rest: Seq<MdSeg>, lo: int, lo2: int)
    requires
        segs_ok(rest, lo2),
        lo <= g.3 <= g.4 < lo2,
    ensures
        segs_ok(seq![g] + rest, lo),
{
    let all = seq![g] + rest;
    assert forall|k: int| 0 <= k < all.len() implies lo <= (#[trigger] all[k]).3 <= all[k].4 by {
        if k > 0 {
            assert(all[k] == rest[k - 1]);
        }
    }
    assert forall|k: int| 0 < k < all.len() implies all[k - 1].4 < (#[trigger] all[k]).3 by {
        assert(all[k] == rest[k - 1]);
        if k > 1 {
            assert(all[k - 1] == rest[k - 2]);
        }
    }
}

/// The segments are byte ranges in increasing order, each starting at or
/// after line `i` (virtually).
pub proof fn lemma_md_segs_ordered(s: Seq<char>, i: int, h: nat, p: nat, li: nat, bq: nat)
    requires
        0 <= i,
    ensures
        segs_ok(md_segs_from(s, i, h, p, li, bq), vstart(s, i)),
    decreases nlines(s) + 1 - i,
{
    let segs = md_segs_from(s, i, h, p, li, bq);
    if i < nlines(s) {
        let t = tline(s, i);
        lemma_line_blen(s, i);
        let sp = line_spans(s)[i];
        lemma_trim_range(s, sp.0, sp.1);
        let (ts, te) = trim_range(s, sp.0, sp.1);
        if t.len() == 0 {
            lemma_md_segs_ordered(s, i + 1, h, p, li, bq);
            lemma_vstart_mono(s, i, i + 1);
        } else if starts_with(t, fence()) {
            let j = fence_close(s, i + 1);
            lemma_fence_close(s, i + 1);
            lemma_md_segs_ordered(s, j + 1, h, p, li, bq);
            lemma_vstart_mono(s, i, j + 1);
        } else if t[0] == '>' || t[0] == '-' || t[0] == '*' || t[0] == '#' {
            let (nh, np, nli, nbq) = if t[0] == '>' {
                (h, p, li, bq + 1)
            } else if t[0] == '-' || t[0] == '*' {
                (h, p, li + 1, bq)
            } else {
                (h + 1, p, li, bq)
            };
            let rest = md_segs_from(s, i + 1, nh, np, nli, nbq);
            lemma_md_segs_ordered(s, i + 1, nh, np, nli, nbq);
            let mode = if t[0] == '>' {
                0int
            } else if t[0] == '-' || t[0] == '*' {
                1int
            } else {
                2int
            };
            let k0 = strip_lead(t, mode, 0);
            lemma_strip_lead(t, mode, 0);
            let c = trimmed(t.skip(k0));
            lemma_line_seg_bounds(s, i, ts, te, k0);
            let g = if t[0] == '>' {
                line_seg(s, i, t, c, md_id(seq!['b', 'l', 'o', 'c', 'k', 'q', 'u', 'o', 't', 'e'], bq), 3)
            } else if t[0] == '-' || t[0] == '*' {
                line_seg(s, i, t, c, md_id(seq!['l', 'i'], li), 2)
            } else {
                line_seg(s, i, t, c, md_id(heading_tag(k0 as nat), h), 0)
            };
            assert(segs == seq![g] + rest);
            lemma_segs_ok_prepend(g, rest, vstart(s, i), vstart(s, i + 1));
        } else {
            let j = para_end(s, i + 1);
            lemma_para_end(s, i + 1);
            lemma_vstart_mono(s, i, j - 1);
            lemma_vstart_mono(s, j - 1, j);
            lemma_vstart_mono(s, i, j);
            let text = trimmed(join_lines(s, i, j));
            if text.len() > 0 {
                let rest = md_segs_from(s, j, h, p + 1, li, bq);
                lemma_md_segs_ordered(s, j, h, p + 1, li, bq);
                let g = (
                    md_id(seq!['p'], p),
                    text,
                    1int,
                    vstart(s, i),
                    vstart(s, j - 1) + blen(crate::text::line_text(s, j - 1)),
                );
                assert(segs == seq![g] + rest);
                lemma_segs_ok_prepend(g, rest, vstart(s, i), vstart(s, j));
            } else {
                lemma_md_segs_ordered(s, j, h, p, li, bq);
            }
        }
    }
}

proof fn lemma_strip_lead(t: Seq<char>, mode: int, i: int)
    requires
        0 <= i <= t.len(),
    ensures
        i <= strip_lead(t, mode, i) <= t.len(),
    decreases t.len() - i,
{
    if i < t.len() && lead_char(t[i], mode) {
        lemma_strip_lead(t, mode, i + 1);
    }
}

/// A one-line segment lies inside its line (virtually).
proof fn lemma_line_seg_bounds(s: Seq<char>, i: int, ts: int, te: int, k0: int)
    requires
        0 <= i < nlines(s),
        line_spans(s)[i].0 <= ts <= te <= line_spans(s)[i].1 <= s.len(),
        ts == trim_range(s, line_spans(s)[i].0, line_spans(s)[i].1).0,
        0 <= k0 <= te - ts,
    ensures
        forall|id: Seq<char>, kind: int|
            #![trigger line_seg(s, i, s.subrange(ts, te), trimmed(s.subrange(ts, te).skip(k0)), id, kind)]
            {
                let g = line_seg(s, i, s.subrange(ts, te), trimmed(s.subrange(ts, te).skip(k0)), id, kind);
                vstart(s, i) <= g.3 <= g.4 < vstart(s, i + 1)
            },
{
    let sp = line_spans(s)[i];
    lemma_line_blen(s, i);
    let t = s.subrange(ts, te);
    let c = trimmed(t.skip(k0));
    let (cs, ce) = trim_range(s, ts + k0, te);
    lemma_trim_range(s, ts + k0, te);
    crate::text::lemma_trimmed_window(s, ts + k0, te);
    assert(t.skip(k0) =~= s.subrange(ts + k0, te));
    assert(c == s.subrange(cs, ce));
    lemma_vstart_mono(s, i, i + 1);
    // blen of t is at most blen of the line
    lemma_byte_at_subrange(s, ts, te, te - ts);
    lemma_byte_at_subrange(s, cs, ce, ce - cs);
    assert(t.take(t.len() as int) =~= t);
    assert(c.take(c.len() as int) =~= c);
    lemma_byte_at_mono(s, sp.0, ts);
    lemma_byte_at_subrange(s, sp.0, ts, ts - sp.0);
    assert(s.subrange(sp.0, ts).take(ts - sp.0) =~= s.subrange(sp.0, ts));
    lemma_byte_at_mono(s, te, sp.1);
    lemma_byte_at_mono(s, ts, cs);
    lemma_byte_at_mono(s, ce, te);
    match find_seq(t, c) {
        Some(f) => {
            lemma_find_seq(t, c, 0);
            lemma_byte_at_subrange(s, ts, te, f);
            lemma_byte_at_subrange(s, ts + f, te, c.len() as int);
            assert(s.subrange(ts + f, te).take(c.len() as int) =~= t.subrange(f, f + c.len()));
            lemma_byte_at_mono(s, ts, ts + f);
            lemma_byte_at_mono(s, ts + f + c.len(), te);
            assert(t.take(f) =~= s.subrange(ts, te).take(f));
        },
        None => {
            assert(t.take(0) =~= Seq::<char>::empty());
            lemma_blen_empty();
        },
    }
}

proof fn lemma_blen_empty()
    ensures
        blen(Seq::<char>::empty()) == 0,
{
    assert(vstd::utf8::encode_utf8(Seq::<char>::empty()) =~= Seq::<u8>::empty());
}

/// Boundaries in byte order have char indices in the same order.
proof fn lemma_cab_order(s: Seq<char>, b1: int, b2: int)
    requires
        is_boundary(s, b1),
        is_boundary(s, b2),
    ensures
        b1 <= b2 ==> char_at_byte(s, b1) <= char_at_byte(s, b2),
        b1 < b2 ==> char_at_byte(s, b1) < char_at_byte(s, b2),
        0 <= char_at_byte(s, b1) <= s.len(),
        byte_at(s, char_at_byte(s, b1)) == b1,
{
    let i = char_at_byte(s, b1);
    let j = char_at_byte(s, b2);
    if j < i {
        lemma_byte_at_mono(s, j, i);
    }
    if j == i {
    }
}

/// The edits of defined translations are ordered.
proof fn lemma_md_edits_ordered(s: Seq<char>, segs: Seq<MdSeg>, ts: Seq<TranslatedString>, lo: int)
    requires
        segs_ok(segs, lo),
        forall|k: int|
            0 <= k < segs.len() && (#[trigger] lookup(ts, segs[k].0)) is Some ==> is_boundary(
                s,
                segs[k].3,
            ) && is_boundary(s, segs[k].4),
    ensures
        edits_ordered(s, md_edits_of(s, segs, ts), 0),
        forall|k: int|
            0 <= k < md_edits_of(s, segs, ts).len() ==> segs.len() > 0 && segs[0].3 <= byte_at(
                s,
                (#[trigger] md_edits_of(s, segs, ts)[k]).0,
            ),
    decreases segs.len(),
{
    if segs.len() > 0 {
        let rest = segs.drop_first();
        assert(segs_ok(rest, segs[0].4 + 1)) by {
            assert forall|k: int| 0 <= k < rest.len() implies segs[0].4 + 1 <= (
            #[trigger] rest[k]).3 <= rest[k].4 by {
                assert(rest[k] == segs[k + 1]);
                lemma_segs_chain(segs, lo, k + 1);
            }
            assert forall|k: int| 0 < k < rest.len() implies rest[k - 1].4 < (#[trigger] rest[k]).3 by {
                assert(rest[k] == segs[k + 1]);
                assert(rest[k - 1] == segs[k]);
            }
        }
        assert forall|k: int| 0 <= k < rest.len() && (#[trigger] lookup(ts, rest[k].0)) is Some
            implies is_boundary(s, rest[k].3) && is_boundary(s, rest[k].4) by {
            assert(rest[k] == segs[k + 1]);
        }
        lemma_md_edits_ordered(s, rest, ts, segs[0].4 + 1);
        let er = md_edits_of(s, rest, ts);
        let e = md_edits_of(s, segs, ts);
        assert(segs[0].3 <= segs[0].4);
        match lookup(ts, segs[0].0) {
            Some(t) => {
                lemma_cab_order(s, segs[0].3, segs[0].4);
                lemma_cab_order(s, segs[0].4, segs[0].3);
                assert(e == seq![(char_at_byte(s, segs[0].3), char_at_byte(s, segs[0].4), t)] + er);
                assert forall|k: int| 0 < k < e.len() implies e[k - 1].1 <= #[trigger] e[k].0 by {
                    assert(e[k] == er[k - 1]);
                    if k == 1 {
                        // byte_at(s, er[0].0) > segs[0].4 == byte_at(s, e[0].1)
                        if er[0].0 < e[0].1 {
                            lemma_byte_at_mono(s, er[0].0, e[0].1);
                        }
                    } else {
                        assert(e[k - 1] == er[k - 2]);
                    }
                }
                assert forall|k: int| 0 <= k < e.len() implies 0 <= #[trigger] e[k].0 <= e[k].1
                    <= s.len() by {
                    if k > 0 {
                        assert(e[k] == er[k - 1]);
                    }
                }
                assert forall|k: int| 0 <= k < e.len() implies segs.len() > 0 && segs[0].3
                    <= byte_at(s, (#[trigger] e[k]).0) by {
                    if k > 0 {
                        assert(e[k] == er[k - 1]);
                    }
                }
            },
            None => {
                assert(e == er);
            },
        }
    }
}

proof fn lemma_segs_chain(segs: Seq<MdSeg>, lo: int, k: int)
    requires
        segs_ok(segs, lo),
        0 < k < segs.len(),
    ensures
        segs[0].4 < segs[k].3,
    decreases k,
{
    if k > 1 {
        lemma_segs_chain(segs, lo, k - 1);
        assert(segs[k - 1].3 <= segs[k - 1].4);
    }
}

// ---------------------------------------------------------------------------
// The handler
// ---------------------------------------------------------------------------
fn kind_context(k: SegmentKind) -> (r: String)
    ensures
        r@ == "Markdown "@ + md_kind_name(kind_code(k)),
{
    let name = match k {
        SegmentKind::Heading => "Heading",
        SegmentKind::Paragraph => "Paragraph",
        SegmentKind::ListItem => "ListItem",
        SegmentKind::Blockquote => "Blockquote",
    };
    let mut r = String::from_str("Markdown ");
    r.append(name);
    r
}

impl MarkdownHandler {
    /// The translatable blocks of a Markdown file, in order.
    pub fn extract(&self, content: &str) -> (r: Result<Vec<TranslatableString>, ZelligError>)
        requires
            blen(content@) <= usize::MAX,
        ensures
            r is Ok,
            r.unwrap()@.len() == md_segments(content@).len(),
            forall|k: int|
                0 <= k < r.unwrap()@.len() ==> (#[trigger] r.unwrap()@[k]).id@ == md_segments(
                    content@,
                )[k].0 && r.unwrap()@[k].text@ == md_segments(content@)[k].1
                    && r.unwrap()@[k]._context is Some && r.unwrap()@[k]._context.unwrap()@
                    == "Markdown "@ + md_kind_name(md_segments(content@)[k].2),
    {
        let d = make_doc(content);
        let segs = extract_md_segments(&d);
        let mut strings: Vec<TranslatableString> = Vec::new();
        let mut k: usize = 0;
        while k < segs.len()
            invariant
                d.s@ == content@,
                segs_view(segs@) == md_segments(content@),
                0 <= k <= segs@.len(),
                strings@.len() == k,
                forall|j: int|
                    0 <= j < k ==> (#[trigger] strings@[j]).id@ == md_segments(content@)[j].0
                        && strings@[j].text@ == md_segments(content@)[j].1
                        && strings@[j]._context is Some && strings@[j]._context.unwrap()@
                        == "Markdown "@ + md_kind_name(md_segments(content@)[j].2),
            decreases segs.len() - k,
        {
            let g = &segs[k];
            assert(seg_view(*g) == md_segments(content@)[k as int]);
            let ctx = kind_context(g.kind);
            let text = string_of(&g.text);
            strings.push(TranslatableString { id: g.id.clone(), text, _context: Some(ctx) });
            k = k + 1;
        }
        Ok(strings)
    }

    /// `original` with the range of every block that has a translation
    /// replaced by it.  The ranges are those of `extract`'s blocks; the last
    /// translation given for an id wins.
    pub fn reconstruct(&self, original: &str, translations: &[TranslatedString]) -> (r: Result<
        String,
        ZelligError,
    >)
        requires
            blen(original@) <= usize::MAX,
        ensures
            md_edits_defined(original@, translations@) ==> r is Ok && edits_ordered(
                original@,
                md_edits(original@, translations@),
                0,
            ) && r.unwrap()@ == splice(original@, md_edits(original@, translations@), 0),
            !md_edits_defined(original@, translations@) ==> (r matches Err(
                ZelligError::ConfigError(m),
            ) && m@ == md_range_error()),
    {
        let d = make_doc(original);
        let segs = extract_md_segments(&d);
        let ghost sv = md_segments(d.s@);
        proof {
            lemma_md_segs_ordered(d.s@, 0, 0, 0, 0, 0);
        }
        let mut edits: Vec<ExecEdit> = Vec::new();
        let mut k: usize = 0;
        assert(sv.skip(0) =~= sv);
        assert(edits_view(edits@) =~= Seq::<Edit>::empty());
        while k < segs.len()
            invariant
                doc_ok(d),
                d.s@ == original@,
                segs_view(segs@) == sv,
                sv == md_segments(d.s@),
                forall|j: int|
                    0 <= j < k && (#[trigger] lookup(translations@, sv[j].0)) is Some ==> is_boundary(
                        d.s@,
                        sv[j].3,
                    ) && is_boundary(d.s@, sv[j].4),
                0 <= k <= segs@.len(),
                edits_view(edits@) + md_edits_of(d.s@, sv.skip(k as int), translations@)
                    == md_edits_of(d.s@, sv, translations@),
            decreases segs.len() - k,
        {
            let g = &segs[k];
            assert(seg_view(*g) == sv[k as int]);
            let ghost here = sv.skip(k as int);
            assert(here.drop_first() =~= sv.skip(k + 1));
            assert(here[0] == sv[k as int]);
            match find_translation(translations, &g.id) {
                Some(t) => {
                    assert(lookup(translations@, md_segments(d.s@)[k as int].0) is Some);
                    proof {
                        assert(byte_at(d.s@, 0) == 0) by {
                            assert(d.s@.take(0) =~= Seq::<char>::empty());
                            assert(vstd::utf8::encode_utf8(Seq::<char>::empty())
                                =~= Seq::<u8>::empty());
                        }
                    }
                    let a = match boundary_index(&d.offs, Ghost(d.s@), 0, g.start) {
                        Some(a) => a,
                        None => {
                            assert(!md_edits_defined(d.s@, translations@));
                            return Err(ZelligError::ConfigError(String::from_str("Markdown edit does not fall between characters")));
                        },
                    };
                    let b = match boundary_index(&d.offs, Ghost(d.s@), 0, g.end) {
                        Some(b) => b,
                        None => {
                            assert(!md_edits_defined(d.s@, translations@));
                            return Err(ZelligError::ConfigError(String::from_str("Markdown edit does not fall between characters")));
                        },
                    };
                    proof {
                        lemma_cab_order(d.s@, sv[k as int].3, sv[k as int].4);
                    }
                    let text = chars_of(translations[t].translated_text.as_str());
                    let ghost old_edits = edits@;
                    edits.push(ExecEdit { start: a, end: b, text });
                    assert(edits_view(edits@) =~= edits_view(old_edits).push(
                        (a as int, b as int, translations@[t as int].translated_text@),
                    ));
                    assert(edits_view(edits@) + md_edits_of(d.s@, sv.skip(k + 1), translations@)
                        =~= edits_view(old_edits) + md_edits_of(d.s@, here, translations@));
                },
                None => {},
            }
            k = k + 1;
        }
        assert(sv.skip(k as int) =~= Seq::<MdSeg>::empty());
        assert(edits_view(edits@) =~= md_edits(original@, translations@));
        assert(md_edits_defined(d.s@, translations@));
        proof {
            lemma_md_edits_ordered(d.s@, sv, translations@, vstart(d.s@, 0));
        }
        let out = apply_edits(&d.s, &edits);
        Ok(string_of(&out))
    }
}

// ---------------------------------------------------------------------------
// Laws
// ---------------------------------------------------------------------------
proof fn lemma_md_no_edits(s: Seq<char>, segs: Seq<MdSeg>, ts: Seq<TranslatedString>)
    requires
        forall|k: int| 0 <= k < segs.len() ==> #[trigger] lookup(ts, segs[k].0) is None,
    ensures
        md_edits_of(s, segs, ts) =~= Seq::<Edit>::empty(),
    decreases segs.len(),
{
    if segs.len() > 0 {
        let rest = segs.drop_first();
        assert forall|k: int| 0 <= k < rest.len() implies #[trigger] lookup(ts, rest[k].0) is None by {
            assert(rest[k] == segs[k + 1]);
        }
        lemma_md_no_edits(s, rest, ts);
        assert(lookup(ts, segs[0].0) is None);
    }
}

/// Translations that match no block leave a Markdown file as it was.
pub proof fn law_md_unmatched_translations_change_nothing(s: Seq<char>, ts: Seq<TranslatedString>)
    requires
        forall|k: int| 0 <= k < md_segments(s).len() ==> #[trigger] lookup(ts, md_segments(s)[k].0) is None,
    ensures
        md_edits_defined(s, ts),
        splice(s, md_edits(s, ts), 0) == s,
{
    lemma_md_no_edits(s, md_segments(s), ts);
    assert(s.subrange(0, s.len() as int) =~= s);
}


/// The block was extracted exactly as it is written: its range falls
/// between chars and holds its text.
pub open spec fn block_as_written(s: Seq<char>, g: MdSeg) -> bool {
    &&& is_boundary(s, g.3)
    &&& is_boundary(s, g.4)
    &&& s.subrange(char_at_byte(s, g.3), char_at_byte(s, g.4)) == g.1
}

proof fn lemma_md_edits_identity(s: Seq<char>, segs: Seq<MdSeg>, ts: Seq<TranslatedString>)
    requires
        forall|k: int| 0 <= k < segs.len() ==> block_as_written(s, #[trigger] segs[k]),
        forall|k: int|
            0 <= k < segs.len() ==> #[trigger] lookup(ts, segs[k].0) is None || lookup(
                ts,
                segs[k].0,
            ) == Some(segs[k].1),
    ensures
        edits_identity(s, md_edits_of(s, segs, ts)),
    decreases segs.len(),
{
    if segs.len() > 0 {
        let rest = segs.drop_first();
        assert forall|k: int| 0 <= k < rest.len() implies block_as_written(s, #[trigger] rest[k])
            by {
            assert(rest[k] == segs[k + 1]);
        }
        assert forall|k: int|
            0 <= k < rest.len() implies #[trigger] lookup(ts, rest[k].0) is None || lookup(
                ts,
                rest[k].0,
            ) == Some(rest[k].1) by {
            assert(rest[k] == segs[k + 1]);
        }
        lemma_md_edits_identity(s, rest, ts);
        assert(block_as_written(s, segs[0]));
        assert(lookup(ts, segs[0].0) is None || lookup(ts, segs[0].0) == Some(segs[0].1));
    }
}

/// Putting back the strings that were extracted gives back the file, when
/// each block was extracted exactly as it is written (the lines of a
/// paragraph are trimmed before they are joined, so an indented line breaks
/// this).
pub proof fn law_md_round_trip(s: Seq<char>, ts: Seq<TranslatedString>)
    requires
        forall|k: int| 0 <= k < md_segments(s).len() ==> block_as_written(s, #[trigger] md_segments(s)[k]),
        forall|k: int|
            0 <= k < md_segments(s).len() ==> #[trigger] lookup(ts, md_segments(s)[k].0) is None
                || lookup(ts, md_segments(s)[k].0) == Some(md_segments(s)[k].1),
    ensures
        md_edits_defined(s, ts),
        splice(s, md_edits(s, ts), 0) == s,
{
    let segs = md_segments(s);
    assert(md_edits_defined(s, ts)) by {
        assert forall|k: int|
            0 <= k < segs.len() && (#[trigger] lookup(ts, segs[k].0)) is Some implies is_boundary(
                s,
                segs[k].3,
            ) && is_boundary(s, segs[k].4) by {
            assert(block_as_written(s, segs[k]));
        }
    }
    lemma_md_segs_ordered(s, 0, 0, 0, 0, 0);
    lemma_md_edits_ordered(s, segs, ts, vstart(s, 0));
    lemma_md_edits_identity(s, segs, ts);
    lemma_splice_identity(s, md_edits(s, ts), 0);
    assert(s.subrange(0, s.len() as int) =~= s);
}

/// Line `m` belongs to a fenced code block (its fences included), as the
/// blocks are read from line `i` on.
pub open spec fn fenced_from(s: Seq<char>, i: int, m: int) -> bool
    decreases nlines(s) + 1 - i,
{
    if i < 0 || i >= nlines(s) {
        false
    } else {
        let t = tline(s, i);
        if t.len() == 0 {
            fenced_from(s, i + 1, m)
        } else if starts_with(t, fence()) {
            let j = fence_close(s, i + 1);
            proof {
                lemma_fence_close(s, i + 1);
            }
            (i <= m <= j && m < nlines(s)) || fenced_from(s, j + 1, m)
        } else if t[0] == '>' || t[0] == '-' || t[0] == '*' || t[0] == '#' {
            fenced_from(s, i + 1, m)
        } else {
            let j = para_end(s, i + 1);
            proof {
                lemma_para_end(s, i + 1);
            }
            fenced_from(s, j, m)
        }
    }
}

proof fn lemma_fenced_after(s: Seq<char>, i: int, m: int)
    requires
        fenced_from(s, i, m),
    ensures
        i <= m,
    decreases nlines(s) + 1 - i,
{
    if 0 <= i < nlines(s) {
        let t = tline(s, i);
        if t.len() == 0 {
            lemma_fenced_after(s, i + 1, m);
        } else if starts_with(t, fence()) {
            let j = fence_close(s, i + 1);
            lemma_fence_close(s, i + 1);
            if !(i <= m <= j && m < nlines(s)) {
                lemma_fenced_after(s, j + 1, m);
            }
        } else if t[0] == '>' || t[0] == '-' || t[0] == '*' || t[0] == '#' {
            lemma_fenced_after(s, i + 1, m);
        } else {
            lemma_para_end(s, i + 1);
            lemma_fenced_after(s, para_end(s, i + 1), m);
        }
    }
}

/// No block read from line `i` on reaches into a line of a fenced code
/// block: each ends before the line begins or begins after it ends.
proof fn lemma_md_fence_free(s: Seq<char>, i: int, h: nat, p: nat, li: nat, bq: nat, m: int)
    requires
        0 <= i,
        fenced_from(s, i, m),
    ensures
        forall|k: int|
            0 <= k < md_segs_from(s, i, h, p, li, bq).len() ==> (#[trigger] md_segs_from(
                s,
                i,
                h,
                p,
                li,
                bq,
            )[k]).4 < vstart(s, m) || md_segs_from(s, i, h, p, li, bq)[k].3 > vstart(s, m) + blen(
                crate::text::line_text(s, m),
            ),
    decreases nlines(s) + 1 - i,
{
    let segs = md_segs_from(s, i, h, p, li, bq);
    let t = tline(s, i);
    let sp = line_spans(s)[i];
    lemma_line_blen(s, i);
    lemma_trim_range(s, sp.0, sp.1);
    let (ts, te) = trim_range(s, sp.0, sp.1);
    assert(i < nlines(s));
    if t.len() == 0 {
        assert(segs == md_segs_from(s, i + 1, h, p, li, bq));
        lemma_md_fence_free(s, i + 1, h, p, li, bq, m);
    } else if starts_with(t, fence()) {
        let j = fence_close(s, i + 1);
        lemma_fence_close(s, i + 1);
        assert(segs == md_segs_from(s, j + 1, h, p, li, bq));
        if i <= m <= j && m < nlines(s) {
            lemma_md_segs_ordered(s, j + 1, h, p, li, bq);
            lemma_vstart_mono(s, m, m + 1);
            lemma_vstart_mono(s, m + 1, j + 1);
            assert forall|k: int| 0 <= k < segs.len() implies (#[trigger] segs[k]).4 < vstart(s, m)
                || segs[k].3 > vstart(s, m) + blen(crate::text::line_text(s, m)) by {
                assert(vstart(s, j + 1) <= segs[k].3);
            }
        } else {
            lemma_md_fence_free(s, j + 1, h, p, li, bq, m);
        }
    } else if t[0] == '>' || t[0] == '-' || t[0] == '*' || t[0] == '#' {
        let (nh, np, nli, nbq) = if t[0] == '>' {
            (h, p, li, bq + 1)
        } else if t[0] == '-' || t[0] == '*' {
            (h, p, li + 1, bq)
        } else {
            (h + 1, p, li, bq)
        };
        let rest = md_segs_from(s, i + 1, nh, np, nli, nbq);
        lemma_md_fence_free(s, i + 1, nh, np, nli, nbq, m);
        lemma_fenced_after(s, i + 1, m);
        lemma_vstart_mono(s, i + 1, m);
        let mode = if t[0] == '>' {
            0int
        } else if t[0] == '-' || t[0] == '*' {
            1int
        } else {
            2int
        };
        let k0 = strip_lead(t, mode, 0);
        lemma_strip_lead(t, mode, 0);
        let c = trimmed(t.skip(k0));
        lemma_line_seg_bounds(s, i, ts, te, k0);
        let g = if t[0] == '>' {
            line_seg(s, i, t, c, md_id(seq!['b', 'l', 'o', 'c', 'k', 'q', 'u', 'o', 't', 'e'], bq), 3)
        } else if t[0] == '-' || t[0] == '*' {
            line_seg(s, i, t, c, md_id(seq!['l', 'i'], li), 2)
        } else {
            line_seg(s, i, t, c, md_id(heading_tag(k0 as nat), h), 0)
        };
        assert(segs == seq![g] + rest);
        assert forall|k: int| 0 <= k < segs.len() implies (#[trigger] segs[k]).4 < vstart(s, m)
            || segs[k].3 > vstart(s, m) + blen(crate::text::line_text(s, m)) by {
            if k > 0 {
                assert(segs[k] == rest[k - 1]);
            }
        }
    } else {
        let j = para_end(s, i + 1);
        lemma_para_end(s, i + 1);
        lemma_fenced_after(s, j, m);
        lemma_vstart_mono(s, j - 1, j);
        lemma_vstart_mono(s, j, m);
        let text = trimmed(join_lines(s, i, j));
        if text.len() > 0 {
            let rest = md_segs_from(s, j, h, p + 1, li, bq);
            lemma_md_fence_free(s, j, h, p + 1, li, bq, m);
            let g = (
                md_id(seq!['p'], p),
                text,
                1int,
                vstart(s, i),
                vstart(s, j - 1) + blen(crate::text::line_text(s, j - 1)),
            );
            assert(segs == seq![g] + rest);
            assert forall|k: int| 0 <= k < segs.len() implies (#[trigger] segs[k]).4 < vstart(s, m)
                || segs[k].3 > vstart(s, m) + blen(crate::text::line_text(s, m)) by {
                if k > 0 {
                    assert(segs[k] == rest[k - 1]);
                }
            }
        } else {
            assert(segs == md_segs_from(s, j, h, p, li, bq));
            lemma_md_fence_free(s, j, h, p, li, bq, m);
        }
    }
}

/// Code blocks are not translated: no block offered for translation reaches
/// into a line of a fenced code block (fences included).
pub proof fn law_md_code_blocks_kept(s: Seq<char>, m: int)
    requires
        fenced_from(s, 0, m),
    ensures
        forall|k: int|
            0 <= k < md_segments(s).len() ==> (#[trigger] md_segments(s)[k]).4 < vstart(s, m)
                || md_segments(s)[k].3 > vstart(s, m) + blen(crate::text::line_text(s, m)),
{
    lemma_md_fence_free(s, 0, 0, 0, 0, 0, m);
}

/// Every line ends in a single `'\n'` (no `'\r'`) and has no whitespace at
/// either end.
pub open spec fn plain_lines(s: Seq<char>) -> bool {
    &&& crate::text::no_cr(s)
    &&& forall|m: int|
        0 <= m < nlines(s) ==> #[trigger] trim_range(s, line_spans(s)[m].0, line_spans(s)[m].1)
            == line_spans(s)[m]
}

/// Without carriage returns, the virtual start of a line is its real start.
proof fn lemma_vstart_real(s: Seq<char>, m: int)
    requires
        crate::text::no_cr(s),
        0 <= m < nlines(s),
    ensures
        vstart(s, m) == byte_at(s, line_spans(s)[m].0),
    decreases m,
{
    crate::text::lemma_line_sep(s);
    if m == 0 {
        assert(byte_at(s, 0) == 0) by {
            assert(s.take(0) =~= Seq::<char>::empty());
            lemma_blen_empty();
        }
    } else {
        lemma_vstart_real(s, m - 1);
        lemma_line_blen(s, m - 1);
        let e = line_spans(s)[m - 1].1;
        crate::text::lemma_byte_at_step(s, e);
    }
}

/// Without carriage returns, lines `[a, b)` joined are the text from the
/// start of `a` to the end of `b - 1`.
#[verifier::spinoff_prover]
#[verifier::rlimit(30)]
proof fn lemma_join_real(s: Seq<char>, a: int, b: int)
    requires
        crate::text::no_cr(s),
        0 <= a < b <= nlines(s),
    ensures
        join_lines(s, a, b) == s.subrange(line_spans(s)[a].0, line_spans(s)[b - 1].1),
    decreases b - a,
{
    lemma_line_blen(s, a);
    lemma_line_blen(s, b - 1);
    if b > a + 1 {
        lemma_join_real(s, a, b - 1);
        lemma_line_blen(s, b - 2);
        crate::text::lemma_line_sep(s);
        let x = line_spans(s)[a].0;
        let y = line_spans(s)[b - 2].1;
        let z = line_spans(s)[b - 1];
        assert(y < s.len() && s[y] == '\n' && z.0 == y + 1);
        lemma_spans_chain(s, a, b - 2);
        assert(join_lines(s, a, b) == join_lines(s, a, b - 1) + seq!['\n'] + crate::text::line_text(
            s,
            b - 1,
        ));
        assert(s.subrange(x, y) + seq!['\n'] + s.subrange(z.0, z.1) =~= s.subrange(x, z.1));
    }
}

proof fn lemma_spans_chain(s: Seq<char>, a: int, b: int)
    requires
        0 <= a <= b < nlines(s),
    ensures
        line_spans(s)[a].0 <= line_spans(s)[b].0,
        line_spans(s)[a].1 <= line_spans(s)[b].1,
    decreases b - a,
{
    if a < b {
        lemma_spans_chain(s, a, b - 1);
        lemma_line_spans_ok(s);
        assert(line_spans(s)[b - 1].1 < line_spans(s)[b].0);
        assert(line_spans(s)[b].0 <= line_spans(s)[b].1);
    }
}

/// A needle that occurs at `q` is found, at or before `q`.
proof fn lemma_find_seq_some(hay: Seq<char>, needle: Seq<char>, i: int, q: int)
    requires
        0 <= i <= q,
        q + needle.len() <= hay.len(),
        hay.subrange(q, q + needle.len()) == needle,
    ensures
        find_seq_from(hay, needle, i) is Some,
    decreases q - i,
{
    if i < q && hay.subrange(i, i + needle.len()) != needle {
        lemma_find_seq_some(hay, needle, i + 1, q);
    }
}

/// Text that neither starts nor ends with whitespace is its own trim.
proof fn lemma_trimmed_same(x: Seq<char>)
    requires
        x.len() > 0,
        !crate::text::is_ws(x[0]),
        !crate::text::is_ws(x[x.len() - 1]),
    ensures
        trimmed(x) == x,
{
    let n = x.len() as int;
    assert(crate::text::skip_ws(x, 0, n) == 0);
    assert(crate::text::skip_ws_back(x, 0, n) == n);
    assert(x.subrange(0, n) =~= x);
}

/// A plain line that is not empty starts and ends with a char that is not
/// whitespace.
proof fn lemma_plain_ends(s: Seq<char>, m: int)
    requires
        plain_lines(s),
        0 <= m < nlines(s),
        line_spans(s)[m].0 < line_spans(s)[m].1,
    ensures
        !crate::text::is_ws(s[line_spans(s)[m].0]),
        !crate::text::is_ws(s[line_spans(s)[m].1 - 1]),
{
    let sp = line_spans(s)[m];
    assert(trim_range(s, sp.0, sp.1) == sp);
    crate::text::lemma_skip_ws(s, sp.0, sp.1);
    crate::text::lemma_skip_ws_back(s, sp.0, sp.1);
}

/// In a file of plain lines, every block read from line `i` on sits in the
/// file exactly as it was extracted.
#[verifier::spinoff_prover]
#[verifier::rlimit(40)]
proof fn lemma_md_written(s: Seq<char>, i: int, h: nat, p: nat, li: nat, bq: nat)
    requires
        plain_lines(s),
        0 <= i,
    ensures
        forall|k: int|
            0 <= k < md_segs_from(s, i, h, p, li, bq).len() ==> block_as_written(
                s,
                #[trigger] md_segs_from(s, i, h, p, li, bq)[k],
            ),
    decreases nlines(s) + 1 - i,
{
    let segs = md_segs_from(s, i, h, p, li, bq);
    if i < nlines(s) {
        let t = tline(s, i);
        let sp = line_spans(s)[i];
        lemma_line_blen(s, i);
        assert(trim_range(s, sp.0, sp.1) == sp);
        let (ts, te) = (sp.0, sp.1);
        if t.len() == 0 {
            assert(segs == md_segs_from(s, i + 1, h, p, li, bq));
            lemma_md_written(s, i + 1, h, p, li, bq);
        } else if starts_with(t, fence()) {
            let j = fence_close(s, i + 1);
            lemma_fence_close(s, i + 1);
            assert(segs == md_segs_from(s, j + 1, h, p, li, bq));
            lemma_md_written(s, j + 1, h, p, li, bq);
        } else if t[0] == '>' || t[0] == '-' || t[0] == '*' || t[0] == '#' {
            let (nh, np, nli, nbq) = if t[0] == '>' {
                (h, p, li, bq + 1)
            } else if t[0] == '-' || t[0] == '*' {
                (h, p, li + 1, bq)
            } else {
                (h + 1, p, li, bq)
            };
            let rest = md_segs_from(s, i + 1, nh, np, nli, nbq);
            lemma_md_written(s, i + 1, nh, np, nli, nbq);
            let mode = if t[0] == '>' {
                0int
            } else if t[0] == '-' || t[0] == '*' {
                1int
            } else {
                2int
            };
            let k0 = strip_lead(t, mode, 0);
            lemma_strip_lead(t, mode, 0);
            let c = trimmed(t.skip(k0));
            let (cs, ce) = trim_range(s, ts + k0, te);
            lemma_trim_range(s, ts + k0, te);
            lemma_trimmed_window(s, ts + k0, te);
            assert(t.skip(k0) =~= s.subrange(ts + k0, te));
            assert(c == s.subrange(cs, ce));
            assert(t.subrange(cs - ts, cs - ts + c.len()) =~= c);
            lemma_find_seq_some(t, c, 0, cs - ts);
            lemma_find_seq(t, c, 0);
            let f = find_seq(t, c).unwrap();
            lemma_vstart_real(s, i);
            assert(s.subrange(sp.0, ts) =~= Seq::<char>::empty());
            lemma_blen_empty();
            lemma_byte_at_subrange(s, ts, te, f);
            assert(t.take(f) =~= s.subrange(ts, te).take(f));
            lemma_byte_at_subrange(s, ts + f, te, c.len() as int);
            assert(s.subrange(ts + f, te).take(c.len() as int) =~= c);
            crate::text::lemma_char_at_byte(s, ts + f);
            crate::text::lemma_char_at_byte(s, ts + f + c.len());
            assert(s.subrange(ts + f, ts + f + c.len()) =~= c);
            let g = if t[0] == '>' {
                line_seg(s, i, t, c, md_id(seq!['b', 'l', 'o', 'c', 'k', 'q', 'u', 'o', 't', 'e'], bq), 3)
            } else if t[0] == '-' || t[0] == '*' {
                line_seg(s, i, t, c, md_id(seq!['l', 'i'], li), 2)
            } else {
                line_seg(s, i, t, c, md_id(heading_tag(k0 as nat), h), 0)
            };
            assert(g.3 == byte_at(s, ts + f));
            assert(g.4 == byte_at(s, ts + f + c.len()));
            assert(block_as_written(s, g));
            assert(segs == seq![g] + rest);
            assert forall|k: int| 0 <= k < segs.len() implies block_as_written(s, #[trigger] segs[k]) by {
                if k > 0 {
                    assert(segs[k] == rest[k - 1]);
                }
            }
        } else {
            let j = para_end(s, i + 1);
            lemma_para_end(s, i + 1);
            let text = trimmed(join_lines(s, i, j));
            if text.len() > 0 {
                let rest = md_segs_from(s, j, h, p + 1, li, bq);
                lemma_md_written(s, j, h, p + 1, li, bq);
                lemma_join_real(s, i, j);
                let e = line_spans(s)[j - 1];
                lemma_line_blen(s, j - 1);
                lemma_line_spans_ok(s);
                lemma_spans_chain(s, i, j - 1);
                if j - 1 > i {
                    assert(!breaks_paragraph(tline(s, j - 1)));
                }
                assert(trim_range(s, e.0, e.1) == e);
                assert(tline(s, j - 1) == s.subrange(e.0, e.1));
                assert(e.0 < e.1);
                lemma_plain_ends(s, i);
                lemma_plain_ends(s, j - 1);
                let x = s.subrange(sp.0, e.1);
                assert(x[0] == s[sp.0]);
                assert(x[x.len() - 1] == s[e.1 - 1]);
                lemma_trimmed_same(x);
                lemma_vstart_real(s, i);
                lemma_vstart_real(s, j - 1);
                crate::text::lemma_char_at_byte(s, sp.0);
                crate::text::lemma_char_at_byte(s, e.1);
                let g = (
                    md_id(seq!['p'], p),
                    text,
                    1int,
                    vstart(s, i),
                    vstart(s, j - 1) + blen(crate::text::line_text(s, j - 1)),
                );
                assert(g.4 == byte_at(s, e.1));
                assert(block_as_written(s, g));
                assert(segs == seq![g] + rest);
                assert forall|k: int| 0 <= k < segs.len() implies block_as_written(s, #[trigger] segs[k]) by {
                    if k > 0 {
                        assert(segs[k] == rest[k - 1]);
                    }
                }
            } else {
                assert(segs == md_segs_from(s, j, h, p, li, bq));
                lemma_md_written(s, j, h, p, li, bq);
            }
        }
    }
}

/// In a file whose lines end in a single `'\n'` and have no whitespace at
/// either end, every block sits in the file exactly as it was extracted.
pub proof fn law_md_plain_blocks_as_written(s: Seq<char>)
    requires
        plain_lines(s),
    ensures
        forall|k: int| 0 <= k < md_segments(s).len() ==> block_as_written(s, #[trigger] md_segments(s)[k]),
{
    lemma_md_written(s, 0, 0, 0, 0, 0);
}

/// Putting back the strings extracted from a file whose lines end in a
/// single `'\n'` and have no whitespace at either end gives back the file.
pub proof fn law_md_plain_round_trip(s: Seq<char>, ts: Seq<TranslatedString>)
    requires
        plain_lines(s),
        forall|k: int|
            0 <= k < md_segments(s).len() ==> #[trigger] lookup(ts, md_segments(s)[k].0) is None
                || lookup(ts, md_segments(s)[k].0) == Some(md_segments(s)[k].1),
    ensures
        md_edits_defined(s, ts),
        splice(s, md_edits(s, ts), 0) == s,
{
    law_md_plain_blocks_as_written(s);
    law_md_round_trip(s, ts);
}

/// A tag without a `.`.
pub open spec fn dotless(t: Seq<char>) -> bool {
    forall|i: int| 0 <= i < t.len() ==> #[trigger] t[i] != '.'
}

/// Ids with dotless tags name their tag and number.
proof fn lemma_md_id_injective(t1: Seq<char>, n1: nat, t2: Seq<char>, n2: nat)
    requires
        dotless(t1),
        dotless(t2),
        md_id(t1, n1) == md_id(t2, n2),
    ensures
        t1 == t2,
        n1 == n2,
{
    let x = md_id(t1, n1);
    crate::formats::tree::lemma_decimal_digits(n1);
    crate::formats::tree::lemma_decimal_digits(n2);
    if t1.len() < t2.len() {
        assert(x[3 + t1.len() as int] == '.');
        assert(md_id(t2, n2)[3 + t1.len() as int] == t2[t1.len() as int]);
    } else if t2.len() < t1.len() {
        assert(md_id(t2, n2)[3 + t2.len() as int] == '.');
        assert(x[3 + t2.len() as int] == t1[t2.len() as int]);
    }
    assert(t1 =~= x.subrange(3, 3 + t1.len() as int));
    assert(t2 =~= md_id(t2, n2).subrange(3, 3 + t2.len() as int));
    assert(decimal(n1) =~= x.skip(4 + t1.len() as int));
    assert(decimal(n2) =~= md_id(t2, n2).skip(4 + t2.len() as int));
}

pub open spec fn class_counter(c: char, h: nat, p: nat, li: nat, bq: nat) -> nat {
    if c == 'h' {
        h
    } else if c == 'p' {
        p
    } else if c == 'l' {
        li
    } else {
        bq
    }
}

/// The tag and number of each block's id read from line `i` on: numbers of
/// one kind (the tag's first char) grow, and start at that kind's counter.
#[verifier::spinoff_prover]
#[verifier::rlimit(40)]
proof fn lemma_md_ids(s: Seq<char>, i: int, h: nat, p: nat, li: nat, bq: nat) -> (r: Seq<(Seq<char>, nat)>)
    requires
        0 <= i,
    ensures
        r.len() == md_segs_from(s, i, h, p, li, bq).len(),
        forall|k: int|
            0 <= k < r.len() ==> {
                &&& #[trigger] md_segs_from(s, i, h, p, li, bq)[k].0 == md_id(r[k].0, r[k].1)
                &&& dotless(r[k].0)
                &&& r[k].0.len() > 0
                &&& (r[k].0[0] == 'h' || r[k].0[0] == 'p' || r[k].0[0] == 'l' || r[k].0[0] == 'b')
                &&& r[k].1 >= class_counter(r[k].0[0], h, p, li, bq)
            },
        forall|k1: int, k2: int|
            0 <= k1 < k2 < r.len() && (#[trigger] r[k1]).0[0] == (#[trigger] r[k2]).0[0] ==> r[k1].1
                < r[k2].1,
    decreases nlines(s) + 1 - i,
{
    let segs = md_segs_from(s, i, h, p, li, bq);
    if i >= nlines(s) {
        Seq::empty()
    } else {
        let t = tline(s, i);
        if t.len() == 0 {
            assert(segs == md_segs_from(s, i + 1, h, p, li, bq));
            lemma_md_ids(s, i + 1, h, p, li, bq)
        } else if starts_with(t, fence()) {
            let j = fence_close(s, i + 1);
            lemma_fence_close(s, i + 1);
            assert(segs == md_segs_from(s, j + 1, h, p, li, bq));
            lemma_md_ids(s, j + 1, h, p, li, bq)
        } else if t[0] == '>' || t[0] == '-' || t[0] == '*' || t[0] == '#' {
            let (nh, np, nli, nbq) = if t[0] == '>' {
                (h, p, li, bq + 1)
            } else if t[0] == '-' || t[0] == '*' {
                (h, p, li + 1, bq)
            } else {
                (h + 1, p, li, bq)
            };
            let rest = md_segs_from(s, i + 1, nh, np, nli, nbq);
            let rr = lemma_md_ids(s, i + 1, nh, np, nli, nbq);
            let k0 = strip_lead(t, 2, 0);
            let (tag, n): (Seq<char>, nat) = if t[0] == '>' {
                (seq!['b', 'l', 'o', 'c', 'k', 'q', 'u', 'o', 't', 'e'], bq)
            } else if t[0] == '-' || t[0] == '*' {
                (seq!['l', 'i'], li)
            } else {
                crate::formats::tree::lemma_decimal_digits(k0 as nat);
                assert(heading_tag(k0 as nat)[0] == 'h');
                assert forall|q: int| 0 <= q < heading_tag(k0 as nat).len() implies #[trigger] heading_tag(
                    k0 as nat,
                )[q] != '.' by {
                    if q > 0 {
                        assert(heading_tag(k0 as nat)[q] == decimal(k0 as nat)[q - 1]);
                    }
                }
                (heading_tag(k0 as nat), h)
            };
            assert(dotless(tag));
            assert(tag.len() > 0);
            assert(segs[0].0 == md_id(tag, n));
            assert(segs == seq![segs[0]] + rest);
            let r = seq![(tag, n)] + rr;
            assert forall|k: int| 0 <= k < r.len() implies {
                &&& #[trigger] segs[k].0 == md_id(r[k].0, r[k].1)
                &&& dotless(r[k].0)
                &&& r[k].0.len() > 0
                &&& (r[k].0[0] == 'h' || r[k].0[0] == 'p' || r[k].0[0] == 'l' || r[k].0[0] == 'b')
                &&& r[k].1 >= class_counter(r[k].0[0], h, p, li, bq)
            } by {
                if k > 0 {
                    assert(segs[k] == rest[k - 1]);
                    assert(r[k] == rr[k - 1]);
                    assert(rest[k - 1].0 == md_id(rr[k - 1].0, rr[k - 1].1));
                }
            }
            assert forall|k1: int, k2: int|
                0 <= k1 < k2 < r.len() && (#[trigger] r[k1]).0[0] == (#[trigger] r[k2]).0[0] implies r[k1].1
                < r[k2].1 by {
                assert(r[k2] == rr[k2 - 1]);
                assert(rest[k2 - 1].0 == md_id(rr[k2 - 1].0, rr[k2 - 1].1));
                if k1 > 0 {
                    assert(r[k1] == rr[k1 - 1]);
                }
            }
            r
        } else {
            let j = para_end(s, i + 1);
            lemma_para_end(s, i + 1);
            let text = trimmed(join_lines(s, i, j));
            if text.len() > 0 {
                let rest = md_segs_from(s, j, h, p + 1, li, bq);
                let rr = lemma_md_ids(s, j, h, p + 1, li, bq);
                let tag = seq!['p'];
                assert(dotless(tag));
                assert(segs == seq![segs[0]] + rest);
                assert(segs[0].0 == md_id(tag, p));
                let r = seq![(tag, p)] + rr;
                assert forall|k: int| 0 <= k < r.len() implies {
                    &&& #[trigger] segs[k].0 == md_id(r[k].0, r[k].1)
                    &&& dotless(r[k].0)
                    &&& r[k].0.len() > 0
                    &&& (r[k].0[0] == 'h' || r[k].0[0] == 'p' || r[k].0[0] == 'l' || r[k].0[0] == 'b')
                    &&& r[k].1 >= class_counter(r[k].0[0], h, p, li, bq)
                } by {
                    if k > 0 {
                        assert(segs[k] == rest[k - 1]);
                        assert(r[k] == rr[k - 1]);
                        assert(rest[k - 1].0 == md_id(rr[k - 1].0, rr[k - 1].1));
                    }
                }
                assert forall|k1: int, k2: int|
                    0 <= k1 < k2 < r.len() && (#[trigger] r[k1]).0[0] == (#[trigger] r[k2]).0[0] implies r[k1].1
                    < r[k2].1 by {
                    assert(r[k2] == rr[k2 - 1]);
                    assert(rest[k2 - 1].0 == md_id(rr[k2 - 1].0, rr[k2 - 1].1));
                    if k1 > 0 {
                        assert(r[k1] == rr[k1 - 1]);
                    }
                }
                r
            } else {
                assert(segs == md_segs_from(s, j, h, p, li, bq));
                lemma_md_ids(s, j, h, p, li, bq)
            }
        }
    }
}

/// The blocks of a Markdown file have distinct ids.
pub proof fn law_md_ids_distinct(s: Seq<char>)
    ensures
        forall|k1: int, k2: int|
            0 <= k1 < k2 < md_segments(s).len() ==> (#[trigger] md_segments(s)[k1]).0 != (
            #[trigger] md_segments(s)[k2]).0,
{
    let segs = md_segments(s);
    let r = lemma_md_ids(s, 0, 0, 0, 0, 0);
    assert forall|k1: int, k2: int| 0 <= k1 < k2 < segs.len() implies (#[trigger] segs[k1]).0 != (
    #[trigger] segs[k2]).0 by {
        assert(segs[k1].0 == md_id(r[k1].0, r[k1].1));
        assert(segs[k2].0 == md_id(r[k2].0, r[k2].1));
        if segs[k1].0 == segs[k2].0 {
            lemma_md_id_injective(r[k1].0, r[k1].1, r[k2].0, r[k2].1);
            assert(r[k1].0[0] == r[k2].0[0]);
        }
    }
}

/// Every block read from line `i` on ends within the file's bytes.
#[verifier::spinoff_prover]
proof fn lemma_md_in_bounds(s: Seq<char>, i: int, h: nat, p: nat, li: nat, bq: nat)
    requires
        0 <= i,
    ensures
        forall|k: int|
            0 <= k < md_segs_from(s, i, h, p, li, bq).len() ==> (#[trigger] md_segs_from(
                s,
                i,
                h,
                p,
                li,
                bq,
            )[k]).4 <= blen(s),
    decreases nlines(s) + 1 - i,
{
    let segs = md_segs_from(s, i, h, p, li, bq);
    if i < nlines(s) {
        let t = tline(s, i);
        let sp = line_spans(s)[i];
        lemma_line_blen(s, i);
        lemma_trim_range(s, sp.0, sp.1);
        let (ts, te) = trim_range(s, sp.0, sp.1);
        lemma_vstart_le(s, i);
        lemma_byte_at_mono(s, sp.1, s.len() as int);
        assert(s.take(s.len() as int) =~= s);
        if t.len() == 0 {
            assert(segs == md_segs_from(s, i + 1, h, p, li, bq));
            lemma_md_in_bounds(s, i + 1, h, p, li, bq);
        } else if starts_with(t, fence()) {
            let j = fence_close(s, i + 1);
            lemma_fence_close(s, i + 1);
            assert(segs == md_segs_from(s, j + 1, h, p, li, bq));
            lemma_md_in_bounds(s, j + 1, h, p, li, bq);
        } else if t[0] == '>' || t[0] == '-' || t[0] == '*' || t[0] == '#' {
            let (nh, np, nli, nbq) = if t[0] == '>' {
                (h, p, li, bq + 1)
            } else if t[0] == '-' || t[0] == '*' {
                (h, p, li + 1, bq)
            } else {
                (h + 1, p, li, bq)
            };
            let rest = md_segs_from(s, i + 1, nh, np, nli, nbq);
            lemma_md_in_bounds(s, i + 1, nh, np, nli, nbq);
            let mode = if t[0] == '>' {
                0int
            } else if t[0] == '-' || t[0] == '*' {
                1int
            } else {
                2int
            };
            let k0 = strip_lead(t, mode, 0);
            lemma_strip_lead(t, mode, 0);
            let c = trimmed(t.skip(k0));
            lemma_line_seg_bounds(s, i, ts, te, k0);
            let g = if t[0] == '>' {
                line_seg(s, i, t, c, md_id(seq!['b', 'l', 'o', 'c', 'k', 'q', 'u', 'o', 't', 'e'], bq), 3)
            } else if t[0] == '-' || t[0] == '*' {
                line_seg(s, i, t, c, md_id(seq!['l', 'i'], li), 2)
            } else {
                line_seg(s, i, t, c, md_id(heading_tag(k0 as nat), h), 0)
            };
            assert(vstart(s, i + 1) == vstart(s, i) + blen(crate::text::line_text(s, i)) + 1);
            assert(g.4 <= blen(s));
            assert(segs == seq![g] + rest);
            assert forall|k: int| 0 <= k < segs.len() implies (#[trigger] segs[k]).4 <= blen(s) by {
                if k > 0 {
                    assert(segs[k] == rest[k - 1]);
                }
            }
        } else {
            let j = para_end(s, i + 1);
            lemma_para_end(s, i + 1);
            let text = trimmed(join_lines(s, i, j));
            if text.len() > 0 {
                let rest = md_segs_from(s, j, h, p + 1, li, bq);
                lemma_md_in_bounds(s, j, h, p + 1, li, bq);
                lemma_line_blen(s, j - 1);
                lemma_vstart_le(s, j - 1);
                lemma_byte_at_mono(s, line_spans(s)[j - 1].1, s.len() as int);
                let g = (
                    md_id(seq!['p'], p),
                    text,
                    1int,
                    vstart(s, i),
                    vstart(s, j - 1) + blen(crate::text::line_text(s, j - 1)),
                );
                assert(segs == seq![g] + rest);
                assert forall|k: int| 0 <= k < segs.len() implies (#[trigger] segs[k]).4 <= blen(s) by {
                    if k > 0 {
                        assert(segs[k] == rest[k - 1]);
                    }
                }
            } else {
                assert(segs == md_segs_from(s, j, h, p, li, bq));
                lemma_md_in_bounds(s, j, h, p, li, bq);
            }
        }
    }
}

/// The blocks of a Markdown file are byte ranges inside it, in document
/// order and apart from each other.
pub proof fn law_md_segments_in_order(s: Seq<char>)
    ensures
        forall|k: int|
            0 <= k < md_segments(s).len() ==> 0 <= (#[trigger] md_segments(s)[k]).3 <= md_segments(
                s,
            )[k].4 <= blen(s),
        forall|k: int|
            0 < k < md_segments(s).len() ==> md_segments(s)[k - 1].4 < (#[trigger] md_segments(s)[k]).3,
{
    lemma_md_segs_ordered(s, 0, 0, 0, 0, 0);
    lemma_md_in_bounds(s, 0, 0, 0, 0, 0);
}

/// The lines in `[a, b)` whose trimmed text opens or closes a fence.
pub open spec fn fence_lines(s: Seq<char>, a: int, b: int) -> nat
    decreases b - a,
{
    if a >= b {
        0
    } else {
        (if starts_with(tline(s, a), fence()) {
            1nat
        } else {
            0nat
        }) + fence_lines(s, a + 1, b)
    }
}

/// Line `m` opens a one-line block: its trimmed text starts with `#`, `>`,
/// `-` or `*`.
pub open spec fn marker_line(s: Seq<char>, m: int) -> bool {
    &&& 0 <= m < nlines(s)
    &&& tline(s, m).len() > 0
    &&& {
        let c = tline(s, m)[0];
        c == '#' || c == '>' || c == '-' || c == '*'
    }
}

/// The segment `g` is the block of line `m`: a heading for `#`, a block
/// quote for `>`, a list item for `-` and `*`; its text is the line's with
/// the markers stripped and trimmed, and its bytes lie within the line.
pub open spec fn line_block(s: Seq<char>, m: int, g: MdSeg) -> bool {
    let t = tline(s, m);
    let c = t[0];
    let mode = if c == '>' {
        0int
    } else if c == '#' {
        2int
    } else {
        1int
    };
    &&& g.2 == (if c == '#' {
        0int
    } else if c == '>' {
        3int
    } else {
        2int
    })
    &&& g.1 == trimmed(t.skip(strip_lead(t, mode, 0)))
    &&& vstart(s, m) <= g.3 <= g.4 < vstart(s, m + 1)
}

proof fn lemma_fence_lines_skip(s: Seq<char>, a: int, b: int, c: int)
    requires
        a <= b <= c,
        forall|k: int| a <= k < b ==> !starts_with(#[trigger] tline(s, k), fence()),
    ensures
        fence_lines(s, a, c) == fence_lines(s, b, c),
    decreases b - a,
{
    if a < b {
        lemma_fence_lines_skip(s, a + 1, b, c);
    }
}

proof fn lemma_marker_not_fence(t: Seq<char>)
    requires
        t.len() > 0,
        t[0] == '#' || t[0] == '>' || t[0] == '-' || t[0] == '*',
    ensures
        !starts_with(t, fence()),
{
    if starts_with(t, fence()) {
        assert(t.take(3)[0] == t[0]);
    }
}

/// A marker line outside a fence (an even number of fence lines before it,
/// from line `i` on) is read as a block of its own from line `i` on.
proof fn lemma_marker_block(s: Seq<char>, i: int, h: nat, p: nat, li: nat, bq: nat, m: int)
    requires
        0 <= i <= m,
        marker_line(s, m),
        fence_lines(s, i, m) % 2 == 0,
    ensures
        exists|k: int|
            0 <= k < md_segs_from(s, i, h, p, li, bq).len() && line_block(
                s,
                m,
                #[trigger] md_segs_from(s, i, h, p, li, bq)[k],
            ),
    decreases nlines(s) + 1 - i,
{
    let segs = md_segs_from(s, i, h, p, li, bq);
    let t = tline(s, i);
    let sp = line_spans(s)[i];
    lemma_line_blen(s, i);
    lemma_trim_range(s, sp.0, sp.1);
    let (ts, te) = trim_range(s, sp.0, sp.1);
    if i == m {
        lemma_marker_not_fence(t);
        let mode = if t[0] == '>' {
            0int
        } else if t[0] == '#' {
            2int
        } else {
            1int
        };
        let k0 = strip_lead(t, mode, 0);
        lemma_strip_lead(t, mode, 0);
        lemma_line_seg_bounds(s, i, ts, te, k0);
        assert(line_block(s, m, segs[0]));
    } else if t.len() == 0 {
        assert(!starts_with(t, fence()));
        assert(fence_lines(s, i, m) == fence_lines(s, i + 1, m));
        lemma_marker_block(s, i + 1, h, p, li, bq, m);
    } else if starts_with(t, fence()) {
        let j = fence_close(s, i + 1);
        lemma_fence_close(s, i + 1);
        lemma_fence_lines_skip(s, i + 1, if m < j { m } else { j }, m);
        if m < j {
            assert(fence_lines(s, m, m) == 0);
            assert(false);
        } else {
            lemma_marker_not_fence(tline(s, m));
            assert(j != m);
            assert(fence_lines(s, j, m) == 1 + fence_lines(s, j + 1, m));
            lemma_marker_block(s, j + 1, h, p, li, bq, m);
        }
    } else if t[0] == '>' || t[0] == '-' || t[0] == '*' || t[0] == '#' {
        let (nh, np, nli, nbq) = if t[0] == '>' {
            (h, p, li, bq + 1)
        } else if t[0] == '-' || t[0] == '*' {
            (h, p, li + 1, bq)
        } else {
            (h + 1, p, li, bq)
        };
        let rest = md_segs_from(s, i + 1, nh, np, nli, nbq);
        assert(fence_lines(s, i, m) == fence_lines(s, i + 1, m));
        lemma_marker_block(s, i + 1, nh, np, nli, nbq, m);
        let k = choose|k: int| 0 <= k < rest.len() && line_block(s, m, #[trigger] rest[k]);
        assert(segs.len() == rest.len() + 1 && segs[k + 1] == rest[k]);
    } else {
        let j = para_end(s, i + 1);
        lemma_para_end(s, i + 1);
        if m < j {
            assert(!breaks_paragraph(tline(s, m)));
            assert(false);
        }
        assert forall|k: int| i <= k < j implies !starts_with(#[trigger] tline(s, k), fence()) by {
            if k > i {
                assert(!breaks_paragraph(tline(s, k)));
            }
        }
        lemma_fence_lines_skip(s, i, j, m);
        let text = trimmed(join_lines(s, i, j));
        if text.len() > 0 {
            let rest = md_segs_from(s, j, h, p + 1, li, bq);
            lemma_marker_block(s, j, h, p + 1, li, bq, m);
            let k = choose|k: int| 0 <= k < rest.len() && line_block(s, m, #[trigger] rest[k]);
            assert(segs.len() == rest.len() + 1 && segs[k + 1] == rest[k]);
        } else {
            lemma_marker_block(s, j, h, p, li, bq, m);
        }
    }
}

/// Headings, block quotes and list items stand on their own line: every
/// line outside a fenced code block (an even number of fence lines before
/// it) whose trimmed text starts with `#`, `>`, `-` or `*` gives a segment
/// of its own, of the kind its marker names, whose text is the line's with
/// the markers stripped, and whose bytes lie within that line.  No
/// paragraph swallows such a line.
pub proof fn law_md_marker_lines_are_blocks(s: Seq<char>, m: int)
    requires
        marker_line(s, m),
        fence_lines(s, 0, m) % 2 == 0,
    ensures
        exists|k: int|
            0 <= k < md_segments(s).len() && line_block(s, m, #[trigger] md_segments(s)[k]),
{
    lemma_marker_block(s, 0, 0, 0, 0, 0, m);
    let segs = md_segs_from(s, 0, 0, 0, 0, 0);
    let k = choose|k: int| 0 <= k < segs.len() && line_block(s, m, #[trigger] segs[k]);
    assert(md_segments(s) == segs);
    assert(line_block(s, m, md_segments(s)[k]));
}

} // verus!

//! Character-level text model shared by the file-format handlers.
//!
//! A string is modelled by its view, a `Seq<char>`.  Positions are char
//! indices unless a name says "byte": byte positions are UTF-8 offsets,
//! obtained from `encode_utf8` of a prefix.
use vstd::prelude::*;
use vstd::utf8::*;

verus! {

// ---------------------------------------------------------------------------
// Characters
// ---------------------------------------------------------------------------
/// The Unicode `White_Space` property, as `char::is_whitespace` uses it.
pub open spec fn is_ws(c: char) -> bool {
    let u = c as u32;
    ||| 0x09 <= u <= 0x0D
    ||| u == 0x20
    ||| u == 0x85
    ||| u == 0xA0
    ||| u == 0x1680
    ||| 0x2000 <= u <= 0x200A
    ||| u == 0x2028
    ||| u == 0x2029
    ||| u == 0x202F
    ||| u == 0x205F
    ||| u == 0x3000
}

/// `char::is_whitespace`.
pub fn is_whitespace(c: char) -> (r: bool)
    ensures
        r == is_ws(c),
{
    let u = c as u32;
    (0x09 <= u && u <= 0x0D) || u == 0x20 || u == 0x85 || u == 0xA0 || u == 0x1680 || (0x2000
        <= u && u <= 0x200A) || u == 0x2028 || u == 0x2029 || u == 0x202F || u == 0x205F || u
        == 0x3000
}

/// Number of bytes in the UTF-8 encoding of `c`.
pub open spec fn utf8_width(c: char) -> nat {
    let u = c as u32;
    if u <= 0x7F {
        1
    } else if u <= 0x7FF {
        2
    } else if u <= 0xFFFF {
        3
    } else {
        4
    }
}

/// Number of bytes in the UTF-8 encoding of `s`.
pub open spec fn blen(s: Seq<char>) -> nat {
    encode_utf8(s).len()
}

/// The byte offset of char index `i` in `s`.
pub open spec fn byte_at(s: Seq<char>, i: int) -> int {
    blen(s.take(i)) as int
}

/// `b` is the byte offset of some char index of `s` (or of its end).
pub open spec fn is_boundary(s: Seq<char>, b: int) -> bool {
    exists|i: int| 0 <= i <= s.len() && #[trigger] byte_at(s, i) == b
}

/// The char index whose byte offset is `b` (meaningful when `is_boundary(s, b)`).
pub open spec fn char_at_byte(s: Seq<char>, b: int) -> int {
    choose|i: int| 0 <= i <= s.len() && #[trigger] byte_at(s, i) == b
}

pub proof fn lemma_encode_scalar_len(c: char)
    ensures
        encode_scalar(c as u32).len() == utf8_width(c),
{
}

pub proof fn lemma_encode_concat(a: Seq<char>, b: Seq<char>)
    ensures
        encode_utf8(a + b) == encode_utf8(a) + encode_utf8(b),
    decreases a.len(),
{
    if a.len() == 0 {
        assert(a + b =~= b);
        assert(encode_utf8(a) =~= Seq::<u8>::empty());
        assert(encode_utf8(a) + encode_utf8(b) =~= encode_utf8(b));
    } else {
        lemma_encode_concat(a.drop_first(), b);
        assert((a + b).drop_first() =~= a.drop_first() + b);
        assert((a + b)[0] == a[0]);
        assert(encode_utf8(a + b) =~= encode_scalar(a[0] as u32) + encode_utf8(a.drop_first() + b));
        assert(encode_utf8(a) =~= encode_scalar(a[0] as u32) + encode_utf8(a.drop_first()));
        assert(encode_utf8(a + b) =~= encode_utf8(a) + encode_utf8(b));
    }
}

pub proof fn lemma_blen_concat(a: Seq<char>, b: Seq<char>)
    ensures
        blen(a + b) == blen(a) + blen(b),
{
    lemma_encode_concat(a, b);
}

pub proof fn lemma_blen_single(c: char)
    ensures
        blen(seq![c]) == utf8_width(c),
{
    assert(seq![c].drop_first() =~= Seq::<char>::empty());
    assert(encode_utf8(seq![c]) =~= encode_scalar(c as u32) + encode_utf8(Seq::<char>::empty()));
    assert(encode_utf8(Seq::<char>::empty()) =~= Seq::<u8>::empty());
    lemma_encode_scalar_len(c);
}

/// One more char adds its width to the byte offset.
pub proof fn lemma_byte_at_step(s: Seq<char>, i: int)
    requires
        0 <= i < s.len(),
    ensures
        byte_at(s, i + 1) == byte_at(s, i) + utf8_width(s[i]),
{
    assert(s.take(i + 1) =~= s.take(i) + seq![s[i]]);
    lemma_blen_concat(s.take(i), seq![s[i]]);
    lemma_blen_single(s[i]);
}

/// Byte offsets grow strictly with char indices.
pub proof fn lemma_byte_at_mono(s: Seq<char>, i: int, j: int)
    requires
        0 <= i <= j <= s.len(),
    ensures
        byte_at(s, i) + (j - i) <= byte_at(s, j),
        byte_at(s, j) <= byte_at(s, i) + 4 * (j - i),
    decreases j - i,
{
    if i < j {
        lemma_byte_at_mono(s, i, j - 1);
        lemma_byte_at_step(s, j - 1);
    }
}

/// The char index of a boundary is unique.
pub proof fn lemma_char_at_byte(s: Seq<char>, i: int)
    requires
        0 <= i <= s.len(),
    ensures
        is_boundary(s, byte_at(s, i)),
        char_at_byte(s, byte_at(s, i)) == i,
{
    assert(is_boundary(s, byte_at(s, i)));
    let k = char_at_byte(s, byte_at(s, i));
    if k < i {
        lemma_byte_at_mono(s, k, i);
    } else if k > i {
        lemma_byte_at_mono(s, i, k);
    }
}

/// Byte offset of an index inside a subrange.
pub proof fn lemma_byte_at_subrange(s: Seq<char>, a: int, b: int, i: int)
    requires
        0 <= a <= b <= s.len(),
        0 <= i <= b - a,
    ensures
        byte_at(s, a + i) == byte_at(s, a) + byte_at(s.subrange(a, b), i),
{
    assert(s.take(a + i) =~= s.take(a) + s.subrange(a, b).take(i));
    lemma_blen_concat(s.take(a), s.subrange(a, b).take(i));
}

/// Width of a char, in bytes.
pub fn char_width(c: char) -> (w: usize)
    ensures
        w == utf8_width(c),
        1 <= w <= 4,
{
    let u = c as u32;
    if u <= 0x7F {
        1
    } else if u <= 0x7FF {
        2
    } else if u <= 0xFFFF {
        3
    } else {
        4
    }
}

// ---------------------------------------------------------------------------
// Conversions between `String` and `Vec<char>`
// ---------------------------------------------------------------------------
/// The chars of a string slice, in order (`str::chars` collected).
#[verifier::external_body]
pub(crate) fn chars_of(s: &str) -> (v: Vec<char>)
    ensures
        v@ == s@,
{
    s.chars().collect()
}

/// A `String` made of the given chars (`String: FromIterator<&char>`).
#[verifier::external_body]
pub(crate) fn string_of(v: &[char]) -> (s: String)
    ensures
        s@ == v@,
{
    v.iter().collect()
}

/// Appends all chars of `src` to `dst`.
pub fn push_all(dst: &mut Vec<char>, src: &[char])
    ensures
        final(dst)@ == old(dst)@ + src@,
{
    let mut i: usize = 0;
    while i < src.len()
        invariant
            0 <= i <= src.len(),
            dst@ == old(dst)@ + src@.take(i as int),
        decreases src.len() - i,
    {
        dst.push(src[i]);
        i = i + 1;
        assert(src@.take(i as int) =~= src@.take(i - 1) + seq![src@[i - 1]]);
        assert(dst@ =~= old(dst)@ + src@.take(i as int));
    }
    assert(src@.take(src.len() as int) =~= src@);
}

/// Appends the chars `src[from..to]` to `dst`.
pub fn push_range(dst: &mut Vec<char>, src: &[char], from: usize, to: usize)
    requires
        from <= to <= src.len(),
    ensures
        final(dst)@ == old(dst)@ + src@.subrange(from as int, to as int),
{
    let mut i: usize = from;
    while i < to
        invariant
            from <= i <= to <= src.len(),
            dst@ == old(dst)@ + src@.subrange(from as int, i as int),
        decreases to - i,
    {
        dst.push(src[i]);
        i = i + 1;
        assert(src@.subrange(from as int, i as int) =~= src@.subrange(from as int, i - 1) + seq![
            src@[i - 1],
        ]);
        assert(dst@ =~= old(dst)@ + src@.subrange(from as int, i as int));
    }
}

/// A vector holding the chars `src[from..to]`.
pub fn slice_vec(src: &[char], from: usize, to: usize) -> (v: Vec<char>)
    requires
        from <= to <= src.len(),
    ensures
        v@ == src@.subrange(from as int, to as int),
{
    let mut v: Vec<char> = Vec::new();
    push_range(&mut v, src, from, to);
    assert(v@ =~= src@.subrange(from as int, to as int));
    v
}

/// Whether two char vectors are equal.
pub fn chars_eq(a: &[char], b: &[char]) -> (r: bool)
    ensures
        r == (a@ == b@),
{
    if a.len() != b.len() {
        return false;
    }
    let mut i: usize = 0;
    while i < a.len()
        invariant
            a.len() == b.len(),
            0 <= i <= a.len(),
            forall|k: int| 0 <= k < i ==> a@[k] == b@[k],
        decreases a.len() - i,
    {
        if a[i] != b[i] {
            return false;
        }
        i = i + 1;
    }
    assert(a@ =~= b@);
    true
}

/// `a == b` for strings.
pub fn str_is(a: &str, b: &str) -> (r: bool)
    ensures
        r == (a@ == b@),
{
    let x = chars_of(a);
    let y = chars_of(b);
    chars_eq(&x, &y)
}

/// `s.to_lowercase()`, as Unicode defines it.
pub uninterp spec fn lowercase_of(s: Seq<char>) -> Seq<char>;

/// `s.to_uppercase()`, as Unicode defines it.
pub uninterp spec fn uppercase_of(s: Seq<char>) -> Seq<char>;

/// `str::to_lowercase`: the lower-case form of `s`, a function of `s` alone.
#[verifier::external_body]
pub(crate) fn to_lowercase(s: &str) -> (r: String)
    ensures
        r@ == lowercase_of(s@),
{
    s.to_lowercase()
}

/// `str::to_uppercase`: the upper-case form of `s`, a function of `s` alone.
#[verifier::external_body]
pub(crate) fn to_uppercase(s: &str) -> (r: String)
    ensures
        r@ == uppercase_of(s@),
{
    s.to_uppercase()
}

/// `s.replace([a, b], [r])`, matches taken from the left without overlap.
pub open spec fn replace_pair(s: Seq<char>, a: char, b: char, r: char) -> Seq<char>
    decreases s.len(),
{
    if s.len() < 2 {
        s
    } else if s[0] == a && s[1] == b {
        seq![r] + replace_pair(s.subrange(2, s.len() as int), a, b, r)
    } else {
        seq![s[0]] + replace_pair(s.subrange(1, s.len() as int), a, b, r)
    }
}

/// `s.replace([a, b], [r])`.
pub fn replace_pair_of(s: &Vec<char>, a: char, b: char, r: char) -> (out: Vec<char>)
    ensures
        out@ == replace_pair(s@, a, b, r),
{
    let mut out: Vec<char> = Vec::new();
    let mut i: usize = 0;
    assert(s@.subrange(0, s@.len() as int) =~= s@);
    assert(out@ + replace_pair(s@, a, b, r) =~= replace_pair(s@, a, b, r));
    while i < s.len()
        invariant
            i <= s@.len(),
            out@ + replace_pair(s@.subrange(i as int, s@.len() as int), a, b, r) == replace_pair(
                s@,
                a,
                b,
                r,
            ),
        decreases s@.len() - i,
    {
        let ghost rest = s@.subrange(i as int, s@.len() as int);
        let ghost before = out@;
        if i + 1 < s.len() && s[i] == a && s[i + 1] == b {
            out.push(r);
            assert(rest.subrange(2, rest.len() as int) =~= s@.subrange(i + 2, s@.len() as int));
            i = i + 2;
        } else {
            out.push(s[i]);
            proof {
                if rest.len() >= 2 {
                    assert(rest.subrange(1, rest.len() as int) =~= s@.subrange(
                        i + 1,
                        s@.len() as int,
                    ));
                } else {
                    assert(rest =~= seq![s@[i as int]]);
                }
            }
            i = i + 1;
        }
        assert(out@ + replace_pair(s@.subrange(i as int, s@.len() as int), a, b, r) =~= before
            + replace_pair(rest, a, b, r));
    }
    assert(s@.subrange(i as int, s@.len() as int) =~= Seq::<char>::empty());
    assert(out@ =~= out@ + replace_pair(Seq::<char>::empty(), a, b, r));
    out
}

/// The extension of a path, as `std::path::Path::extension` finds it.
pub uninterp spec fn path_extension_of(p: Seq<char>) -> Option<Seq<char>>;

/// A path with its extension removed, as `Path::with_extension("")` writes it.
pub uninterp spec fn path_without_extension_of(p: Seq<char>) -> Seq<char>;

/// `Path::extension`: the extension of the path's file name, a function of the
/// path alone.
#[verifier::external_body]
pub(crate) fn path_extension(p: &str) -> (r: Option<String>)
    ensures
        match r {
            Some(e) => path_extension_of(p@) == Some(e@),
            None => path_extension_of(p@) is None,
        },
{
    std::path::Path::new(p).extension().map(|e| e.to_string_lossy().into_owned())
}

/// `Path::with_extension("")`, displayed: the path without its extension, a
/// function of the path alone.
#[verifier::external_body]
pub(crate) fn path_without_extension(p: &str) -> (r: String)
    ensures
        r@ == path_without_extension_of(p@),
{
    std::path::Path::new(p).with_extension("").display().to_string()
}

// ---------------------------------------------------------------------------
// Decimal numbers
// ---------------------------------------------------------------------------
pub open spec fn digit_char(d: nat) -> char {
    ((d % 10) + 48) as char
}

/// The decimal notation of `n`, as `n.to_string()` writes it.
pub open spec fn decimal(n: nat) -> Seq<char>
    decreases n,
{
    if n < 10 {
        seq![digit_char(n)]
    } else {
        decimal(n / 10).push(digit_char(n % 10))
    }
}

/// Appends the decimal notation of `n`.
pub fn push_decimal(dst: &mut Vec<char>, n: u64)
    ensures
        final(dst)@ == old(dst)@ + decimal(n as nat),
    decreases n,
{
    if n >= 10 {
        push_decimal(dst, n / 10);
    }
    let d = (n % 10) as u32 + 48;
    let c = char_from_digit(d);
    dst.push(c);
    assert(dst@ =~= old(dst)@ + decimal(n as nat));
}

fn char_from_digit(d: u32) -> (c: char)
    requires
        48 <= d <= 57,
    ensures
        c == d as char,
{
    if d == 48 {
        '0'
    } else if d == 49 {
        '1'
    } else if d == 50 {
        '2'
    } else if d == 51 {
        '3'
    } else if d == 52 {
        '4'
    } else if d == 53 {
        '5'
    } else if d == 54 {
        '6'
    } else if d == 55 {
        '7'
    } else if d == 56 {
        '8'
    } else {
        '9'
    }
}

/// `n.to_string()`.
pub fn decimal_string(n: u64) -> (s: String)
    ensures
        s@ == decimal(n as nat),
{
    let mut v: Vec<char> = Vec::new();
    push_decimal(&mut v, n);
    assert(v@ =~= decimal(n as nat));
    string_of(&v)
}


// ---------------------------------------------------------------------------
// Lines (as `str::lines` splits them)
// ---------------------------------------------------------------------------
/// The char ranges `[start, end)` of the lines of `s` from index `i` on, where
/// the current line began at `start`.  A line ends at `'\n'`; a `'\r'` right
/// before that `'\n'` is not part of the line; a final `'\n'` opens no empty
/// line.
pub open spec fn spans_walk(s: Seq<char>, start: int, i: int) -> Seq<(int, int)>
    decreases s.len() - i,
{
    if i >= s.len() {
        if start < s.len() {
            seq![(start, s.len() as int)]
        } else {
            seq![]
        }
    } else if s[i] == '\n' {
        let end = if i > start && s[i - 1] == '\r' {
            i - 1
        } else {
            i
        };
        seq![(start, end)] + spans_walk(s, i + 1, i + 1)
    } else {
        spans_walk(s, start, i + 1)
    }
}

/// The lines of `s`, as char ranges.
pub open spec fn line_spans(s: Seq<char>) -> Seq<(int, int)> {
    spans_walk(s, 0, 0)
}

/// The text of line `k`.
pub open spec fn line_text(s: Seq<char>, k: int) -> Seq<char> {
    s.subrange(line_spans(s)[k].0, line_spans(s)[k].1)
}

pub open spec fn spans_ok(s: Seq<char>, spans: Seq<(int, int)>, lo: int) -> bool {
    forall|k: int|
        0 <= k < spans.len() ==> lo <= #[trigger] spans[k].0 <= spans[k].1 <= s.len() && (k > 0
            ==> spans[k - 1].1 < spans[k].0)
}

proof fn lemma_spans_walk_ok(s: Seq<char>, start: int, i: int)
    requires
        0 <= start <= i,
    ensures
        spans_ok(s, spans_walk(s, start, i), start),
    decreases s.len() - i,
{
    if i >= s.len() {
    } else if s[i] == '\n' {
        lemma_spans_walk_ok(s, i + 1, i + 1);
        let rest = spans_walk(s, i + 1, i + 1);
        let end = if i > start && s[i - 1] == '\r' {
            i - 1
        } else {
            i
        };
        let all = seq![(start, end)] + rest;
        assert forall|k: int| 0 <= k < all.len() implies start <= #[trigger] all[k].0 <= all[k].1
            <= s.len() && (k > 0 ==> all[k - 1].1 < all[k].0) by {
            if k > 0 {
                assert(all[k] == rest[k - 1]);
                if k > 1 {
                    assert(all[k - 1] == rest[k - 2]);
                }
            }
        }
    } else {
        lemma_spans_walk_ok(s, start, i + 1);
    }
}

/// The line ranges are inside `s`, in order, and separated.
pub proof fn lemma_line_spans_ok(s: Seq<char>)
    ensures
        spans_ok(s, line_spans(s), 0),
{
    lemma_spans_walk_ok(s, 0, 0);
}

/// A vector of index pairs read as integer pairs.
pub open spec fn as_int_pairs(v: Seq<(usize, usize)>) -> Seq<(int, int)> {
    v.map_values(|p: (usize, usize)| (p.0 as int, p.1 as int))
}

/// The lines of `s` (`content.lines()` with each line's char range).
pub fn line_spans_of(s: &[char]) -> (r: Vec<(usize, usize)>)
    ensures
        as_int_pairs(r@) == line_spans(s@),
{
    let mut out: Vec<(usize, usize)> = Vec::new();
    let mut start: usize = 0;
    let mut i: usize = 0;
    while i < s.len()
        invariant
            0 <= start <= i <= s.len(),
            as_int_pairs(out@) + spans_walk(s@, start as int, i as int) == line_spans(s@),
        decreases s.len() - i,
    {
        if s[i] == '\n' {
            let end = if i > start && s[i - 1] == '\r' {
                i - 1
            } else {
                i
            };
            let ghost old_out = out@;
            out.push((start, end));
            proof {
                assert(spans_walk(s@, start as int, i as int) == seq![(start as int, end as int)]
                    + spans_walk(s@, i + 1, i + 1));
                assert(as_int_pairs(out@) =~= as_int_pairs(old_out).push((start as int, end as int)));
                assert(as_int_pairs(out@) + spans_walk(s@, i + 1, i + 1) =~= as_int_pairs(old_out)
                    + spans_walk(s@, start as int, i as int));
            }
            start = i + 1;
        }
        i = i + 1;
    }
    let ghost old_out = out@;
    if start < s.len() {
        out.push((start, s.len()));
        assert(as_int_pairs(out@) =~= as_int_pairs(old_out) + spans_walk(s@, start as int, i as int));
    } else {
        assert(as_int_pairs(out@) =~= as_int_pairs(out@) + spans_walk(s@, start as int, i as int));
    }
    out
}

// ---------------------------------------------------------------------------
// Trimming
// ---------------------------------------------------------------------------
/// First index in `[a, b)` that is not whitespace, or `b`.
pub open spec fn skip_ws(s: Seq<char>, a: int, b: int) -> int
    decreases b - a,
{
    if a >= b {
        b
    } else if is_ws(s[a]) {
        skip_ws(s, a + 1, b)
    } else {
        a
    }
}

/// One past the last index in `[a, b)` that is not whitespace, or `a`.
pub open spec fn skip_ws_back(s: Seq<char>, a: int, b: int) -> int
    decreases b - a,
{
    if b <= a {
        a
    } else if is_ws(s[b - 1]) {
        skip_ws_back(s, a, b - 1)
    } else {
        b
    }
}

/// The range of `s[a..b].trim()`.
pub open spec fn trim_range(s: Seq<char>, a: int, b: int) -> (int, int) {
    let ts = skip_ws(s, a, b);
    (ts, skip_ws_back(s, ts, b))
}

/// `t.trim()`.
pub open spec fn trimmed(t: Seq<char>) -> Seq<char> {
    t.subrange(trim_range(t, 0, t.len() as int).0, trim_range(t, 0, t.len() as int).1)
}

pub proof fn lemma_skip_ws(s: Seq<char>, a: int, b: int)
    requires
        a <= b,
    ensures
        a <= skip_ws(s, a, b) <= b,
        forall|k: int| a <= k < skip_ws(s, a, b) ==> is_ws(#[trigger] s[k]),
        skip_ws(s, a, b) < b ==> !is_ws(s[skip_ws(s, a, b)]),
    decreases b - a,
{
    if a < b && is_ws(s[a]) {
        lemma_skip_ws(s, a + 1, b);
    }
}

pub proof fn lemma_skip_ws_back(s: Seq<char>, a: int, b: int)
    requires
        a <= b,
    ensures
        a <= skip_ws_back(s, a, b) <= b,
        forall|k: int| skip_ws_back(s, a, b) <= k < b ==> is_ws(#[trigger] s[k]),
        skip_ws_back(s, a, b) > a ==> !is_ws(s[skip_ws_back(s, a, b) - 1]),
    decreases b - a,
{
    if a < b && is_ws(s[b - 1]) {
        lemma_skip_ws_back(s, a, b - 1);
    }
}

pub proof fn lemma_trim_range(s: Seq<char>, a: int, b: int)
    requires
        a <= b,
    ensures
        a <= trim_range(s, a, b).0 <= trim_range(s, a, b).1 <= b,
{
    lemma_skip_ws(s, a, b);
    lemma_skip_ws_back(s, skip_ws(s, a, b), b);
}

/// `skip_ws` on a shifted window.
pub proof fn lemma_skip_ws_shift(s: Seq<char>, a: int, b: int, i: int)
    requires
        0 <= a <= i <= b <= s.len(),
    ensures
        skip_ws(s, i, b) == a + skip_ws(s.subrange(a, b), i - a, b - a),
    decreases b - i,
{
    if i < b {
        assert(s.subrange(a, b)[i - a] == s[i]);
        lemma_skip_ws_shift(s, a, b, i + 1);
    }
}

pub proof fn lemma_skip_ws_back_shift(s: Seq<char>, a: int, b: int, lo: int, hi: int)
    requires
        0 <= a <= lo <= hi <= b <= s.len(),
    ensures
        skip_ws_back(s, lo, hi) == a + skip_ws_back(s.subrange(a, b), lo - a, hi - a),
    decreases hi - lo,
{
    if lo < hi {
        assert(s.subrange(a, b)[hi - 1 - a] == s[hi - 1]);
        lemma_skip_ws_back_shift(s, a, b, lo, hi - 1);
    }
}

/// Trimming a window of `s` is trimming the subrange.
pub proof fn lemma_trimmed_window(s: Seq<char>, a: int, b: int)
    requires
        0 <= a <= b <= s.len(),
    ensures
        trimmed(s.subrange(a, b)) == s.subrange(trim_range(s, a, b).0, trim_range(s, a, b).1),
{
    let t = s.subrange(a, b);
    lemma_skip_ws_shift(s, a, b, a);
    let ts = skip_ws(s, a, b);
    lemma_skip_ws(s, a, b);
    lemma_skip_ws_back_shift(s, a, b, ts, b);
    let (t0, t1) = trim_range(t, 0, t.len() as int);
    assert(t0 == ts - a);
    assert(t1 == trim_range(s, a, b).1 - a);
    lemma_trim_range(s, a, b);
    assert(s.subrange(trim_range(s, a, b).0, trim_range(s, a, b).1) =~= t.subrange(t0, t1));
}

/// The range of `s[a..b].trim()`.
pub fn trim_of(s: &[char], a: usize, b: usize) -> (r: (usize, usize))
    requires
        a <= b <= s.len(),
    ensures
        r.0 as int == trim_range(s@, a as int, b as int).0,
        r.1 as int == trim_range(s@, a as int, b as int).1,
        a <= r.0 <= r.1 <= b,
{
    let mut ts = a;
    while ts < b && is_whitespace(s[ts])
        invariant
            a <= ts <= b <= s.len(),
            skip_ws(s@, a as int, b as int) == skip_ws(s@, ts as int, b as int),
        decreases b - ts,
    {
        ts = ts + 1;
    }
    let mut te = b;
    while te > ts && is_whitespace(s[te - 1])
        invariant
            a <= ts <= te <= b <= s.len(),
            skip_ws(s@, a as int, b as int) == ts,
            skip_ws_back(s@, ts as int, b as int) == skip_ws_back(s@, ts as int, te as int),
        decreases te - ts,
    {
        te = te - 1;
    }
    (ts, te)
}

// ---------------------------------------------------------------------------
// Searching
// ---------------------------------------------------------------------------
/// `t` begins with `p`.
pub open spec fn starts_with(t: Seq<char>, p: Seq<char>) -> bool {
    p.len() <= t.len() && t.take(p.len() as int) == p
}

/// Index of the first `c` in `t` at or after `i`.
pub open spec fn find_char_from(t: Seq<char>, c: char, i: int) -> Option<int>
    decreases t.len() - i,
{
    if i >= t.len() {
        None
    } else if t[i] == c {
        Some(i)
    } else {
        find_char_from(t, c, i + 1)
    }
}

/// `t.find(c)`, as a char index.
pub open spec fn find_char(t: Seq<char>, c: char) -> Option<int> {
    find_char_from(t, c, 0)
}

pub proof fn lemma_find_char_from(t: Seq<char>, c: char, i: int)
    requires
        0 <= i,
    ensures
        match find_char_from(t, c, i) {
            Some(q) => i <= q < t.len() && t[q] == c && forall|k: int| i <= k < q ==> t[k] != c,
            None => forall|k: int| i <= k < t.len() ==> t[k] != c,
        },
    decreases t.len() - i,
{
    if i < t.len() && t[i] != c {
        lemma_find_char_from(t, c, i + 1);
    }
}

/// `s[a..b]` begins with `p`.
pub fn starts_with_at(s: &[char], a: usize, b: usize, p: &[char]) -> (r: bool)
    requires
        a <= b <= s.len(),
    ensures
        r == starts_with(s@.subrange(a as int, b as int), p@),
{
    if p.len() > b - a {
        return false;
    }
    let mut k: usize = 0;
    while k < p.len()
        invariant
            p.len() <= b - a,
            a <= b <= s.len(),
            0 <= k <= p.len(),
            forall|j: int| 0 <= j < k ==> s@[a + j] == p@[j],
        decreases p.len() - k,
    {
        if s[a + k] != p[k] {
            assert(s@.subrange(a as int, b as int).take(p@.len() as int)[k as int] != p@[k as int]);
            return false;
        }
        k = k + 1;
    }
    assert(s@.subrange(a as int, b as int).take(p@.len() as int) =~= p@);
    true
}

/// Index of the first `c` in `s[a..b]`, relative to `a`.
pub fn find_char_in(s: &[char], a: usize, b: usize, c: char) -> (r: Option<usize>)
    requires
        a <= b <= s.len(),
    ensures
        match r {
            Some(q) => find_char(s@.subrange(a as int, b as int), c) == Some(q as int),
            None => find_char(s@.subrange(a as int, b as int), c) is None,
        },
{
    let ghost t = s@.subrange(a as int, b as int);
    let mut k: usize = 0;
    while a + k < b
        invariant
            a <= b <= s.len(),
            0 <= k <= b - a,
            t == s@.subrange(a as int, b as int),
            find_char(t, c) == find_char_from(t, c, k as int),
        decreases b - a - k,
    {
        if s[a + k] == c {
            return Some(k);
        }
        k = k + 1;
    }
    None
}

// ---------------------------------------------------------------------------
// Byte offsets in executable code
// ---------------------------------------------------------------------------
/// The char index whose byte offset is `target`, if there is one.
pub fn char_index_at_byte(s: &Vec<char>, target: u64) -> (r: Option<usize>)
    ensures
        r is Some <==> is_boundary(s@, target as int),
        r matches Some(i) ==> i as int == char_at_byte(s@, target as int) && i <= s@.len(),
{
    let mut cur: u128 = 0;
    let mut i: usize = 0;
    assert(s@.take(0) =~= Seq::<char>::empty());
    assert(blen(Seq::<char>::empty()) == 0) by {
        assert(encode_utf8(Seq::<char>::empty()) =~= Seq::<u8>::empty());
    }
    while i < s.len()
        invariant
            i <= s@.len(),
            cur as int == byte_at(s@, i as int),
            cur <= 4 * i,
            forall|j: int| 0 <= j < i ==> #[trigger] byte_at(s@, j) < target,
        decreases s@.len() - i,
    {
        if cur == target as u128 {
            proof {
                lemma_char_at_byte(s@, i as int);
            }
            return Some(i);
        }
        if cur > target as u128 {
            proof {
                assert forall|j: int| 0 <= j <= s@.len() implies #[trigger] byte_at(s@, j)
                    != target by {
                    if j > i {
                        lemma_byte_at_mono(s@, i as int, j);
                    }
                }
            }
            return None;
        }
        proof {
            lemma_byte_at_step(s@, i as int);
        }
        let w: u128 = if (s[i] as u32) <= 0x7F {
            1
        } else if (s[i] as u32) <= 0x7FF {
            2
        } else if (s[i] as u32) <= 0xFFFF {
            3
        } else {
            4
        };
        cur = cur + w;
        i = i + 1;
    }
    if cur == target as u128 {
        proof {
            lemma_char_at_byte(s@, i as int);
        }
        Some(i)
    } else {
        assert forall|j: int| 0 <= j <= s@.len() implies #[trigger] byte_at(s@, j) != target by {}
        None
    }
}


// ---------------------------------------------------------------------------
/// The byte offset of every char index of `s` (and of its end).
pub fn byte_offsets(s: &[char]) -> (offs: Vec<usize>)
    requires
        blen(s@) <= usize::MAX,
    ensures
        offs@.len() == s@.len() + 1,
        forall|i: int| 0 <= i <= s@.len() ==> #[trigger] offs@[i] as int == byte_at(s@, i),
{
    let mut offs: Vec<usize> = Vec::new();
    let mut cur: usize = 0;
    offs.push(0);
    let mut i: usize = 0;
    assert(s@.take(0) =~= Seq::<char>::empty());
    assert(encode_utf8(Seq::<char>::empty()) =~= Seq::<u8>::empty());
    while i < s.len()
        invariant
            0 <= i <= s.len(),
            blen(s@) <= usize::MAX,
            offs@.len() == i + 1,
            cur as int == byte_at(s@, i as int),
            forall|k: int| 0 <= k <= i ==> #[trigger] offs@[k] as int == byte_at(s@, k),
        decreases s.len() - i,
    {
        proof {
            lemma_byte_at_step(s@, i as int);
            lemma_byte_at_mono(s@, i + 1, s@.len() as int);
            assert(s@.take(s@.len() as int) =~= s@);
        }
        cur = cur + char_width(s[i]);
        offs.push(cur);
        i = i + 1;
    }
    offs
}

/// The char index, from `lo` on, whose byte offset is `target`, if `target`
/// falls between chars.
pub(crate) fn boundary_index(offs: &[usize], s: Ghost<Seq<char>>, lo: usize, target: usize) -> (r: Option<usize>)
    requires
        offs@.len() == s@.len() + 1,
        forall|i: int| 0 <= i <= s@.len() ==> #[trigger] offs@[i] as int == byte_at(s@, i),
        lo <= s@.len(),
        byte_at(s@, lo as int) <= target,
    ensures
        r is Some <==> is_boundary(s@, target as int),
        r matches Some(i) ==> i as int == char_at_byte(s@, target as int) && lo <= i <= s@.len(),
{
    let n = offs.len() - 1;
    let mut i = lo;
    while i < n && offs[i] < target
        invariant
            offs@.len() == s@.len() + 1,
            n == s@.len(),
            forall|k: int| 0 <= k <= s@.len() ==> #[trigger] offs@[k] as int == byte_at(s@, k),
            lo <= i <= n,
            byte_at(s@, lo as int) <= target,
            forall|j: int| lo <= j < i ==> #[trigger] byte_at(s@, j) < target,
        decreases n - i,
    {
        i = i + 1;
    }
    if offs[i] == target {
        proof {
            lemma_char_at_byte(s@, i as int);
        }
        Some(i)
    } else {
        proof {
            assert forall|j: int| 0 <= j <= s@.len() implies #[trigger] byte_at(s@, j) != target by {
                if j < lo {
                    lemma_byte_at_mono(s@, j, lo as int);
                } else if j > i {
                    lemma_byte_at_mono(s@, i as int, j);
                }
            }
        }
        None
    }
}

// ---------------------------------------------------------------------------
// Ordering strings
// ---------------------------------------------------------------------------
/// `a < b` for strings: the first differing char decides by its code, and a
/// proper prefix comes first.
pub open spec fn str_less(a: Seq<char>, b: Seq<char>) -> bool
    decreases a.len(),
{
    if a.len() == 0 {
        b.len() > 0
    } else if b.len() == 0 {
        false
    } else if a[0] != b[0] {
        (a[0] as int) < (b[0] as int)
    } else {
        str_less(a.drop_first(), b.drop_first())
    }
}

proof fn lemma_str_less_asym(a: Seq<char>, b: Seq<char>)
    ensures
        str_less(a, b) ==> !str_less(b, a),
    decreases a.len(),
{
    if a.len() > 0 && b.len() > 0 && a[0] == b[0] {
        lemma_str_less_asym(a.drop_first(), b.drop_first());
    }
}

proof fn lemma_str_less_trans(a: Seq<char>, b: Seq<char>, c: Seq<char>)
    requires
        str_less(a, b),
        str_less(b, c),
    ensures
        str_less(a, c),
    decreases a.len(),
{
    if a.len() > 0 && b.len() > 0 && c.len() > 0 && a[0] == b[0] && b[0] == c[0] {
        lemma_str_less_trans(a.drop_first(), b.drop_first(), c.drop_first());
    }
}

proof fn lemma_str_less_total(a: Seq<char>, b: Seq<char>)
    ensures
        a == b || str_less(a, b) || str_less(b, a),
    decreases a.len(),
{
    if a.len() > 0 && b.len() > 0 && a[0] == b[0] {
        lemma_str_less_total(a.drop_first(), b.drop_first());
        if a.drop_first() == b.drop_first() {
            assert(a =~= seq![a[0]] + a.drop_first());
            assert(b =~= seq![b[0]] + b.drop_first());
        }
    } else if a.len() == 0 && b.len() == 0 {
        assert(a =~= b);
    } else if a.len() > 0 && b.len() > 0 {
        assert((a[0] as int) != (b[0] as int));
    }
}

/// `a < b` for strings.
pub fn str_lt(a: &str, b: &str) -> (r: bool)
    ensures
        r == str_less(a@, b@),
{
    let x = chars_of(a);
    let y = chars_of(b);
    let mut i: usize = 0;
    assert(x@.skip(0) =~= x@);
    assert(y@.skip(0) =~= y@);
    while i < x.len() && i < y.len()
        invariant
            x@ == a@,
            y@ == b@,
            i <= x@.len(),
            i <= y@.len(),
            str_less(a@, b@) == str_less(x@.skip(i as int), y@.skip(i as int)),
        decreases x@.len() - i,
    {
        assert(x@.skip(i as int)[0] == x@[i as int]);
        assert(y@.skip(i as int)[0] == y@[i as int]);
        if x[i] != y[i] {
            return x[i] < y[i];
        }
        assert(x@.skip(i as int).drop_first() =~= x@.skip(i + 1));
        assert(y@.skip(i as int).drop_first() =~= y@.skip(i + 1));
        i = i + 1;
    }
    x.len() - i < y.len() - i
}

/// The views of a list of strings.
pub open spec fn views(s: Seq<String>) -> Seq<Seq<char>> {
    s.map_values(|x: String| x@)
}

/// No string of the list comes before one that precedes it.
pub open spec fn sorted_views(s: Seq<Seq<char>>) -> bool {
    forall|i: int, j: int| 0 <= i < j < s.len() ==> !str_less(#[trigger] s[j], #[trigger] s[i])
}

proof fn lemma_insert_sorted(s: Seq<Seq<char>>, p: int, x: Seq<char>)
    requires
        sorted_views(s),
        0 <= p <= s.len(),
        forall|k: int| 0 <= k < p ==> !str_less(x, #[trigger] s[k]),
        p < s.len() ==> str_less(x, s[p]),
    ensures
        sorted_views(s.insert(p, x)),
{
    let t = s.insert(p, x);
    assert forall|i: int, j: int| 0 <= i < j < t.len() implies !str_less(
        #[trigger] t[j],
        #[trigger] t[i],
    ) by {
        if i < p && j == p {
            assert(t[i] == s[i]);
        } else if i < p && j > p {
            assert(t[i] == s[i] && t[j] == s[j - 1]);
        } else if i < p {
            assert(t[i] == s[i] && t[j] == s[j]);
        } else if i == p {
            assert(t[i] == x && t[j] == s[j - 1]);
            if j - 1 > p {
                assert(!str_less(s[j - 1], s[p]));
                lemma_str_less_total(s[p], s[j - 1]);
                if s[p] != s[j - 1] {
                    lemma_str_less_trans(x, s[p], s[j - 1]);
                }
            }
            lemma_str_less_asym(x, s[j - 1]);
        } else {
            assert(t[i] == s[i - 1] && t[j] == s[j - 1]);
        }
    }
}

/// The position before the first string greater than `x`.
fn insert_position(out: &Vec<String>, x: &String) -> (p: usize)
    ensures
        p <= out@.len(),
        forall|k: int| 0 <= k < p ==> !str_less(x@, #[trigger] out@[k]@),
        p < out@.len() ==> str_less(x@, out@[p as int]@),
{
    let mut p: usize = 0;
    while p < out.len()
        invariant
            p <= out@.len(),
            forall|k: int| 0 <= k < p ==> !str_less(x@, #[trigger] out@[k]@),
        decreases out@.len() - p,
    {
        if str_lt(x.as_str(), out[p].as_str()) {
            return p;
        }
        p = p + 1;
    }
    p
}

/// The strings in ascending order (`slice::sort` on strings).
pub fn sort_strings(v: Vec<String>) -> (r: Vec<String>)
    ensures
        sorted_views(views(r@)),
        views(r@).to_multiset() == views(v@).to_multiset(),
{
    let mut out: Vec<String> = Vec::new();
    let mut i: usize = 0;
    assert(views(out@) =~= Seq::<Seq<char>>::empty());
    assert(views(v@.take(0)) =~= Seq::<Seq<char>>::empty());
    while i < v.len()
        invariant
            i <= v@.len(),
            sorted_views(views(out@)),
            views(out@).to_multiset() == views(v@.take(i as int)).to_multiset(),
        decreases v@.len() - i,
    {
        let x = v[i].clone();
        let p = insert_position(&out, &x);
        let ghost before = out@;
        proof {
            assert forall|k: int| 0 <= k < p implies !str_less(x@, #[trigger] views(before)[k]) by {
                assert(views(before)[k] == before[k]@);
            }
            lemma_insert_sorted(views(before), p as int, x@);
        }
        out.insert(p, x);
        proof {
            assert(views(out@) =~= views(before).insert(p as int, x@));
            vstd::seq_lib::to_multiset_insert(views(before), p as int, x@);
            assert(views(v@.take(i + 1)) =~= views(v@.take(i as int)).push(v@[i as int]@));
            vstd::seq_lib::to_multiset_build(views(v@.take(i as int)), v@[i as int]@);
        }
        i = i + 1;
    }
    assert(v@.take(v@.len() as int) =~= v@);
    out
}

// ---------------------------------------------------------------------------
// Lines after a replacement inside a line
// ---------------------------------------------------------------------------
/// `s` with `s[a..b)` replaced by `t`.
pub open spec fn replace_range(s: Seq<char>, a: int, b: int, t: Seq<char>) -> Seq<char> {
    s.take(a) + t + s.skip(b)
}

/// Where a position of `s` lands after `s[a..b)` is replaced by `t`.
pub open spec fn moved(x: int, a: int, b: int, t: Seq<char>) -> int {
    if x <= a {
        x
    } else {
        x + t.len() - (b - a)
    }
}

pub open spec fn moved_spans(sp: Seq<(int, int)>, a: int, b: int, t: Seq<char>) -> Seq<(int, int)> {
    sp.map_values(|p: (int, int)| (moved(p.0, a, b, t), moved(p.1, a, b, t)))
}

pub open spec fn no_newline(s: Seq<char>, lo: int, hi: int) -> bool {
    forall|i: int| lo <= i < hi ==> #[trigger] s[i] != '\n'
}

/// Walking over chars that are no line break changes nothing.
proof fn lemma_walk_plain(s: Seq<char>, start: int, lo: int, hi: int)
    requires
        0 <= lo <= hi <= s.len(),
        no_newline(s, lo, hi),
    ensures
        spans_walk(s, start, lo) == spans_walk(s, start, hi),
    decreases hi - lo,
{
    if lo < hi {
        lemma_walk_plain(s, start, lo + 1, hi);
    }
}

proof fn lemma_moved_cons(p: (int, int), rest: Seq<(int, int)>, a: int, b: int, t: Seq<char>)
    ensures
        moved_spans(seq![p] + rest, a, b, t) == seq![(moved(p.0, a, b, t), moved(p.1, a, b, t))]
            + moved_spans(rest, a, b, t),
{
    assert(moved_spans(seq![p] + rest, a, b, t) =~= seq![(moved(p.0, a, b, t), moved(p.1, a, b, t))]
        + moved_spans(rest, a, b, t));
}

/// Past the replaced range, the walk over the new text is the old walk, moved.
proof fn lemma_walk_after(s: Seq<char>, a: int, b: int, t: Seq<char>, start: int, i: int)
    requires
        0 <= a < b < s.len(),
        s[b] != '\n',
        no_newline(t, 0, t.len() as int),
        b <= i,
        0 <= start <= i,
        start <= a || b < start,
    ensures
        spans_walk(replace_range(s, a, b, t), moved(start, a, b, t), i + t.len() - (b - a))
            == moved_spans(spans_walk(s, start, i), a, b, t),
    decreases s.len() - i,
{
    let r = replace_range(s, a, b, t);
    let d = t.len() - (b - a);
    assert(r.len() == s.len() + d);
    if i >= s.len() {
        assert(moved_spans(Seq::<(int, int)>::empty(), a, b, t) =~= Seq::<(int, int)>::empty());
        if start < s.len() {
            lemma_moved_cons((start, s.len() as int), Seq::<(int, int)>::empty(), a, b, t);
            assert(seq![(start, s.len() as int)] + Seq::<(int, int)>::empty() =~= seq![(start, s.len() as int)]);
            assert(seq![(moved(start, a, b, t), moved(s.len() as int, a, b, t))] + Seq::<(int, int)>::empty()
                =~= seq![(moved(start, a, b, t), moved(s.len() as int, a, b, t))]);
        }
    } else {
        assert(r[i + d] == s[i]);
        if s[i] == '\n' {
            assert(i > b);
            assert(r[i + d - 1] == s[i - 1]);
            lemma_walk_after(s, a, b, t, i + 1, i + 1);
            let end = if i > start && s[i - 1] == '\r' {
                i - 1
            } else {
                i
            };
            lemma_moved_cons((start, end), spans_walk(s, i + 1, i + 1), a, b, t);
            assert(moved(i + 1, a, b, t) == i + 1 + d);
        } else {
            lemma_walk_after(s, a, b, t, start, i + 1);
        }
    }
}

/// Before the replaced range, the walk over the new text is the old walk,
/// moved.
proof fn lemma_walk_before(s: Seq<char>, a: int, b: int, t: Seq<char>, start: int, i: int)
    requires
        0 <= a < b < s.len(),
        s[b] != '\n',
        no_newline(s, a, b),
        no_newline(t, 0, t.len() as int),
        0 <= start <= i <= a,
    ensures
        spans_walk(replace_range(s, a, b, t), start, i) == moved_spans(spans_walk(s, start, i), a, b, t),
    decreases a - i,
{
    let r = replace_range(s, a, b, t);
    if i == a {
        assert(no_newline(r, a, a + t.len())) by {
            assert forall|j: int| a <= j < a + t.len() implies #[trigger] r[j] != '\n' by {
                assert(r[j] == t[j - a]);
            }
        }
        lemma_walk_plain(r, start, a, a + t.len());
        lemma_walk_plain(s, start, a, b);
        lemma_walk_after(s, a, b, t, start, b);
    } else {
        assert(r[i] == s[i]);
        if s[i] == '\n' {
            if i > start {
                assert(r[i - 1] == s[i - 1]);
            }
            lemma_walk_before(s, a, b, t, i + 1, i + 1);
            let end = if i > start && s[i - 1] == '\r' {
                i - 1
            } else {
                i
            };
            lemma_moved_cons((start, end), spans_walk(s, i + 1, i + 1), a, b, t);
        } else {
            lemma_walk_before(s, a, b, t, start, i + 1);
        }
    }
}

/// Replacing a stretch of a line, with no line break in it, just before it
/// or in the new text, moves the lines: those before stay, those after shift,
/// and the line that holds the stretch grows or shrinks.
pub proof fn lemma_line_spans_replace(s: Seq<char>, a: int, b: int, t: Seq<char>)
    requires
        0 <= a < b < s.len(),
        s[b] != '\n',
        no_newline(s, a, b),
        no_newline(t, 0, t.len() as int),
    ensures
        line_spans(replace_range(s, a, b, t)) == moved_spans(line_spans(s), a, b, t),
{
    lemma_walk_before(s, a, b, t, 0, 0);
}

proof fn lemma_walk_no_newline(s: Seq<char>, start: int, i: int)
    requires
        0 <= start <= i,
        no_newline(s, start, i),
    ensures
        forall|k: int|
            0 <= k < spans_walk(s, start, i).len() ==> no_newline(
                s,
                (#[trigger] spans_walk(s, start, i)[k]).0,
                spans_walk(s, start, i)[k].1,
            ),
    decreases s.len() - i,
{
    if i >= s.len() {
        assert(no_newline(s, start, s.len() as int));
        if start < s.len() {
            let sw = spans_walk(s, start, i);
            assert(sw == seq![(start, s.len() as int)]);
            assert forall|k: int| 0 <= k < sw.len() implies no_newline(s, (#[trigger] sw[k]).0, sw[k].1) by {
                assert(sw[k] == (start, s.len() as int));
            }
        } else {
            assert(spans_walk(s, start, i).len() == 0);
        }
    } else if s[i] == '\n' {
        lemma_walk_no_newline(s, i + 1, i + 1);
        let rest = spans_walk(s, i + 1, i + 1);
        let end = if i > start && s[i - 1] == '\r' {
            i - 1
        } else {
            i
        };
        let all = seq![(start, end)] + rest;
        assert(no_newline(s, start, end));
        assert(spans_walk(s, start, i) == all);
        assert forall|k: int| 0 <= k < all.len() implies no_newline(s, (#[trigger] all[k]).0, all[k].1) by {
            if k > 0 {
                assert(all[k] == rest[k - 1]);
            }
        }
    } else {
        assert(no_newline(s, start, i + 1));
        lemma_walk_no_newline(s, start, i + 1);
        assert(spans_walk(s, start, i) == spans_walk(s, start, i + 1));
    }
}

/// A line holds no line break.
pub proof fn lemma_line_no_newline(s: Seq<char>, l: int)
    requires
        0 <= l < line_spans(s).len(),
    ensures
        no_newline(s, line_spans(s)[l].0, line_spans(s)[l].1),
{
    lemma_walk_no_newline(s, 0, 0);
}

/// Trimming the end stops at the last char before `hi` that is not
/// whitespace.
pub proof fn lemma_skip_back_to(y: Seq<char>, lo: int, m: int, hi: int)
    requires
        lo < m <= hi <= y.len(),
        0 <= lo,
        !is_ws(y[m - 1]),
        forall|k: int| m <= k < hi ==> is_ws(#[trigger] y[k]),
    ensures
        skip_ws_back(y, lo, hi) == m,
    decreases hi - m,
{
    if hi > m {
        lemma_skip_back_to(y, lo, m, hi - 1);
    }
}

/// The first `c` at or after `i` is at `q` when `u[q]` is `c` and none comes
/// between.
pub proof fn lemma_find_char_at(u: Seq<char>, c: char, i: int, q: int)
    requires
        0 <= i <= q < u.len(),
        u[q] == c,
        forall|k: int| i <= k < q ==> u[k] != c,
    ensures
        find_char_from(u, c, i) == Some(q),
    decreases q - i,
{
    if i < q {
        lemma_find_char_at(u, c, i + 1, q);
    }
}

/// `s` holds no carriage return.
pub open spec fn no_cr(s: Seq<char>) -> bool {
    forall|i: int| 0 <= i < s.len() ==> #[trigger] s[i] != '\r'
}

proof fn lemma_walk_sep(s: Seq<char>, start: int, i: int)
    requires
        no_cr(s),
        0 <= start <= i,
    ensures
        spans_walk(s, start, i).len() > 0 ==> spans_walk(s, start, i)[0].0 == start,
        forall|k: int|
            0 <= k < spans_walk(s, start, i).len() - 1 ==> #[trigger] spans_walk(s, start, i)[k].1
                < s.len() && s[spans_walk(s, start, i)[k].1] == '\n' && spans_walk(s, start, i)[k
                + 1].0 == spans_walk(s, start, i)[k].1 + 1,
    decreases s.len() - i,
{
    if i >= s.len() {
    } else if s[i] == '\n' {
        lemma_walk_sep(s, i + 1, i + 1);
        let rest = spans_walk(s, i + 1, i + 1);
        let all = seq![(start, i)] + rest;
        assert(spans_walk(s, start, i) == all);
        assert forall|k: int| 0 <= k < all.len() - 1 implies {
            &&& #[trigger] all[k].1 < s.len()
            &&& s[all[k].1] == '\n'
            &&& all[k + 1].0 == all[k].1 + 1
        } by {
            if k > 0 {
                assert(all[k] == rest[k - 1]);
                assert(all[k + 1] == rest[k]);
            } else {
                assert(all[1] == rest[0]);
            }
        }
    } else {
        lemma_walk_sep(s, start, i + 1);
        assert(spans_walk(s, start, i) == spans_walk(s, start, i + 1));
    }
}

/// Without carriage returns, the first line starts at 0 and each line ends
/// at a line break just before the next one starts.
pub proof fn lemma_line_sep(s: Seq<char>)
    requires
        no_cr(s),
    ensures
        line_spans(s).len() > 0 ==> line_spans(s)[0].0 == 0,
        forall|m: int|
            0 <= m < line_spans(s).len() - 1 ==> #[trigger] line_spans(s)[m].1 < s.len() && s[line_spans(
                s,
            )[m].1] == '\n' && line_spans(s)[m + 1].0 == line_spans(s)[m].1 + 1,
{
    lemma_walk_sep(s, 0, 0);
}

} // verus!

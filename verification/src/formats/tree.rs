//! Structured documents (JSON, TOML, YAML): a tree of values whose string
//! leaves are translatable and are found again by a JSON pointer.
use crate::formats::{
    pairs_view, strings_match, to_translatables, TranslatableString, TranslatedString,
};
use crate::text::{
    chars_eq, chars_of, decimal, find_char, find_char_from, replace_pair, replace_pair_of, lemma_find_char_from, push_all, push_decimal, string_of,
    trim_of, trim_range, trimmed,
};
use vstd::prelude::*;

verus! {

/// A parsed document. Object entries keep the order of the document.
#[derive(Debug)]
pub enum JsonNode {
    Null,
    Bool(bool),
    Number(String),
    Str(String),
    Array(Vec<JsonNode>),
    Object(Vec<(String, JsonNode)>),
}

/// The mathematical value of a `JsonNode`.
pub enum JsonValue {
    Null,
    Bool(bool),
    Number(Seq<char>),
    Str(Seq<char>),
    Array(Seq<JsonValue>),
    Object(Seq<(Seq<char>, JsonValue)>),
}

pub open spec fn node_view(n: JsonNode) -> JsonValue
    decreases n, 0nat,
{
    match n {
        JsonNode::Null => JsonValue::Null,
        JsonNode::Bool(b) => JsonValue::Bool(b),
        JsonNode::Number(s) => JsonValue::Number(s@),
        JsonNode::Str(s) => JsonValue::Str(s@),
        JsonNode::Array(items) => JsonValue::Array(items_view(items@, items@.len())),
        JsonNode::Object(es) => JsonValue::Object(entries_view(es@, es@.len())),
    }
}

/// The views of the first `n` items.
pub open spec fn items_view(s: Seq<JsonNode>, n: nat) -> Seq<JsonValue>
    decreases s, n,
{
    if n == 0 || n > s.len() {
        seq![]
    } else {
        items_view(s, (n - 1) as nat).push(node_view(s[n - 1]))
    }
}

/// The views of the first `n` entries.
pub open spec fn entries_view(s: Seq<(String, JsonNode)>, n: nat) -> Seq<(Seq<char>, JsonValue)>
    decreases s, n,
{
    if n == 0 || n > s.len() {
        seq![]
    } else {
        entries_view(s, (n - 1) as nat).push((s[n - 1].0@, node_view(s[n - 1].1)))
    }
}

impl View for JsonNode {
    type V = JsonValue;

    open spec fn view(&self) -> JsonValue {
        node_view(*self)
    }
}

pub proof fn lemma_items_view(s: Seq<JsonNode>, n: nat)
    requires
        n <= s.len(),
    ensures
        items_view(s, n).len() == n,
        forall|i: int| 0 <= i < n ==> #[trigger] items_view(s, n)[i] == node_view(s[i]),
    decreases n,
{
    if n > 0 {
        lemma_items_view(s, (n - 1) as nat);
    }
}

pub proof fn lemma_entries_view(s: Seq<(String, JsonNode)>, n: nat)
    requires
        n <= s.len(),
    ensures
        entries_view(s, n).len() == n,
        forall|i: int|
            0 <= i < n ==> #[trigger] entries_view(s, n)[i] == (s[i].0@, node_view(s[i].1)),
    decreases n,
{
    if n > 0 {
        lemma_entries_view(s, (n - 1) as nat);
    }
}

// ---------------------------------------------------------------------------
// Ids of the string leaves
// ---------------------------------------------------------------------------
/// The id of item `i` under `prefix`: `prefix[i]`.
pub open spec fn index_path(prefix: Seq<char>, i: nat) -> Seq<char> {
    prefix + seq!['['] + decimal(i) + seq![']']
}

/// The id of key `k` under `prefix`: `prefix.k`.
pub open spec fn key_path(prefix: Seq<char>, k: Seq<char>) -> Seq<char> {
    prefix + seq!['.'] + k
}

/// A key that starts with `_` is skipped, with all that lies under it.
pub open spec fn hidden_key(k: Seq<char>) -> bool {
    k.len() > 0 && k[0] == '_'
}

/// The text kept of a string leaf: trimmed or as it is.  A leaf whose trimmed
/// text is empty is not kept at all.
pub open spec fn leaf_text(s: Seq<char>, trim: bool) -> Seq<char> {
    if trim {
        trimmed(s)
    } else {
        s
    }
}

/// The (id, text) pairs of the string leaves of `v`, in document order.
pub open spec fn value_strings(v: JsonValue, prefix: Seq<char>, trim: bool) -> Seq<
    (Seq<char>, Seq<char>),
>
    decreases v, 0nat,
{
    match v {
        JsonValue::Str(s) => {
            if trimmed(s).len() == 0 {
                seq![]
            } else {
                seq![(prefix, leaf_text(s, trim))]
            }
        },
        JsonValue::Array(items) => array_strings(items, prefix, trim, items.len()),
        JsonValue::Object(es) => object_strings(es, prefix, trim, es.len()),
        _ => seq![],
    }
}

/// The string leaves of the first `n` items.
pub open spec fn array_strings(items: Seq<JsonValue>, prefix: Seq<char>, trim: bool, n: nat) -> Seq<
    (Seq<char>, Seq<char>),
>
    decreases items, n,
{
    if n == 0 || n > items.len() {
        seq![]
    } else {
        array_strings(items, prefix, trim, (n - 1) as nat) + value_strings(
            items[n - 1],
            index_path(prefix, (n - 1) as nat),
            trim,
        )
    }
}

/// The string leaves under the first `n` entries whose keys are not hidden.
pub open spec fn object_strings(
    es: Seq<(Seq<char>, JsonValue)>,
    prefix: Seq<char>,
    trim: bool,
    n: nat,
) -> Seq<(Seq<char>, Seq<char>)>
    decreases es, n,
{
    if n == 0 || n > es.len() {
        seq![]
    } else {
        object_strings(es, prefix, trim, (n - 1) as nat) + if hidden_key(es[n - 1].0) {
            seq![]
        } else {
            value_strings(es[n - 1].1, key_path(prefix, es[n - 1].0), trim)
        }
    }
}

fn copy_chars(v: &[char]) -> (r: Vec<char>)
    ensures
        r@ == v@,
{
    let mut r: Vec<char> = Vec::new();
    push_all(&mut r, v);
    assert(r@ =~= v@);
    r
}


/// Appends the string leaves of `node`, with ids under `prefix`.
fn collect_strings(
    node: &JsonNode,
    prefix: &Vec<char>,
    trim: bool,
    out: &mut Vec<(Vec<char>, Vec<char>)>,
)
    ensures
        pairs_view(final(out)@) == pairs_view(old(out)@) + value_strings(node@, prefix@, trim),
    decreases node, 0nat,
{
    match node {
        JsonNode::Str(s) => {
            let cs = chars_of(s.as_str());
            let (a, b) = trim_of(&cs, 0, cs.len());
            if a < b {
                let mut text: Vec<char> = Vec::new();
                if trim {
                    let mut k = a;
                    while k < b
                        invariant
                            a <= k <= b <= cs@.len(),
                            text@ == cs@.subrange(a as int, k as int),
                        decreases b - k,
                    {
                        text.push(cs[k]);
                        k = k + 1;
                    }
                } else {
                    push_all(&mut text, &cs);
                }
                let ghost old_out = out@;
                out.push((copy_chars(prefix), text));
                assert(pairs_view(out@) =~= pairs_view(old_out) + value_strings(node@, prefix@, trim));
            } else {
                assert(pairs_view(out@) =~= pairs_view(out@) + value_strings(node@, prefix@, trim));
            }
        },
        JsonNode::Array(items) => {
            let ghost old_out = out@;
            let mut i: usize = 0;
            proof {
                lemma_items_view(items@, items@.len());
            }
            assert(pairs_view(out@) =~= pairs_view(old_out) + array_strings(
                items_view(items@, items@.len()),
                prefix@,
                trim,
                0,
            ));
            while i < items.len()
                invariant
                    i <= items@.len(),
                    *node == JsonNode::Array(*items),
                    node@ == JsonValue::Array(items_view(items@, items@.len())),
                    items_view(items@, items@.len()).len() == items@.len(),
                    forall|j: int|
                        0 <= j < items@.len() ==> #[trigger] items_view(items@, items@.len())[j]
                            == node_view(items@[j]),
                    pairs_view(out@) == pairs_view(old_out) + array_strings(
                        items_view(items@, items@.len()),
                        prefix@,
                        trim,
                        i as nat,
                    ),
                decreases items@.len() - i,
            {
                let mut p = copy_chars(prefix);
                p.push('[');
                push_decimal(&mut p, i as u64);
                p.push(']');
                proof {
                    assert(decreases_to!(*node => *items));
                    assert(decreases_to!(*items => items@));
                    assert(decreases_to!(items@ => items@[i as int]));
                    assert(decreases_to!(*node => items@[i as int]));
                }
                collect_strings(&items[i], &p, trim, out);
                proof {
                    let iv = items_view(items@, items@.len());
                    assert(iv[i as int] == node_view(items@[i as int]));
                    assert(p@ =~= index_path(prefix@, i as nat));
                    assert(array_strings(iv, prefix@, trim, (i + 1) as nat) == array_strings(
                        iv,
                        prefix@,
                        trim,
                        i as nat,
                    ) + value_strings(iv[i as int], index_path(prefix@, i as nat), trim));
                }
                i = i + 1;
            }
        },
        JsonNode::Object(es) => {
            let ghost old_out = out@;
            let mut i: usize = 0;
            proof {
                lemma_entries_view(es@, es@.len());
            }
            assert(pairs_view(out@) =~= pairs_view(old_out) + object_strings(
                entries_view(es@, es@.len()),
                prefix@,
                trim,
                0,
            ));
            while i < es.len()
                invariant
                    i <= es@.len(),
                    *node == JsonNode::Object(*es),
                    node@ == JsonValue::Object(entries_view(es@, es@.len())),
                    entries_view(es@, es@.len()).len() == es@.len(),
                    forall|j: int|
                        0 <= j < es@.len() ==> #[trigger] entries_view(es@, es@.len())[j] == (
                            es@[j].0@,
                            node_view(es@[j].1),
                        ),
                    pairs_view(out@) == pairs_view(old_out) + object_strings(
                        entries_view(es@, es@.len()),
                        prefix@,
                        trim,
                        i as nat,
                    ),
                decreases es@.len() - i,
            {
                let ghost ev = entries_view(es@, es@.len());
                let key = chars_of(es[i].0.as_str());
                assert(ev[i as int] == (es@[i as int].0@, node_view(es@[i as int].1)));
                if key.len() > 0 && key[0] == '_' {
                    assert(object_strings(ev, prefix@, trim, (i + 1) as nat) =~= object_strings(
                        ev,
                        prefix@,
                        trim,
                        i as nat,
                    ));
                } else {
                    let mut p = copy_chars(prefix);
                    p.push('.');
                    push_all(&mut p, &key);
                    proof {
                        assert(decreases_to!(*node => *es));
                        assert(decreases_to!(*es => es@));
                        assert(decreases_to!(es@ => es@[i as int]));
                        assert(decreases_to!(es@[i as int] => es@[i as int].1));
                        assert(decreases_to!(*node => es@[i as int].1));
                    }
                    collect_strings(&es[i].1, &p, trim, out);
                    proof {
                        assert(p@ =~= key_path(prefix@, ev[i as int].0));
                        assert(object_strings(ev, prefix@, trim, (i + 1) as nat) == object_strings(
                            ev,
                            prefix@,
                            trim,
                            i as nat,
                        ) + value_strings(ev[i as int].1, key_path(prefix@, ev[i as int].0), trim));
                    }
                }
                i = i + 1;
            }
        },
        _ => {
            assert(pairs_view(out@) =~= pairs_view(out@) + value_strings(node@, prefix@, trim));
        },
    }
}

// ---------------------------------------------------------------------------
// From ids to JSON pointers
// ---------------------------------------------------------------------------
/// How a key is written in a pointer: `'~'` as `"~0"`, `'/'` as `"~1"`.
pub open spec fn escape_char(c: char) -> Seq<char> {
    if c == '~' {
        seq!['~', '0']
    } else if c == '/' {
        seq!['~', '1']
    } else {
        seq![c]
    }
}

/// `s.replace('~', "~0").replace('/', "~1")`: each char escaped in turn.
pub open spec fn escaped(s: Seq<char>) -> Seq<char>
    decreases s.len(),
{
    if s.len() == 0 {
        seq![]
    } else {
        escaped(s.drop_last()) + escape_char(s.last())
    }
}

/// A key as one pointer step: `/` and the escaped key; nothing for an empty key.
pub open spec fn key_step(key: Seq<char>) -> Seq<char> {
    if key.len() == 0 {
        seq![]
    } else {
        seq!['/'] + escaped(key)
    }
}

/// The index of the `]` that closes a `[` before `i`, or the end of `s`.
pub open spec fn bracket_end(s: Seq<char>, i: int) -> int {
    match find_char_from(s, ']', i) {
        Some(j) => j,
        None => s.len() as int,
    }
}

/// The pointer written for `s[i..]`, where `key` holds the chars of the key
/// read so far.  A `.` ends a key; a `[` ends a key and starts an index, which
/// runs to the next `]` and is written as it stands.
pub open spec fn pointer_walk(s: Seq<char>, i: int, key: Seq<char>) -> Seq<char>
    decreases s.len() + 1 - i,
{
    if i < 0 || i >= s.len() {
        key_step(key)
    } else if s[i] == '.' {
        key_step(key) + pointer_walk(s, i + 1, seq![])
    } else if s[i] == '[' {
        let j = bracket_end(s, i + 1);
        proof {
            lemma_find_char_from(s, ']', i + 1);
        }
        key_step(key) + seq!['/'] + s.subrange(i + 1, j) + pointer_walk(s, j + 1, seq![])
    } else {
        pointer_walk(s, i + 1, key.push(s[i]))
    }
}

/// An id without its first component: what follows the first `.`, or the
/// whole id when it has none.
pub open spec fn id_inner(id: Seq<char>) -> Seq<char> {
    match find_char(id, '.') {
        Some(p) => id.subrange(p + 1, id.len() as int),
        None => id,
    }
}

/// The JSON pointer that an id leads to.
pub open spec fn id_pointer(id: Seq<char>) -> Seq<char> {
    pointer_walk(id_inner(id), 0, seq![])
}

/// `s` escaped for use in a JSON pointer.
pub fn escape_pointer(s: &str) -> (r: String)
    ensures
        r@ == escaped(s@),
{
    let cs = chars_of(s);
    let mut out: Vec<char> = Vec::new();
    push_escaped(&mut out, &cs);
    string_of(&out)
}

fn push_escaped(out: &mut Vec<char>, key: &[char])
    ensures
        final(out)@ == old(out)@ + escaped(key@),
{
    let mut i: usize = 0;
    while i < key.len()
        invariant
            i <= key@.len(),
            out@ == old(out)@ + escaped(key@.take(i as int)),
        decreases key@.len() - i,
    {
        let c = key[i];
        if c == '~' {
            out.push('~');
            out.push('0');
        } else if c == '/' {
            out.push('~');
            out.push('1');
        } else {
            out.push(c);
        }
        assert(key@.take(i + 1).drop_last() =~= key@.take(i as int));
        i = i + 1;
        assert(out@ =~= old(out)@ + escaped(key@.take(i as int)));
    }
    assert(key@.take(i as int) =~= key@);
}

fn push_key_step(out: &mut Vec<char>, key: &Vec<char>)
    ensures
        final(out)@ == old(out)@ + key_step(key@),
{
    if key.len() > 0 {
        out.push('/');
        push_escaped(out, key);
        assert(final(out)@ =~= old(out)@ + key_step(key@));
    } else {
        assert(out@ =~= old(out)@ + key_step(key@));
    }
}

/// The JSON pointer for an id: the id's components after the first, each
/// key escaped, each `[n]` index as written.
pub fn id_to_pointer(id: &str) -> (r: String)
    ensures
        r@ == id_pointer(id@),
{
    let cs = chars_of(id);
    let mut p: usize = 0;
    while p < cs.len() && cs[p] != '.'
        invariant
            p <= cs@.len(),
            cs@ == id@,
            forall|k: int| 0 <= k < p ==> cs@[k] != '.',
        decreases cs@.len() - p,
    {
        p = p + 1;
    }
    proof {
        lemma_find_char_from(cs@, '.', 0);
    }
    let start: usize = if p < cs.len() {
        p + 1
    } else {
        0
    };
    let s = if start > 0 {
        let mut t: Vec<char> = Vec::new();
        let mut k = start;
        while k < cs.len()
            invariant
                start <= k <= cs@.len(),
                t@ == cs@.subrange(start as int, k as int),
            decreases cs@.len() - k,
        {
            t.push(cs[k]);
            k = k + 1;
        }
        t
    } else {
        cs
    };
    assert(s@ == id_inner(id@));
    let mut out: Vec<char> = Vec::new();
    let mut key: Vec<char> = Vec::new();
    let mut i: usize = 0;
    while i < s.len()
        invariant
            i <= s@.len(),
            out@ + pointer_walk(s@, i as int, key@) == pointer_walk(s@, 0, seq![]),
        decreases s@.len() - i,
    {
        let c = s[i];
        if c == '.' {
            let ghost before = out@;
            let ghost before_key = key@;
            push_key_step(&mut out, &key);
            key = Vec::new();
            assert(out@ + pointer_walk(s@, i + 1, key@) =~= before + pointer_walk(
                s@,
                i as int,
                before_key,
            ));
            i = i + 1;
        } else if c == '[' {
            let ghost before = out@;
            let ghost before_key = key@;
            push_key_step(&mut out, &key);
            key = Vec::new();
            out.push('/');
            let mut j = i + 1;
            while j < s.len() && s[j] != ']'
                invariant
                    i + 1 <= j <= s@.len(),
                    out@ == before + key_step(before_key) + seq!['/'] + s@.subrange(i + 1, j as int),
                    forall|k: int| i + 1 <= k < j ==> s@[k] != ']',
                decreases s@.len() - j,
            {
                out.push(s[j]);
                j = j + 1;
            }
            proof {
                lemma_find_char_from(s@, ']', i + 1);
                assert(bracket_end(s@, i + 1) == j);
                assert(pointer_walk(s@, i as int, before_key) == key_step(before_key) + seq!['/']
                    + s@.subrange(i + 1, j as int) + pointer_walk(s@, j + 1, seq![]));
            }
            let ghost old_i = i;
            i = if j < s.len() {
                j + 1
            } else {
                j
            };
            assert(pointer_walk(s@, i as int, key@) == pointer_walk(s@, j + 1, seq![]));
            assert(out@ + pointer_walk(s@, i as int, key@) =~= before + pointer_walk(
                s@,
                old_i as int,
                before_key,
            ));
        } else {
            let ghost before_key = key@;
            key.push(c);
            assert(key@ == before_key.push(s@[i as int]));
            i = i + 1;
        }
    }
    push_key_step(&mut out, &key);
    assert(out@ =~= id_pointer(id@));
    string_of(&out)
}

// ---------------------------------------------------------------------------
// From pointers to segments
// ---------------------------------------------------------------------------
/// `s.split(c)`: the pieces between the occurrences of `c`.
pub open spec fn split_on(s: Seq<char>, c: char) -> Seq<Seq<char>>
    decreases s.len(),
{
    match find_char(s, c) {
        Some(p) => {
            proof {
                lemma_find_char_from(s, c, 0);
            }
            seq![s.subrange(0, p)] + split_on(s.subrange(p + 1, s.len() as int), c)
        },
        None => seq![s],
    }
}

/// A pointer segment with its escapes undone: `"~1"` first, then `"~0"`.
pub open spec fn unescaped(seg: Seq<char>) -> Seq<char> {
    replace_pair(replace_pair(seg, '~', '1', '/'), '~', '0', '~')
}

/// The segments of a pointer: the pieces after the first `/`, unescaped.
pub open spec fn segments(pointer: Seq<char>) -> Seq<Seq<char>> {
    split_on(pointer, '/').drop_first().map_values(|seg: Seq<char>| unescaped(seg))
}

pub open spec fn vecs_view(v: Seq<Vec<char>>) -> Seq<Seq<char>> {
    v.map_values(|x: Vec<char>| x@)
}

/// The segments of `pointer`, as char vectors.
fn segments_of(pointer: &Vec<char>) -> (r: Vec<Vec<char>>)
    ensures
        vecs_view(r@) == segments(pointer@),
{
    // pieces of the split, the first one dropped
    let mut pieces: Vec<Vec<char>> = Vec::new();
    let mut cur: Vec<char> = Vec::new();
    let mut first = true;
    let mut start: usize = 0;
    let mut i: usize = 0;
    let ghost all = split_on(pointer@, '/');
    assert(pointer@.subrange(0, pointer@.len() as int) =~= pointer@);
    assert(seq![] + all =~= all);
    while i < pointer.len()
        invariant
            start <= i <= pointer@.len(),
            all == split_on(pointer@, '/'),
            cur@ == pointer@.subrange(start as int, i as int),
            forall|k: int| start <= k < i ==> pointer@[k] != '/',
            first ==> start == 0 && pieces@.len() == 0,
            (if first {
                seq![]
            } else {
                vecs_view(pieces@)
            }) + split_on(pointer@.subrange(start as int, pointer@.len() as int), '/')
                == if first {
                all
            } else {
                all.drop_first()
            },
            !first ==> all.len() > 0,
        decreases pointer@.len() - i,
    {
        if pointer[i] == '/' {
            let ghost rest = pointer@.subrange(start as int, pointer@.len() as int);
            proof {
                lemma_find_char_from(rest, '/', 0);
                assert(rest[i - start] == '/');
                assert forall|k: int| 0 <= k < i - start implies rest[k] != '/' by {
                    assert(rest[k] == pointer@[start + k]);
                }
                assert(find_char(rest, '/') == Some((i - start) as int));
                assert(rest.subrange(0, i - start) =~= cur@);
                assert(rest.subrange(i - start + 1, rest.len() as int) =~= pointer@.subrange(
                    i + 1,
                    pointer@.len() as int,
                ));
            }
            let ghost old_pieces = vecs_view(pieces@);
            if first {
                first = false;
                proof {
                    assert(all == seq![cur@] + split_on(
                        pointer@.subrange(i + 1, pointer@.len() as int),
                        '/',
                    ));
                    assert(all.drop_first() =~= split_on(
                        pointer@.subrange(i + 1, pointer@.len() as int),
                        '/',
                    ));
                }
                assert(vecs_view(pieces@) =~= seq![]);
            } else {
                let piece = cur;
                pieces.push(piece);
                assert(vecs_view(pieces@) =~= old_pieces.push(
                    pointer@.subrange(start as int, i as int),
                ));
                assert(vecs_view(pieces@) + split_on(
                    pointer@.subrange(i + 1, pointer@.len() as int),
                    '/',
                ) =~= old_pieces + split_on(rest, '/'));
            }
            cur = Vec::new();
            start = i + 1;
        } else {
            cur.push(pointer[i]);
        }
        i = i + 1;
    }
    let ghost rest = pointer@.subrange(start as int, pointer@.len() as int);
    proof {
        lemma_find_char_from(rest, '/', 0);
        assert forall|k: int| 0 <= k < rest.len() implies rest[k] != '/' by {
            assert(rest[k] == pointer@[start + k]);
        }
        assert(split_on(rest, '/') == seq![rest]);
        assert(cur@ =~= rest);
    }
    if !first {
        pieces.push(cur);
    }
    // undo the escapes
    let mut out: Vec<Vec<char>> = Vec::new();
    let mut k: usize = 0;
    let ghost segs = segments(pointer@);
    assert(vecs_view(pieces@) =~= all.drop_first());
    while k < pieces.len()
        invariant
            k <= pieces@.len(),
            vecs_view(pieces@) == all.drop_first(),
            all == split_on(pointer@, '/'),
            segs == segments(pointer@),
            vecs_view(out@) == segs.take(k as int),
        decreases pieces@.len() - k,
    {
        let t = replace_pair_of(&pieces[k], '~', '1', '/');
        let u = replace_pair_of(&t, '~', '0', '~');
        let ghost before = vecs_view(out@);
        out.push(u);
        assert(vecs_view(pieces@)[k as int] == pieces@[k as int]@);
        assert(segs[k as int] == unescaped(all.drop_first()[k as int]));
        assert(u@ == segs[k as int]);
        assert(vecs_view(out@) =~= before.push(u@));
        assert(segs.take(k + 1) =~= segs.take(k as int).push(segs[k as int]));
        k = k + 1;
    }
    assert(vecs_view(out@) =~= segs);
    out
}

/// `pointer.split('/').skip(1)` with `"~1"` and then `"~0"` unescaped in
/// each segment.
pub fn pointer_segments(pointer: &str) -> (r: Vec<String>)
    ensures
        r@.len() == segments(pointer@).len(),
        forall|k: int| 0 <= k < r@.len() ==> #[trigger] r@[k]@ == segments(pointer@)[k],
{
    let cs = chars_of(pointer);
    let segs = segments_of(&cs);
    let mut out: Vec<String> = Vec::new();
    let mut k: usize = 0;
    while k < segs.len()
        invariant
            k <= segs@.len(),
            vecs_view(segs@) == segments(pointer@),
            out@.len() == k,
            forall|j: int| 0 <= j < k ==> #[trigger] out@[j]@ == segments(pointer@)[j],
        decreases segs@.len() - k,
    {
        out.push(string_of(&segs[k]));
        assert(vecs_view(segs@)[k as int] == segs@[k as int]@);
        k = k + 1;
    }
    out
}

// ---------------------------------------------------------------------------
// Following a pointer
// ---------------------------------------------------------------------------
pub open spec fn is_digit(c: char) -> bool {
    '0' <= c <= '9'
}

pub open spec fn all_digits(s: Seq<char>) -> bool {
    s.len() > 0 && forall|i: int| 0 <= i < s.len() ==> is_digit(#[trigger] s[i])
}

/// The number that the decimal digits `s` write.
pub open spec fn digits_value(s: Seq<char>) -> nat
    decreases s.len(),
{
    if s.len() == 0 {
        0
    } else {
        digits_value(s.drop_last()) * 10 + (s.last() as int - 48) as nat
    }
}

/// An array index read from a segment.  Leniently (as `usize::from_str`
/// reads it) a `+` may come first and leading zeros are allowed; strictly (as
/// a JSON pointer index) neither is.  A number too large for the machine is no
/// index, and no array is that long, so it is left to the bound check.
pub open spec fn parse_index(seg: Seq<char>, strict: bool) -> Option<nat> {
    if strict {
        if all_digits(seg) && (seg[0] != '0' || seg.len() == 1) {
            Some(digits_value(seg))
        } else {
            None
        }
    } else {
        let d = if seg.len() > 0 && seg[0] == '+' {
            seg.drop_first()
        } else {
            seg
        };
        if all_digits(d) {
            Some(digits_value(d))
        } else {
            None
        }
    }
}

/// The first entry at or after `i` whose key is `key`.
pub open spec fn key_index(es: Seq<(Seq<char>, JsonValue)>, key: Seq<char>, i: int) -> Option<int>
    decreases es.len() - i,
{
    if i < 0 || i >= es.len() {
        None
    } else if es[i].0 == key {
        Some(i)
    } else {
        key_index(es, key, i + 1)
    }
}

/// Where the segment `seg` leads inside `v`: the first entry of an object with
/// that key, or the item of an array at that index.
pub open spec fn child_slot(v: JsonValue, seg: Seq<char>, strict: bool) -> Option<int> {
    match v {
        JsonValue::Object(es) => key_index(es, seg, 0),
        JsonValue::Array(items) => match parse_index(seg, strict) {
            Some(n) => if n < items.len() {
                Some(n as int)
            } else {
                None
            },
            None => None,
        },
        _ => None,
    }
}

pub open spec fn child(v: JsonValue, k: int) -> JsonValue {
    match v {
        JsonValue::Object(es) => es[k].1,
        JsonValue::Array(items) => items[k],
        _ => v,
    }
}

pub open spec fn with_child(v: JsonValue, k: int, c: JsonValue) -> JsonValue {
    match v {
        JsonValue::Object(es) => JsonValue::Object(es.update(k, (es[k].0, c))),
        JsonValue::Array(items) => JsonValue::Array(items.update(k, c)),
        _ => v,
    }
}

/// The value that the segments lead to, if they lead anywhere.
pub open spec fn locate(v: JsonValue, segs: Seq<Seq<char>>, strict: bool) -> Option<JsonValue>
    decreases segs.len(),
{
    if segs.len() == 0 {
        Some(v)
    } else {
        match child_slot(v, segs[0], strict) {
            Some(k) => locate(child(v, k), segs.drop_first(), strict),
            None => None,
        }
    }
}

/// `v` with the string that the segments lead to replaced by `text`.  A path
/// that leads nowhere, or to something other than a string, changes nothing.
pub open spec fn replace_at(v: JsonValue, segs: Seq<Seq<char>>, text: Seq<char>, strict: bool) -> JsonValue
    decreases segs.len(),
{
    if segs.len() == 0 {
        match v {
            JsonValue::Str(_) => JsonValue::Str(text),
            _ => v,
        }
    } else {
        match child_slot(v, segs[0], strict) {
            Some(k) => with_child(v, k, replace_at(child(v, k), segs.drop_first(), text, strict)),
            None => v,
        }
    }
}

proof fn lemma_digits_value_grows(s: Seq<char>, n: int)
    requires
        0 <= n <= s.len(),
        forall|i: int| 0 <= i < s.len() ==> is_digit(#[trigger] s[i]),
    ensures
        digits_value(s.take(n)) <= digits_value(s),
    decreases s.len() - n,
{
    if n < s.len() {
        lemma_digits_value_grows(s, n + 1);
        assert(s.take(n + 1).drop_last() =~= s.take(n));
    } else {
        assert(s.take(n) =~= s);
    }
}

/// The index that `seg` names in an array of `len` items, if any.
fn index_in(seg: &Vec<char>, strict: bool, len: usize) -> (r: Option<usize>)
    ensures
        r == match parse_index(seg@, strict) {
            Some(n) => if n < len {
                Some(n as usize)
            } else {
                None::<usize>
            },
            None => None::<usize>,
        },
{
    let mut from: usize = 0;
    if seg.len() == 0 || len == 0 {
        return None;
    }
    if seg[0] == '+' {
        if strict {
            return None;
        }
        from = 1;
    }
    if strict && seg[0] == '0' && seg.len() != 1 {
        return None;
    }
    let ghost d = seg@.subrange(from as int, seg@.len() as int);
    assert(strict ==> d =~= seg@);
    assert(!strict ==> d =~= (if seg@.len() > 0 && seg@[0] == '+' {
        seg@.drop_first()
    } else {
        seg@
    }));
    if from >= seg.len() {
        return None;
    }
    assert(parse_index(seg@, strict) == if all_digits(d) {
        Some(digits_value(d))
    } else {
        None::<nat>
    });
    // every char must be a digit
    let mut i = from;
    while i < seg.len()
        invariant
            from <= i <= seg@.len(),
            d == seg@.subrange(from as int, seg@.len() as int),
            parse_index(seg@, strict) == if all_digits(d) {
                Some(digits_value(d))
            } else {
                None::<nat>
            },
            forall|k: int| from <= k < i ==> is_digit(#[trigger] seg@[k]),
        decreases seg@.len() - i,
    {
        if !('0' <= seg[i] && seg[i] <= '9') {
            assert(!is_digit(d[i - from]));
            return None;
        }
        i = i + 1;
    }
    assert(all_digits(d)) by {
        assert forall|k: int| 0 <= k < d.len() implies is_digit(#[trigger] d[k]) by {
            assert(d[k] == seg@[from + k]);
        }
    }
    // the value, given up once it reaches `len`
    let mut v: usize = 0;
    let mut j = from;
    while j < seg.len()
        invariant
            from <= j <= seg@.len(),
            d == seg@.subrange(from as int, seg@.len() as int),
            all_digits(d),
            parse_index(seg@, strict) == Some(digits_value(d)),
            v == digits_value(d.take(j - from)),
            v < len,
        decreases seg@.len() - j,
    {
        assert(d[j - from] == seg@[j as int]);
        assert(is_digit(d[j - from]));
        let digit: u128 = (seg[j] as u32 - 48) as u128;
        assert(d.take(j - from + 1).drop_last() =~= d.take(j - from));
        assert(d.take(j - from + 1).last() == seg@[j as int]);
        let nv: u128 = v as u128 * 10 + digit;
        assert(nv == digits_value(d.take(j - from + 1)));
        if nv >= len as u128 {
            proof {
                lemma_digits_value_grows(d, j - from + 1);
            }
            return None;
        }
        v = nv as usize;
        j = j + 1;
    }
    assert(d.take(d.len() as int) =~= d);
    Some(v)
}

pub proof fn lemma_key_index(es: Seq<(Seq<char>, JsonValue)>, key: Seq<char>, i: int)
    requires
        0 <= i,
    ensures
        match key_index(es, key, i) {
            Some(k) => i <= k < es.len() && es[k].0 == key && forall|j: int|
                i <= j < k ==> (#[trigger] es[j]).0 != key,
            None => forall|j: int| i <= j < es.len() ==> (#[trigger] es[j]).0 != key,
        },
    decreases es.len() - i,
{
    if i < es.len() && es[i].0 != key {
        lemma_key_index(es, key, i + 1);
    }
}

/// The position of the first entry with key `key`.
pub(crate) fn key_position(es: &Vec<(String, JsonNode)>, key: &Vec<char>) -> (r: Option<usize>)
    ensures
        match r {
            Some(k) => key_index(entries_view(es@, es@.len()), key@, 0) == Some(k as int),
            None => key_index(entries_view(es@, es@.len()), key@, 0) is None,
        },
{
    let ghost ev = entries_view(es@, es@.len());
    proof {
        lemma_entries_view(es@, es@.len());
    }
    let mut i: usize = 0;
    while i < es.len()
        invariant
            i <= es@.len(),
            ev == entries_view(es@, es@.len()),
            ev.len() == es@.len(),
            forall|j: int| 0 <= j < es@.len() ==> #[trigger] ev[j] == (es@[j].0@, node_view(es@[j].1)),
            key_index(ev, key@, 0) == key_index(ev, key@, i as int),
        decreases es@.len() - i,
    {
        let kc = chars_of(es[i].0.as_str());
        assert(ev[i as int].0 == kc@);
        if chars_eq(&kc, key) {
            return Some(i);
        }
        i = i + 1;
    }
    None
}

pub(crate) proof fn lemma_entries_view_update(s: Seq<(String, JsonNode)>, k: int, e: (String, JsonNode))
    requires
        0 <= k < s.len(),
    ensures
        entries_view(s.update(k, e), s.len()) == entries_view(s, s.len()).update(
            k,
            (e.0@, node_view(e.1)),
        ),
{
    lemma_entries_view(s, s.len());
    lemma_entries_view(s.update(k, e), s.len());
    assert(entries_view(s.update(k, e), s.len()) =~= entries_view(s, s.len()).update(
        k,
        (e.0@, node_view(e.1)),
    ));
}

proof fn lemma_items_view_update(s: Seq<JsonNode>, k: int, e: JsonNode)
    requires
        0 <= k < s.len(),
    ensures
        items_view(s.update(k, e), s.len()) == items_view(s, s.len()).update(k, node_view(e)),
{
    lemma_items_view(s, s.len());
    lemma_items_view(s.update(k, e), s.len());
    assert(items_view(s.update(k, e), s.len()) =~= items_view(s, s.len()).update(
        k,
        node_view(e),
    ));
}

/// Replaces the string that `segs[i..]` leads to; tells whether the path led
/// anywhere.
fn set_path(node: &mut JsonNode, segs: &Vec<Vec<char>>, i: usize, text: &String, strict: bool) -> (found: bool)
    requires
        i <= segs@.len(),
    ensures
        found == (locate(old(node)@, vecs_view(segs@).skip(i as int), strict) is Some),
        final(node)@ == replace_at(old(node)@, vecs_view(segs@).skip(i as int), text@, strict),
    decreases segs@.len() - i,
{
    let ghost rest = vecs_view(segs@).skip(i as int);
    if i == segs.len() {
        assert(rest =~= Seq::<Seq<char>>::empty());
        let is_str = match node {
            JsonNode::Str(_) => true,
            _ => false,
        };
        if is_str {
            *node = JsonNode::Str(text.clone());
        }
        return true;
    }
    let seg = &segs[i];
    assert(rest[0] == seg@);
    assert(rest.drop_first() =~= vecs_view(segs@).skip(i + 1));
    let ghost old_view = node@;
    match node {
        JsonNode::Object(es) => {
            proof {
                lemma_entries_view(es@, es@.len());
            }
            match key_position(es, seg) {
                Some(k) => {
                    let ghost old_es = es@;
                    let ghost ev = entries_view(es@, es@.len());
                    proof {
                        lemma_key_index(ev, seg@, 0);
                    }
                    assert(child(old_view, k as int) == node_view(old_es[k as int].1));
                    let entry = &mut es[k];
                    let found = set_path(&mut entry.1, segs, i + 1, text, strict);
                    proof {
                        lemma_entries_view_update(old_es, k as int, *entry);
                        assert(ev[k as int].0 == old_es[k as int].0@);
                    }
                    found
                },
                None => false,
            }
        },
        JsonNode::Array(items) => {
            proof {
                lemma_items_view(items@, items@.len());
            }
            match index_in(seg, strict, items.len()) {
                Some(k) => {
                    let ghost old_items = items@;
                    assert(child(old_view, k as int) == node_view(old_items[k as int]));
                    let found = set_path(&mut items[k], segs, i + 1, text, strict);
                    proof {
                        lemma_items_view_update(old_items, k as int, items@[k as int]);
                        assert(items@ == old_items.update(k as int, items@[k as int]));
                    }
                    found
                },
                None => false,
            }
        },
        _ => false,
    }
}

// ---------------------------------------------------------------------------
// Applying translations
// ---------------------------------------------------------------------------
/// Entry `k` is the last one with its id; as in a map built from the list,
/// only that one counts.
pub open spec fn last_with_id(ts: Seq<TranslatedString>, k: int) -> bool {
    forall|j: int| k < j < ts.len() ==> (#[trigger] ts[j]).id@ != ts[k].id@
}

/// The segments that a translation's id leads to.
pub open spec fn id_segments(id: Seq<char>) -> Seq<Seq<char>> {
    segments(id_pointer(id))
}

/// `v` after the first `n` translations, each applied at its pointer.
pub open spec fn applied(v: JsonValue, ts: Seq<TranslatedString>, n: nat, strict: bool) -> JsonValue
    decreases n,
{
    if n == 0 || n > ts.len() {
        v
    } else {
        let w = applied(v, ts, (n - 1) as nat, strict);
        if last_with_id(ts, n - 1) {
            replace_at(w, id_segments(ts[n - 1].id@), ts[n - 1].translated_text@, strict)
        } else {
            w
        }
    }
}

/// The ids among the first `n` translations whose pointers lead nowhere.
pub open spec fn unmatched(v: JsonValue, ts: Seq<TranslatedString>, n: nat, strict: bool) -> Seq<Seq<char>>
    decreases n,
{
    if n == 0 || n > ts.len() {
        seq![]
    } else {
        unmatched(v, ts, (n - 1) as nat, strict) + if last_with_id(ts, n - 1) && locate(
            applied(v, ts, (n - 1) as nat, strict),
            id_segments(ts[n - 1].id@),
            strict,
        ) is None {
            seq![ts[n - 1].id@]
        } else {
            seq![]
        }
    }
}

fn is_last_with_id(ts: &[TranslatedString], k: usize) -> (r: bool)
    requires
        k < ts@.len(),
    ensures
        r == last_with_id(ts@, k as int),
{
    let n = ts.len();
    assert(k < n);
    let mut j = k + 1;
    while j < n
        invariant
            k < j <= ts@.len(),
            n == ts@.len(),
            forall|i: int| k < i < j ==> (#[trigger] ts@[i]).id@ != ts@[k as int].id@,
        decreases ts@.len() - j,
    {
        if ts[j].id == ts[k].id {
            return false;
        }
        j = j + 1;
    }
    true
}

/// The strings are, one by one, the given ids.
pub open spec fn ids_are(ms: Seq<String>, ids: Seq<Seq<char>>) -> bool {
    ms.len() == ids.len() && forall|k: int| 0 <= k < ms.len() ==> (#[trigger] ms[k])@ == ids[k]
}

/// Applies the translations to `root` in order, each at the string that its
/// id's pointer leads to (the last translation given for an id counts), and
/// returns the ids whose pointers lead nowhere.  `strict` reads array indices
/// as JSON pointers do; otherwise a `+` and leading zeros are allowed.
pub fn apply_translations(root: &mut JsonNode, translations: &[TranslatedString], strict: bool) -> (missing: Vec<String>)
    ensures
        final(root)@ == applied(old(root)@, translations@, translations@.len(), strict),
        missing@.len() == unmatched(old(root)@, translations@, translations@.len(), strict).len(),
        forall|k: int|
            0 <= k < missing@.len() ==> (#[trigger] missing@[k])@ == unmatched(
                old(root)@,
                translations@,
                translations@.len(),
                strict,
            )[k],
{
    let ghost v0 = root@;
    let mut missing: Vec<String> = Vec::new();
    let mut k: usize = 0;
    while k < translations.len()
        invariant
            k <= translations@.len(),
            root@ == applied(v0, translations@, k as nat, strict),
            missing@.len() == unmatched(v0, translations@, k as nat, strict).len(),
            forall|j: int|
                0 <= j < missing@.len() ==> (#[trigger] missing@[j])@ == unmatched(
                    v0,
                    translations@,
                    k as nat,
                    strict,
                )[j],
        decreases translations@.len() - k,
    {
        let t = &translations[k];
        if is_last_with_id(translations, k) {
            let pointer = id_to_pointer(t.id.as_str());
            let pc = chars_of(pointer.as_str());
            let segs = segments_of(&pc);
            assert(vecs_view(segs@).skip(0) =~= id_segments(t.id@));
            let found = set_path(root, &segs, 0, &t.translated_text, strict);
            if !found {
                missing.push(t.id.clone());
            }
        }
        k = k + 1;
    }
    missing
}

/// The string leaves of `root` as translatable strings: ids under `prefix`,
/// every one with `context`.
pub fn tree_strings(root: &JsonNode, prefix: &str, context: &str, trim: bool) -> (r: Vec<
    TranslatableString,
>)
    ensures
        strings_match(r@, value_strings(root@, prefix@, trim), context@),
{
    let mut out: Vec<(Vec<char>, Vec<char>)> = Vec::new();
    let p = chars_of(prefix);
    collect_strings(root, &p, trim, &mut out);
    assert(pairs_view(out@) =~= value_strings(root@, prefix@, trim));
    to_translatables(&out, context)
}

// ---------------------------------------------------------------------------
// Laws
// ---------------------------------------------------------------------------
proof fn lemma_replace_unlocated(v: JsonValue, segs: Seq<Seq<char>>, text: Seq<char>, strict: bool)
    requires
        locate(v, segs, strict) is None,
    ensures
        replace_at(v, segs, text, strict) == v,
    decreases segs.len(),
{
    if segs.len() > 0 {
        match child_slot(v, segs[0], strict) {
            Some(k) => {
                lemma_replace_unlocated(child(v, k), segs.drop_first(), text, strict);
                match v {
                    JsonValue::Object(es) => {
                        lemma_key_index(es, segs[0], 0);
                        assert(es.update(k, (es[k].0, es[k].1)) =~= es);
                    },
                    JsonValue::Array(items) => {
                        assert(items.update(k, items[k]) =~= items);
                    },
                    _ => {},
                }
            },
            None => {},
        }
    }
}

/// Translations whose ids lead nowhere in the document leave it as it was,
/// and each of them (the last one given for an id) is reported.
pub proof fn law_tree_unmatched_translations_change_nothing(
    v: JsonValue,
    ts: Seq<TranslatedString>,
    n: nat,
    strict: bool,
)
    requires
        n <= ts.len(),
        forall|k: int| 0 <= k < ts.len() ==> locate(v, id_segments((#[trigger] ts[k]).id@), strict) is None,
    ensures
        applied(v, ts, n, strict) == v,
        unmatched(v, ts, n, strict) == last_ids(ts, n),
    decreases n,
{
    if n > 0 {
        law_tree_unmatched_translations_change_nothing(v, ts, (n - 1) as nat, strict);
        if last_with_id(ts, n - 1) {
            lemma_replace_unlocated(
                v,
                id_segments(ts[n - 1].id@),
                ts[n - 1].translated_text@,
                strict,
            );
        }
    }
}

/// The ids of the first `n` translations that are the last with their id.
pub open spec fn last_ids(ts: Seq<TranslatedString>, n: nat) -> Seq<Seq<char>>
    decreases n,
{
    if n == 0 || n > ts.len() {
        seq![]
    } else {
        last_ids(ts, (n - 1) as nat) + if last_with_id(ts, n - 1) {
            seq![ts[n - 1].id@]
        } else {
            seq![]
        }
    }
}

// ---------------------------------------------------------------------------
// Round trip: the id of an extracted string leads back to it
// ---------------------------------------------------------------------------
/// A step into a document: by key or by index.
pub enum Step {
    Key(Seq<char>),
    Index(nat),
}

/// How a step is written in an id.
pub open spec fn step_id(st: Step) -> Seq<char> {
    match st {
        Step::Key(k) => seq!['.'] + k,
        Step::Index(i) => seq!['['] + decimal(i) + seq![']'],
    }
}

pub open spec fn steps_id(sts: Seq<Step>) -> Seq<char>
    decreases sts.len(),
{
    if sts.len() == 0 {
        seq![]
    } else {
        step_id(sts[0]) + steps_id(sts.drop_first())
    }
}

/// The pointer segment of a step.
pub open spec fn step_seg(st: Step) -> Seq<char> {
    match st {
        Step::Key(k) => k,
        Step::Index(i) => decimal(i),
    }
}

pub open spec fn steps_segs(sts: Seq<Step>) -> Seq<Seq<char>> {
    sts.map_values(|st: Step| step_seg(st))
}

/// A key that an id can carry: not empty, without `.`, `[` or `]`.
pub open spec fn plain_key(k: Seq<char>) -> bool {
    k.len() > 0 && forall|i: int| 0 <= i < k.len() ==> #[trigger] k[i] != '.' && k[i] != '[' && k[i] != ']'
}

/// Every key of the document is plain and no object has a key twice.
pub open spec fn plain_tree(v: JsonValue) -> bool
    decreases v,
{
    match v {
        JsonValue::Array(items) => forall|i: int| 0 <= i < items.len() ==> plain_tree(#[trigger] items[i]),
        JsonValue::Object(es) => {
            &&& forall|i: int| 0 <= i < es.len() ==> plain_key(#[trigger] es[i].0) && plain_tree(es[i].1)
            &&& forall|i: int, j: int| 0 <= i < j < es.len() ==> (#[trigger] es[i]).0 != (#[trigger] es[j]).0
        },
        _ => true,
    }
}

pub open spec fn steps_plain(sts: Seq<Step>) -> bool {
    forall|i: int| 0 <= i < sts.len() ==> (#[trigger] sts[i] matches Step::Key(k) ==> plain_key(k))
}

pub(crate) proof fn lemma_decimal_digits(n: nat)
    ensures
        all_digits(decimal(n)),
        n >= 1 ==> decimal(n)[0] != '0',
        decimal(n)[0] != '0' || decimal(n).len() == 1,
        digits_value(decimal(n)) == n,
        decimal(n).len() >= 1,
        forall|i: int| 0 <= i < decimal(n).len() ==> #[trigger] decimal(n)[i] != '.' && decimal(n)[i]
            != '[' && decimal(n)[i] != ']' && decimal(n)[i] != '/' && decimal(n)[i] != '~',
    decreases n,
{
    let c = crate::text::digit_char(n % 10);
    assert(c as int == n % 10 + 48);
    if n >= 10 {
        lemma_decimal_digits(n / 10);
        let d = decimal(n / 10);
        assert(decimal(n) == d.push(c));
        assert(decimal(n).drop_last() =~= d);
        assert(decimal(n)[0] == d[0]);
        assert(digits_value(decimal(n)) == digits_value(d) * 10 + (c as int - 48) as nat);
    } else {
        assert(decimal(n) =~= seq![c]);
        assert(decimal(n).drop_last() =~= Seq::<char>::empty());
        assert(digits_value(decimal(n)) == digits_value(Seq::<char>::empty()) * 10 + (c as int
            - 48) as nat);
    }
}

proof fn lemma_parse_decimal(i: nat, strict: bool)
    ensures
        parse_index(decimal(i), strict) == Some(i),
{
    lemma_decimal_digits(i);
    let d = decimal(i);
    if !strict {
        assert(d[0] != '+');
    }
}

proof fn lemma_steps_id_cons(st: Step, rest: Seq<Step>)
    ensures
        steps_id(seq![st] + rest) == step_id(st) + steps_id(rest),
        steps_segs(seq![st] + rest) == seq![step_seg(st)] + steps_segs(rest),
{
    assert((seq![st] + rest).drop_first() =~= rest);
    assert(steps_segs(seq![st] + rest) =~= seq![step_seg(st)] + steps_segs(rest));
}

/// Where the `k`-th string of `v`'s extraction lies: the steps to it, written
/// after the prefix in its id.
proof fn lemma_value_path(v: JsonValue, prefix: Seq<char>, trim: bool, strict: bool, k: int) -> (sts: Seq<Step>)
    requires
        plain_tree(v),
        0 <= k < value_strings(v, prefix, trim).len(),
    ensures
        value_strings(v, prefix, trim)[k].0 == prefix + steps_id(sts),
        steps_plain(sts),
        locate(v, steps_segs(sts), strict) matches Some(JsonValue::Str(s)) && leaf_text(s, trim)
            == value_strings(v, prefix, trim)[k].1,
    decreases v, 0nat,
{
    match v {
        JsonValue::Str(s) => {
            assert(steps_id(Seq::<Step>::empty()) =~= Seq::<char>::empty());
            assert(prefix + Seq::<char>::empty() =~= prefix);
            assert(steps_segs(Seq::<Step>::empty()) =~= Seq::<Seq<char>>::empty());
            Seq::<Step>::empty()
        },
        JsonValue::Array(items) => lemma_array_path(items, prefix, trim, strict, items.len(), k),
        JsonValue::Object(es) => lemma_object_path(es, prefix, trim, strict, es.len(), k),
        _ => {
            assert(false);
            Seq::<Step>::empty()
        },
    }
}

proof fn lemma_array_path(
    items: Seq<JsonValue>,
    prefix: Seq<char>,
    trim: bool,
    strict: bool,
    n: nat,
    k: int,
) -> (sts: Seq<Step>)
    requires
        n <= items.len(),
        forall|i: int| 0 <= i < items.len() ==> plain_tree(#[trigger] items[i]),
        0 <= k < array_strings(items, prefix, trim, n).len(),
    ensures
        array_strings(items, prefix, trim, n)[k].0 == prefix + steps_id(sts),
        steps_plain(sts),
        locate(JsonValue::Array(items), steps_segs(sts), strict) matches Some(JsonValue::Str(s))
            && leaf_text(s, trim) == array_strings(items, prefix, trim, n)[k].1,
        sts.len() > 0,
        sts[0] matches Step::Index(i) && i < n && (k >= array_strings(
            items,
            prefix,
            trim,
            (n - 1) as nat,
        ).len() ==> i == n - 1),
    decreases items, n,
{
    let prev = array_strings(items, prefix, trim, (n - 1) as nat);
    if k < prev.len() {
        lemma_array_path(items, prefix, trim, strict, (n - 1) as nat, k)
    } else {
        let i = (n - 1) as nat;
        let sub = lemma_value_path(items[n - 1], index_path(prefix, i), trim, strict, k - prev.len());
        let sts = seq![Step::Index(i)] + sub;
        lemma_steps_id_cons(Step::Index(i), sub);
        assert(index_path(prefix, i) + steps_id(sub) =~= prefix + steps_id(sts));
        lemma_parse_decimal(i, strict);
        assert(steps_segs(sts)[0] == decimal(i));
        assert(steps_segs(sts).drop_first() =~= steps_segs(sub));
        assert(child_slot(JsonValue::Array(items), decimal(i), strict) == Some(i as int));
        assert(steps_plain(sts)) by {
            assert forall|j: int| 0 <= j < sts.len() implies (#[trigger] sts[j] matches Step::Key(k)
                ==> plain_key(k)) by {
                if j > 0 {
                    assert(sts[j] == sub[j - 1]);
                }
            }
        }
        sts
    }
}

proof fn lemma_object_path(
    es: Seq<(Seq<char>, JsonValue)>,
    prefix: Seq<char>,
    trim: bool,
    strict: bool,
    n: nat,
    k: int,
) -> (sts: Seq<Step>)
    requires
        n <= es.len(),
        forall|i: int| 0 <= i < es.len() ==> plain_key(#[trigger] es[i].0) && plain_tree(es[i].1),
        forall|i: int, j: int| 0 <= i < j < es.len() ==> (#[trigger] es[i]).0 != (#[trigger] es[j]).0,
        0 <= k < object_strings(es, prefix, trim, n).len(),
    ensures
        object_strings(es, prefix, trim, n)[k].0 == prefix + steps_id(sts),
        steps_plain(sts),
        sts.len() > 0 && sts[0] is Key,
        locate(JsonValue::Object(es), steps_segs(sts), strict) matches Some(JsonValue::Str(s))
            && leaf_text(s, trim) == object_strings(es, prefix, trim, n)[k].1,
        sts[0] matches Step::Key(x) && key_index(es, x, 0) matches Some(q) && q < n && (k
            >= object_strings(es, prefix, trim, (n - 1) as nat).len() ==> q == n - 1),
    decreases es, n,
{
    let prev = object_strings(es, prefix, trim, (n - 1) as nat);
    if k < prev.len() {
        lemma_object_path(es, prefix, trim, strict, (n - 1) as nat, k)
    } else {
        let key = es[n - 1].0;
        assert(!hidden_key(key));
        let sub = lemma_value_path(es[n - 1].1, key_path(prefix, key), trim, strict, k - prev.len());
        let sts = seq![Step::Key(key)] + sub;
        lemma_steps_id_cons(Step::Key(key), sub);
        assert(key_path(prefix, key) + steps_id(sub) =~= prefix + steps_id(sts));
        assert(steps_segs(sts)[0] == key);
        assert(steps_segs(sts).drop_first() =~= steps_segs(sub));
        lemma_key_index(es, key, 0);
        assert(key_index(es, key, 0) == Some(n - 1)) by {
            match key_index(es, key, 0) {
                Some(q) => {
                    if q < n - 1 {
                        assert(es[q].0 != es[n - 1].0);
                    } else if q > n - 1 {
                        assert(es[n - 1].0 != key);
                    }
                },
                None => {
                    assert(es[n - 1].0 != key);
                },
            }
        }
        assert(steps_plain(sts)) by {
            assert forall|j: int| 0 <= j < sts.len() implies (#[trigger] sts[j] matches Step::Key(x)
                ==> plain_key(x)) by {
                if j > 0 {
                    assert(sts[j] == sub[j - 1]);
                }
            }
        }
        sts
    }
}

// ---------------------------------------------------------------------------
// Round trip: from ids to pointers
// ---------------------------------------------------------------------------
/// How a step is written in a pointer.
pub open spec fn step_pointer(st: Step) -> Seq<char> {
    match st {
        Step::Key(k) => seq!['/'] + escaped(k),
        Step::Index(i) => seq!['/'] + decimal(i),
    }
}

pub open spec fn steps_pointer(sts: Seq<Step>) -> Seq<char>
    decreases sts.len(),
{
    if sts.len() == 0 {
        seq![]
    } else {
        step_pointer(sts[0]) + steps_pointer(sts.drop_first())
    }
}

/// Chars other than `.` and `[` are added to the current key.
proof fn lemma_walk_key(s: Seq<char>, i: int, key: Seq<char>, m: int)
    requires
        0 <= i,
        0 <= m,
        i + m <= s.len(),
        forall|j: int| i <= j < i + m ==> #[trigger] s[j] != '.' && s[j] != '[',
    ensures
        pointer_walk(s, i, key) == pointer_walk(s, i + m, key + s.subrange(i, i + m)),
    decreases m,
{
    if m > 0 {
        lemma_walk_key(s, i + 1, key.push(s[i]), m - 1);
        assert(key.push(s[i]) + s.subrange(i + 1, i + m) =~= key + s.subrange(i, i + m));
    } else {
        assert(key + s.subrange(i, i) =~= key);
    }
}

proof fn lemma_walk_steps(x: Seq<char>, sts: Seq<Step>, key: Seq<char>)
    requires
        steps_plain(sts),
    ensures
        pointer_walk(x + steps_id(sts), x.len() as int, key) == key_step(key) + steps_pointer(sts),
    decreases sts.len(),
{
    let s = x + steps_id(sts);
    if sts.len() == 0 {
        assert(s =~= x);
        assert(key_step(key) + seq![] =~= key_step(key));
    } else {
        let rest = sts.drop_first();
        assert(steps_plain(rest)) by {
            assert forall|j: int| 0 <= j < rest.len() implies (#[trigger] rest[j] matches Step::Key(k)
                ==> plain_key(k)) by {
                assert(rest[j] == sts[j + 1]);
            }
        }
        assert(steps_id(sts) == step_id(sts[0]) + steps_id(rest));
        match sts[0] {
            Step::Key(k) => {
                assert(sts[0] matches Step::Key(kk) ==> plain_key(kk));
                let x2 = x + seq!['.'] + k;
                assert(s =~= x2 + steps_id(rest));
                assert(s[x.len() as int] == '.');
                let i1: int = x.len() as int + 1;
                assert forall|j: int| i1 <= j < i1 + k.len() implies #[trigger] s[j] != '.' && s[j]
                    != '[' by {
                    assert(s[j] == k[j - i1]);
                }
                lemma_walk_key(s, i1, seq![], k.len() as int);
                assert(seq![] + s.subrange(i1, i1 + k.len() as int) =~= k);
                lemma_walk_steps(x2, rest, k);
                assert(steps_pointer(sts) == step_pointer(sts[0]) + steps_pointer(rest));
                assert(key_step(k) == seq!['/'] + escaped(k));
                assert(key_step(key) + (seq!['/'] + escaped(k) + steps_pointer(rest)) =~= key_step(
                    key,
                ) + steps_pointer(sts));
            },
            Step::Index(i) => {
                let d = decimal(i);
                lemma_decimal_digits(i);
                let x2 = x + seq!['['] + d + seq![']'];
                assert(s =~= x2 + steps_id(rest));
                let a: int = x.len() as int + 1;
                assert(s[x.len() as int] == '[');
                assert(s[a + d.len() as int] == ']');
                lemma_find_char_from(s, ']', a);
                assert forall|j: int| a <= j < a + d.len() implies s[j] != ']' by {
                    assert(s[j] == d[j - a]);
                }
                assert(bracket_end(s, a) == a + d.len() as int);
                assert(s.subrange(a, a + d.len() as int) =~= d);
                lemma_walk_steps(x2, rest, seq![]);
                assert(x2.len() == a + d.len() + 1);
                assert(key_step(seq![]) =~= Seq::<char>::empty());
                assert(steps_pointer(sts) == step_pointer(sts[0]) + steps_pointer(rest));
                assert(key_step(key) + seq!['/'] + d + (Seq::<char>::empty() + steps_pointer(rest))
                    =~= key_step(key) + steps_pointer(sts));
            },
        }
    }
}

/// The pointer that an extracted id leads to: one step per key or index.
proof fn lemma_id_pointer(prefix: Seq<char>, sts: Seq<Step>)
    requires
        forall|i: int| 0 <= i < prefix.len() ==> #[trigger] prefix[i] != '.',
        steps_plain(sts),
        sts.len() > 0 && sts[0] is Key,
    ensures
        id_pointer(prefix + steps_id(sts)) == steps_pointer(sts),
{
    let id = prefix + steps_id(sts);
    let rest = sts.drop_first();
    assert(steps_plain(rest)) by {
        assert forall|j: int| 0 <= j < rest.len() implies (#[trigger] rest[j] matches Step::Key(k)
            ==> plain_key(k)) by {
            assert(rest[j] == sts[j + 1]);
        }
    }
    let k = sts[0]->Key_0;
    assert(sts[0] matches Step::Key(kk) ==> plain_key(kk));
    assert(steps_id(sts) == seq!['.'] + k + steps_id(rest));
    assert(id[prefix.len() as int] == '.');
    lemma_find_char_from(id, '.', 0);
    assert forall|j: int| 0 <= j < prefix.len() implies id[j] != '.' by {
        assert(id[j] == prefix[j]);
    }
    assert(find_char(id, '.') == Some(prefix.len() as int));
    let inner = id_inner(id);
    assert(inner =~= k + steps_id(rest));
    assert forall|j: int| 0 <= j < k.len() implies #[trigger] inner[j] != '.' && inner[j] != '[' by {
        assert(inner[j] == k[j]);
    }
    lemma_walk_key(inner, 0, seq![], k.len() as int);
    assert(seq![] + inner.subrange(0, k.len() as int) =~= k);
    lemma_walk_steps(k, rest, k);
    assert(steps_pointer(sts) == step_pointer(sts[0]) + steps_pointer(rest));
}

// ---------------------------------------------------------------------------
// Round trip: from pointers to segments
// ---------------------------------------------------------------------------
pub open spec fn step_piece(st: Step) -> Seq<char> {
    match st {
        Step::Key(k) => escaped(k),
        Step::Index(i) => decimal(i),
    }
}

pub open spec fn steps_pieces(sts: Seq<Step>) -> Seq<Seq<char>> {
    sts.map_values(|st: Step| step_piece(st))
}

proof fn lemma_escaped_concat(a: Seq<char>, b: Seq<char>)
    ensures
        escaped(a + b) == escaped(a) + escaped(b),
    decreases b.len(),
{
    if b.len() == 0 {
        assert(a + b =~= a);
        assert(escaped(a) + seq![] =~= escaped(a));
    } else {
        lemma_escaped_concat(a, b.drop_last());
        assert((a + b).drop_last() =~= a + b.drop_last());
        assert((a + b).last() == b.last());
        assert(escaped(a) + escaped(b.drop_last()) + escape_char(b.last()) =~= escaped(a) + (
        escaped(b.drop_last()) + escape_char(b.last())));
    }
}

proof fn lemma_escaped_cons(c: char, t: Seq<char>)
    ensures
        escaped(seq![c] + t) == escape_char(c) + escaped(t),
{
    lemma_escaped_concat(seq![c], t);
    assert(seq![c].drop_last() =~= Seq::<char>::empty());
    assert(escaped(seq![c]) == escaped(Seq::<char>::empty()) + escape_char(c));
    assert(escaped(Seq::<char>::empty()) + escape_char(c) =~= escape_char(c));
}

proof fn lemma_escaped_no_slash(k: Seq<char>)
    ensures
        forall|j: int| 0 <= j < escaped(k).len() ==> #[trigger] escaped(k)[j] != '/',
    decreases k.len(),
{
    if k.len() > 0 {
        lemma_escaped_no_slash(k.drop_last());
        let e = escaped(k.drop_last());
        assert forall|j: int| 0 <= j < escaped(k).len() implies #[trigger] escaped(k)[j] != '/' by {
            if j < e.len() {
                assert(escaped(k)[j] == e[j]);
            }
        }
    }
}

proof fn lemma_split_pointer(sts: Seq<Step>)
    ensures
        split_on(steps_pointer(sts), '/') == seq![Seq::<char>::empty()] + steps_pieces(sts),
    decreases sts.len(),
{
    let p = steps_pointer(sts);
    if sts.len() == 0 {
        assert(p =~= Seq::<char>::empty());
        assert(find_char(p, '/') is None);
        assert(steps_pieces(sts) =~= Seq::<Seq<char>>::empty());
        assert(seq![Seq::<char>::empty()] + steps_pieces(sts) =~= seq![p]);
    } else {
        let rest = sts.drop_first();
        lemma_split_pointer(rest);
        let piece = step_piece(sts[0]);
        let x = steps_pointer(rest);
        assert(p == seq!['/'] + piece + x);
        assert(forall|j: int| 0 <= j < piece.len() ==> #[trigger] piece[j] != '/') by {
            match sts[0] {
                Step::Key(k) => {
                    lemma_escaped_no_slash(k);
                },
                Step::Index(i) => {
                    lemma_decimal_digits(i);
                },
            }
        }
        lemma_find_char_from(p, '/', 0);
        assert(find_char(p, '/') == Some(0int));
        assert(p.subrange(0, 0) =~= Seq::<char>::empty());
        assert(p.subrange(1, p.len() as int) =~= piece + x);
        let q = piece + x;
        lemma_find_char_from(q, '/', 0);
        if rest.len() == 0 {
            assert(x =~= Seq::<char>::empty());
            assert forall|j: int| 0 <= j < q.len() implies q[j] != '/' by {
                assert(q[j] == piece[j]);
            }
            assert(split_on(q, '/') == seq![q]);
            assert(q =~= piece);
            assert(steps_pieces(rest) =~= Seq::<Seq<char>>::empty());
            assert(seq![piece] + steps_pieces(rest) =~= seq![piece]);
        } else {
            assert(x == seq!['/'] + step_piece(rest[0]) + steps_pointer(rest.drop_first()));
            assert(q[piece.len() as int] == '/');
            assert forall|j: int| 0 <= j < piece.len() implies q[j] != '/' by {
                assert(q[j] == piece[j]);
            }
            assert(find_char(q, '/') == Some(piece.len() as int));
            assert(q.subrange(0, piece.len() as int) =~= piece);
            lemma_find_char_from(x, '/', 0);
            assert(find_char(x, '/') == Some(0int));
            assert(q.subrange(piece.len() as int + 1, q.len() as int) =~= x.subrange(1, x.len() as int));
            assert(split_on(x, '/') == seq![x.subrange(0, 0)] + split_on(
                x.subrange(1, x.len() as int),
                '/',
            ));
            assert(x.subrange(0, 0) =~= Seq::<char>::empty());
            let y = split_on(x.subrange(1, x.len() as int), '/');
            assert((seq![Seq::<char>::empty()] + y).drop_first() =~= y);
            assert((seq![Seq::<char>::empty()] + steps_pieces(rest)).drop_first() =~= steps_pieces(
                rest,
            ));
            assert(y == steps_pieces(rest));
            assert(split_on(q, '/') == seq![piece] + y);
        }
        assert(split_on(q, '/') == seq![piece] + steps_pieces(rest));
        assert(split_on(p, '/') == seq![p.subrange(0, 0)] + split_on(
            p.subrange(1, p.len() as int),
            '/',
        ));
        assert(steps_pieces(sts) =~= seq![piece] + steps_pieces(rest));
        assert(split_on(p, '/') =~= seq![Seq::<char>::empty()] + steps_pieces(sts));
    }
}

proof fn lemma_rp_skip(c: char, x: Seq<char>, a: char, b: char, r: char)
    requires
        c != a,
    ensures
        replace_pair(seq![c] + x, a, b, r) == seq![c] + replace_pair(x, a, b, r),
{
    let s = seq![c] + x;
    if s.len() >= 2 {
        assert(s.subrange(1, s.len() as int) =~= x);
    } else {
        assert(x =~= Seq::<char>::empty());
        assert(s =~= seq![c]);
    }
}

proof fn lemma_rp_hit(x: Seq<char>, a: char, b: char, r: char)
    ensures
        replace_pair(seq![a, b] + x, a, b, r) == seq![r] + replace_pair(x, a, b, r),
{
    let s = seq![a, b] + x;
    assert(s.subrange(2, s.len() as int) =~= x);
}

proof fn lemma_rp_miss(d: char, x: Seq<char>, a: char, b: char, r: char)
    requires
        d != b,
        d != a,
    ensures
        replace_pair(seq![a, d] + x, a, b, r) == seq![a, d] + replace_pair(x, a, b, r),
{
    let s = seq![a, d] + x;
    assert(s.subrange(1, s.len() as int) =~= seq![d] + x);
    lemma_rp_skip(d, x, a, b, r);
    assert(seq![a] + (seq![d] + replace_pair(x, a, b, r)) =~= seq![a, d] + replace_pair(x, a, b, r));
}

proof fn lemma_rp_none(s: Seq<char>, a: char, b: char, r: char)
    requires
        forall|j: int| 0 <= j < s.len() ==> #[trigger] s[j] != a,
    ensures
        replace_pair(s, a, b, r) == s,
    decreases s.len(),
{
    if s.len() > 0 {
        let t = s.drop_first();
        lemma_rp_none(t, a, b, r);
        assert(s =~= seq![s[0]] + t);
        lemma_rp_skip(s[0], t, a, b, r);
    }
}

/// A key with only its `~`s escaped.
pub open spec fn tilde_escaped(k: Seq<char>) -> Seq<char>
    decreases k.len(),
{
    if k.len() == 0 {
        seq![]
    } else {
        (if k[0] == '~' {
            seq!['~', '0']
        } else {
            seq![k[0]]
        }) + tilde_escaped(k.drop_first())
    }
}

proof fn lemma_unescape_slashes(k: Seq<char>)
    ensures
        replace_pair(escaped(k), '~', '1', '/') == tilde_escaped(k),
    decreases k.len(),
{
    if k.len() > 0 {
        let c = k[0];
        let t = k.drop_first();
        assert(k =~= seq![c] + t);
        lemma_escaped_cons(c, t);
        lemma_unescape_slashes(t);
        let e = escaped(t);
        if c == '~' {
            assert(escaped(k) =~= seq!['~', '0'] + e);
            lemma_rp_miss('0', e, '~', '1', '/');
        } else if c == '/' {
            assert(escaped(k) =~= seq!['~', '1'] + e);
            lemma_rp_hit(e, '~', '1', '/');
        } else {
            assert(escaped(k) =~= seq![c] + e);
            lemma_rp_skip(c, e, '~', '1', '/');
        }
    } else {
        assert(escaped(k) =~= Seq::<char>::empty());
    }
}

proof fn lemma_unescape_tildes(k: Seq<char>)
    ensures
        replace_pair(tilde_escaped(k), '~', '0', '~') == k,
    decreases k.len(),
{
    if k.len() > 0 {
        let c = k[0];
        let t = k.drop_first();
        lemma_unescape_tildes(t);
        let m = tilde_escaped(t);
        if c == '~' {
            assert(tilde_escaped(k) =~= seq!['~', '0'] + m);
            lemma_rp_hit(m, '~', '0', '~');
        } else {
            assert(tilde_escaped(k) =~= seq![c] + m);
            lemma_rp_skip(c, m, '~', '0', '~');
        }
        assert(k =~= seq![c] + t);
    }
}

/// Escaping a key for a pointer and reading the segment back gives the key.
proof fn lemma_unescape_escaped(k: Seq<char>)
    ensures
        unescaped(escaped(k)) == k,
{
    lemma_unescape_slashes(k);
    lemma_unescape_tildes(k);
}

/// The segments of the pointer written for some steps are the steps.
proof fn lemma_pointer_segments(sts: Seq<Step>)
    ensures
        segments(steps_pointer(sts)) == steps_segs(sts),
{
    lemma_split_pointer(sts);
    let pieces = steps_pieces(sts);
    assert((seq![Seq::<char>::empty()] + pieces).drop_first() =~= pieces);
    assert forall|j: int| 0 <= j < sts.len() implies unescaped(#[trigger] pieces[j]) == step_seg(
        sts[j],
    ) by {
        match sts[j] {
            Step::Key(k) => {
                lemma_unescape_escaped(k);
            },
            Step::Index(i) => {
                lemma_decimal_digits(i);
                let d = decimal(i);
                lemma_rp_none(d, '~', '1', '/');
                lemma_rp_none(d, '~', '0', '~');
            },
        }
    }
    assert(segments(steps_pointer(sts)) =~= steps_segs(sts));
}

// ---------------------------------------------------------------------------
// Round trip: the laws
// ---------------------------------------------------------------------------
/// In a document whose keys are plain, the id of every extracted string
/// leads, through its pointer, back to the string it was read from.
pub proof fn law_tree_ids_lead_back(
    root: JsonValue,
    prefix: Seq<char>,
    trim: bool,
    strict: bool,
    k: int,
)
    requires
        root is Object,
        plain_tree(root),
        forall|i: int| 0 <= i < prefix.len() ==> #[trigger] prefix[i] != '.',
        0 <= k < value_strings(root, prefix, trim).len(),
    ensures
        locate(root, id_segments(value_strings(root, prefix, trim)[k].0), strict) matches Some(
            JsonValue::Str(s),
        ) && leaf_text(s, trim) == value_strings(root, prefix, trim)[k].1,
{
    let es = root->Object_0;
    let sts = lemma_object_path(es, prefix, trim, strict, es.len(), k);
    lemma_id_pointer(prefix, sts);
    lemma_pointer_segments(sts);
}

proof fn lemma_replace_same(v: JsonValue, segs: Seq<Seq<char>>, text: Seq<char>, strict: bool)
    requires
        locate(v, segs, strict) == Some(JsonValue::Str(text)),
    ensures
        replace_at(v, segs, text, strict) == v,
    decreases segs.len(),
{
    if segs.len() > 0 {
        match child_slot(v, segs[0], strict) {
            Some(k) => {
                lemma_replace_same(child(v, k), segs.drop_first(), text, strict);
                match v {
                    JsonValue::Object(es) => {
                        lemma_key_index(es, segs[0], 0);
                        assert(es.update(k, (es[k].0, es[k].1)) =~= es);
                    },
                    JsonValue::Array(items) => {
                        assert(items.update(k, items[k]) =~= items);
                    },
                    _ => {},
                }
            },
            None => {},
        }
    }
}

/// Translating every extracted string into itself gives the document back
/// unchanged, when strings are extracted as they are (not trimmed) and the
/// keys are plain.
pub proof fn law_tree_round_trip(
    root: JsonValue,
    prefix: Seq<char>,
    strict: bool,
    ts: Seq<TranslatedString>,
    n: nat,
)
    requires
        root is Object,
        plain_tree(root),
        forall|i: int| 0 <= i < prefix.len() ==> #[trigger] prefix[i] != '.',
        ts.len() == value_strings(root, prefix, false).len(),
        forall|k: int|
            0 <= k < ts.len() ==> (#[trigger] ts[k]).id@ == value_strings(root, prefix, false)[k].0
                && ts[k].translated_text@ == value_strings(root, prefix, false)[k].1,
        n <= ts.len(),
    ensures
        applied(root, ts, n, strict) == root,
    decreases n,
{
    if n > 0 {
        law_tree_round_trip(root, prefix, strict, ts, (n - 1) as nat);
        if last_with_id(ts, n - 1) {
            law_tree_ids_lead_back(root, prefix, false, strict, n - 1);
            assert(ts[n - 1].id@ == value_strings(root, prefix, false)[n - 1].0);
            lemma_replace_same(
                root,
                id_segments(ts[n - 1].id@),
                ts[n - 1].translated_text@,
                strict,
            );
        }
    }
}


/// The path segments lead to a string of `v`.
pub open spec fn leads_to_string(v: JsonValue, segs: Seq<Seq<char>>, strict: bool) -> bool {
    locate(v, segs, strict) matches Some(JsonValue::Str(_))
}

/// The child positions that the segments pass through in `v`: two paths
/// reach the same value exactly when their positions are equal.
pub open spec fn position(v: JsonValue, segs: Seq<Seq<char>>, strict: bool) -> Seq<int>
    decreases segs.len(),
{
    if segs.len() == 0 {
        seq![]
    } else {
        match child_slot(v, segs[0], strict) {
            Some(k) => seq![k] + position(child(v, k), segs.drop_first(), strict),
            None => seq![],
        }
    }
}

proof fn lemma_key_index_same_keys(
    es: Seq<(Seq<char>, JsonValue)>,
    fs: Seq<(Seq<char>, JsonValue)>,
    key: Seq<char>,
    i: int,
)
    requires
        es.len() == fs.len(),
        forall|j: int| 0 <= j < es.len() ==> (#[trigger] es[j]).0 == fs[j].0,
    ensures
        key_index(es, key, i) == key_index(fs, key, i),
    decreases es.len() - i,
{
    if 0 <= i < es.len() {
        lemma_key_index_same_keys(es, fs, key, i + 1);
    }
}

proof fn lemma_cons_positions(k: int, a: Seq<int>, b: Seq<int>)
    ensures
        (seq![k] + a == seq![k] + b) <==> a == b,
{
    if seq![k] + a == seq![k] + b {
        assert((seq![k] + a).drop_first() =~= a);
        assert((seq![k] + b).drop_first() =~= b);
    }
}

/// Writing `text` at the string that `s2` leads to: a path `s1` to a string
/// still leads to a string at the same position, and reads `text` where the
/// positions agree and what it read before elsewhere.
proof fn lemma_replace_read(
    v: JsonValue,
    s1: Seq<Seq<char>>,
    s2: Seq<Seq<char>>,
    text: Seq<char>,
    strict: bool,
)
    requires
        leads_to_string(v, s1, strict),
        leads_to_string(v, s2, strict),
    ensures
        leads_to_string(replace_at(v, s2, text, strict), s1, strict),
        position(replace_at(v, s2, text, strict), s1, strict) == position(v, s1, strict),
        locate(replace_at(v, s2, text, strict), s1, strict) == if position(v, s1, strict)
            == position(v, s2, strict) {
            Some(JsonValue::Str(text))
        } else {
            locate(v, s1, strict)
        },
    decreases s1.len(),
{
    if s1.len() == 0 {
        if s2.len() > 0 {
            assert(child_slot(v, s2[0], strict) is None);
        }
    } else {
        let k1 = child_slot(v, s1[0], strict)->Some_0;
        if s2.len() == 0 {
            assert(child_slot(v, s1[0], strict) is None);
        }
        let k2 = child_slot(v, s2[0], strict)->Some_0;
        let c2 = replace_at(child(v, k2), s2.drop_first(), text, strict);
        let w = replace_at(v, s2, text, strict);
        assert(w == with_child(v, k2, c2));
        match v {
            JsonValue::Object(es) => {
                lemma_key_index(es, s1[0], 0);
                lemma_key_index(es, s2[0], 0);
                lemma_key_index_same_keys(es, es.update(k2, (es[k2].0, c2)), s1[0], 0);
            },
            _ => {},
        }
        assert(child_slot(w, s1[0], strict) == Some(k1));
        if k1 == k2 {
            lemma_replace_read(child(v, k1), s1.drop_first(), s2.drop_first(), text, strict);
            assert(child(w, k1) == c2);
            lemma_cons_positions(
                k1,
                position(child(v, k1), s1.drop_first(), strict),
                position(child(v, k1), s2.drop_first(), strict),
            );
        } else {
            assert(child(w, k1) == child(v, k1));
            assert(position(v, s1, strict)[0] != position(v, s2, strict)[0]);
        }
    }
}

/// The translations lead to strings, no two of them to the same one.
pub open spec fn distinct_targets(v: JsonValue, ts: Seq<TranslatedString>, strict: bool) -> bool {
    &&& forall|k: int| 0 <= k < ts.len() ==> leads_to_string(v, id_segments((#[trigger] ts[k]).id@), strict)
    &&& forall|j: int, k: int|
        0 <= j < k < ts.len() ==> position(v, id_segments((#[trigger] ts[j]).id@), strict) != position(
            v,
            id_segments((#[trigger] ts[k]).id@),
            strict,
        )
}

proof fn lemma_applied_at(
    v: JsonValue,
    ts: Seq<TranslatedString>,
    n: nat,
    strict: bool,
    s: Seq<Seq<char>>,
)
    requires
        distinct_targets(v, ts, strict),
        n <= ts.len(),
        leads_to_string(v, s, strict),
    ensures
        leads_to_string(applied(v, ts, n, strict), s, strict),
        position(applied(v, ts, n, strict), s, strict) == position(v, s, strict),
        forall|k: int|
            0 <= k < n && position(v, id_segments((#[trigger] ts[k]).id@), strict) == position(v, s, strict)
                ==> locate(applied(v, ts, n, strict), s, strict) == Some(
                JsonValue::Str(ts[k].translated_text@),
            ),
        (forall|k: int|
            0 <= k < n ==> position(v, id_segments((#[trigger] ts[k]).id@), strict) != position(v, s, strict))
            ==> locate(applied(v, ts, n, strict), s, strict) == locate(v, s, strict),
    decreases n,
{
    if n > 0 {
        let m = (n - 1) as nat;
        let s2 = id_segments(ts[n - 1].id@);
        lemma_applied_at(v, ts, m, strict, s);
        lemma_applied_at(v, ts, m, strict, s2);
        assert(last_with_id(ts, n - 1)) by {
            assert forall|j: int| n - 1 < j < ts.len() implies (#[trigger] ts[j]).id@ != ts[n - 1].id@ by {
                assert(position(v, id_segments(ts[n - 1].id@), strict) != position(
                    v,
                    id_segments(ts[j].id@),
                    strict,
                ));
            }
        }
        let w = applied(v, ts, m, strict);
        lemma_replace_read(w, s, s2, ts[n - 1].translated_text@, strict);
        assert forall|k: int|
            0 <= k < n && position(v, id_segments((#[trigger] ts[k]).id@), strict) == position(v, s, strict)
            implies locate(applied(v, ts, n, strict), s, strict) == Some(
            JsonValue::Str(ts[k].translated_text@),
        ) by {
            if k < n - 1 && position(v, s2, strict) == position(v, s, strict) {
                assert(position(v, id_segments(ts[k].id@), strict) != position(v, s2, strict));
            }
        }
    }
}

/// Translations whose ids lead to distinct strings of the document: after
/// they are applied, each id reads back its own translation.
pub proof fn law_tree_translations_read_back(v: JsonValue, ts: Seq<TranslatedString>, strict: bool)
    requires
        distinct_targets(v, ts, strict),
    ensures
        forall|k: int|
            0 <= k < ts.len() ==> locate(
                applied(v, ts, ts.len(), strict),
                id_segments((#[trigger] ts[k]).id@),
                strict,
            ) == Some(JsonValue::Str(ts[k].translated_text@)),
{
    assert forall|k: int| 0 <= k < ts.len() implies locate(
        applied(v, ts, ts.len(), strict),
        id_segments((#[trigger] ts[k]).id@),
        strict,
    ) == Some(JsonValue::Str(ts[k].translated_text@)) by {
        lemma_applied_at(v, ts, ts.len(), strict, id_segments(ts[k].id@));
    }
}

/// A string of the document that no translation leads to reads the same
/// after the translations are applied.
pub proof fn law_tree_other_strings_kept(
    v: JsonValue,
    ts: Seq<TranslatedString>,
    strict: bool,
    s: Seq<Seq<char>>,
)
    requires
        distinct_targets(v, ts, strict),
        leads_to_string(v, s, strict),
        forall|k: int|
            0 <= k < ts.len() ==> position(v, id_segments((#[trigger] ts[k]).id@), strict) != position(
                v,
                s,
                strict,
            ),
    ensures
        locate(applied(v, ts, ts.len(), strict), s, strict) == locate(v, s, strict),
{
    lemma_applied_at(v, ts, ts.len(), strict, s);
}


/// In an object whose keys differ, a key present at `q` is found at `q`.
proof fn lemma_unique_key(es: Seq<(Seq<char>, JsonValue)>, q: int)
    requires
        0 <= q < es.len(),
        forall|i: int, j: int| 0 <= i < j < es.len() ==> (#[trigger] es[i]).0 != (#[trigger] es[j]).0,
    ensures
        key_index(es, es[q].0, 0) == Some(q),
{
    lemma_key_index(es, es[q].0, 0);
    match key_index(es, es[q].0, 0) {
        Some(p) => {
            if p < q {
                assert(es[p].0 != es[q].0);
            } else if p > q {
                assert(es[q].0 != es[q].0);
            }
        },
        None => {
            assert(es[q].0 != es[q].0);
        },
    }
}

/// Two different strings of an extraction lie at different positions.
proof fn lemma_value_pair(v: JsonValue, prefix: Seq<char>, trim: bool, strict: bool, j: int, k: int) -> (r: (
    Seq<Step>,
    Seq<Step>,
))
    requires
        plain_tree(v),
        0 <= j < k < value_strings(v, prefix, trim).len(),
    ensures
        value_strings(v, prefix, trim)[j].0 == prefix + steps_id(r.0),
        value_strings(v, prefix, trim)[k].0 == prefix + steps_id(r.1),
        steps_plain(r.0),
        steps_plain(r.1),
        position(v, steps_segs(r.0), strict) != position(v, steps_segs(r.1), strict),
        v is Object ==> r.0.len() > 0 && r.0[0] is Key && r.1.len() > 0 && r.1[0] is Key,
    decreases v, 0nat,
{
    match v {
        JsonValue::Array(items) => lemma_array_pair(items, prefix, trim, strict, items.len(), j, k),
        JsonValue::Object(es) => lemma_object_pair(es, prefix, trim, strict, es.len(), j, k),
        _ => {
            assert(false);
            (Seq::<Step>::empty(), Seq::<Step>::empty())
        },
    }
}

proof fn lemma_array_pair(
    items: Seq<JsonValue>,
    prefix: Seq<char>,
    trim: bool,
    strict: bool,
    n: nat,
    j: int,
    k: int,
) -> (r: (Seq<Step>, Seq<Step>))
    requires
        n <= items.len(),
        forall|i: int| 0 <= i < items.len() ==> plain_tree(#[trigger] items[i]),
        0 <= j < k < array_strings(items, prefix, trim, n).len(),
    ensures
        array_strings(items, prefix, trim, n)[j].0 == prefix + steps_id(r.0),
        array_strings(items, prefix, trim, n)[k].0 == prefix + steps_id(r.1),
        steps_plain(r.0),
        steps_plain(r.1),
        position(JsonValue::Array(items), steps_segs(r.0), strict) != position(
            JsonValue::Array(items),
            steps_segs(r.1),
            strict,
        ),
    decreases items, n,
{
    let whole = JsonValue::Array(items);
    let prev = array_strings(items, prefix, trim, (n - 1) as nat);
    if k < prev.len() {
        lemma_array_pair(items, prefix, trim, strict, (n - 1) as nat, j, k)
    } else {
        let i = (n - 1) as nat;
        lemma_parse_decimal(i, strict);
        assert(child_slot(whole, decimal(i), strict) == Some(i as int));
        if j < prev.len() {
            let a = lemma_array_path(items, prefix, trim, strict, (n - 1) as nat, j);
            let b = lemma_array_path(items, prefix, trim, strict, n, k);
            let ia = a[0]->Index_0;
            lemma_parse_decimal(ia, strict);
            assert(steps_segs(a)[0] == decimal(ia));
            assert(steps_segs(b)[0] == decimal(i));
            assert(child_slot(whole, decimal(ia), strict) == Some(ia as int));
            assert(position(whole, steps_segs(a), strict)[0] == ia);
            assert(position(whole, steps_segs(b), strict)[0] == i);
            (a, b)
        } else {
            let p = prev.len() as int;
            let pre = index_path(prefix, i);
            let (sa, sb) = lemma_value_pair(items[n - 1], pre, trim, strict, j - p, k - p);
            let a = seq![Step::Index(i)] + sa;
            let b = seq![Step::Index(i)] + sb;
            lemma_steps_id_cons(Step::Index(i), sa);
            lemma_steps_id_cons(Step::Index(i), sb);
            assert(pre + steps_id(sa) =~= prefix + steps_id(a));
            assert(pre + steps_id(sb) =~= prefix + steps_id(b));
            assert(steps_segs(a)[0] == decimal(i));
            assert(steps_segs(b)[0] == decimal(i));
            assert(steps_segs(a).drop_first() =~= steps_segs(sa));
            assert(steps_segs(b).drop_first() =~= steps_segs(sb));
            assert(steps_plain(a)) by {
                assert forall|x: int| 0 <= x < a.len() implies (#[trigger] a[x] matches Step::Key(y)
                    ==> plain_key(y)) by {
                    if x > 0 {
                        assert(a[x] == sa[x - 1]);
                    }
                }
            }
            assert(steps_plain(b)) by {
                assert forall|x: int| 0 <= x < b.len() implies (#[trigger] b[x] matches Step::Key(y)
                    ==> plain_key(y)) by {
                    if x > 0 {
                        assert(b[x] == sb[x - 1]);
                    }
                }
            }
            lemma_cons_positions(
                i as int,
                position(items[n - 1], steps_segs(sa), strict),
                position(items[n - 1], steps_segs(sb), strict),
            );
            (a, b)
        }
    }
}

proof fn lemma_object_pair(
    es: Seq<(Seq<char>, JsonValue)>,
    prefix: Seq<char>,
    trim: bool,
    strict: bool,
    n: nat,
    j: int,
    k: int,
) -> (r: (Seq<Step>, Seq<Step>))
    requires
        n <= es.len(),
        forall|i: int| 0 <= i < es.len() ==> plain_key(#[trigger] es[i].0) && plain_tree(es[i].1),
        forall|i: int, j: int| 0 <= i < j < es.len() ==> (#[trigger] es[i]).0 != (#[trigger] es[j]).0,
        0 <= j < k < object_strings(es, prefix, trim, n).len(),
    ensures
        object_strings(es, prefix, trim, n)[j].0 == prefix + steps_id(r.0),
        object_strings(es, prefix, trim, n)[k].0 == prefix + steps_id(r.1),
        steps_plain(r.0),
        steps_plain(r.1),
        r.0.len() > 0 && r.0[0] is Key && r.1.len() > 0 && r.1[0] is Key,
        position(JsonValue::Object(es), steps_segs(r.0), strict) != position(
            JsonValue::Object(es),
            steps_segs(r.1),
            strict,
        ),
    decreases es, n,
{
    let whole = JsonValue::Object(es);
    let prev = object_strings(es, prefix, trim, (n - 1) as nat);
    if k < prev.len() {
        lemma_object_pair(es, prefix, trim, strict, (n - 1) as nat, j, k)
    } else {
        let key = es[n - 1].0;
        assert(!hidden_key(key));
        lemma_unique_key(es, n - 1);
        if j < prev.len() {
            let a = lemma_object_path(es, prefix, trim, strict, (n - 1) as nat, j);
            let b = lemma_object_path(es, prefix, trim, strict, n, k);
            let xa = a[0]->Key_0;
            let xb = b[0]->Key_0;
            assert(steps_segs(a)[0] == xa);
            assert(steps_segs(b)[0] == xb);
            assert(position(whole, steps_segs(a), strict)[0] < n - 1);
            assert(position(whole, steps_segs(b), strict)[0] == n - 1);
            (a, b)
        } else {
            let p = prev.len() as int;
            let pre = key_path(prefix, key);
            let (sa, sb) = lemma_value_pair(es[n - 1].1, pre, trim, strict, j - p, k - p);
            let a = seq![Step::Key(key)] + sa;
            let b = seq![Step::Key(key)] + sb;
            lemma_steps_id_cons(Step::Key(key), sa);
            lemma_steps_id_cons(Step::Key(key), sb);
            assert(pre + steps_id(sa) =~= prefix + steps_id(a));
            assert(pre + steps_id(sb) =~= prefix + steps_id(b));
            assert(steps_segs(a)[0] == key);
            assert(steps_segs(b)[0] == key);
            assert(steps_segs(a).drop_first() =~= steps_segs(sa));
            assert(steps_segs(b).drop_first() =~= steps_segs(sb));
            assert(steps_plain(a)) by {
                assert forall|x: int| 0 <= x < a.len() implies (#[trigger] a[x] matches Step::Key(y)
                    ==> plain_key(y)) by {
                    if x > 0 {
                        assert(a[x] == sa[x - 1]);
                    }
                }
            }
            assert(steps_plain(b)) by {
                assert forall|x: int| 0 <= x < b.len() implies (#[trigger] b[x] matches Step::Key(y)
                    ==> plain_key(y)) by {
                    if x > 0 {
                        assert(b[x] == sb[x - 1]);
                    }
                }
            }
            lemma_cons_positions(
                n - 1,
                position(es[n - 1].1, steps_segs(sa), strict),
                position(es[n - 1].1, steps_segs(sb), strict),
            );
            (a, b)
        }
    }
}

/// Translating the strings extracted from a document whose keys are plain:
/// after the translations are applied, each extracted id reads back its own
/// translation.
pub proof fn law_tree_extracted_translations_read_back(
    root: JsonValue,
    prefix: Seq<char>,
    trim: bool,
    strict: bool,
    ts: Seq<TranslatedString>,
)
    requires
        root is Object,
        plain_tree(root),
        forall|i: int| 0 <= i < prefix.len() ==> #[trigger] prefix[i] != '.',
        ts.len() == value_strings(root, prefix, trim).len(),
        forall|k: int|
            0 <= k < ts.len() ==> (#[trigger] ts[k]).id@ == value_strings(root, prefix, trim)[k].0,
    ensures
        forall|k: int|
            0 <= k < ts.len() ==> locate(
                applied(root, ts, ts.len(), strict),
                id_segments((#[trigger] ts[k]).id@),
                strict,
            ) == Some(JsonValue::Str(ts[k].translated_text@)),
{
    let vs = value_strings(root, prefix, trim);
    assert forall|k: int| 0 <= k < ts.len() implies leads_to_string(
        root,
        id_segments((#[trigger] ts[k]).id@),
        strict,
    ) by {
        law_tree_ids_lead_back(root, prefix, trim, strict, k);
    }
    assert forall|j: int, k: int| 0 <= j < k < ts.len() implies position(
        root,
        id_segments((#[trigger] ts[j]).id@),
        strict,
    ) != position(root, id_segments((#[trigger] ts[k]).id@), strict) by {
        let (a, b) = lemma_value_pair(root, prefix, trim, strict, j, k);
        lemma_id_pointer(prefix, a);
        lemma_pointer_segments(a);
        lemma_id_pointer(prefix, b);
        lemma_pointer_segments(b);
    }
    law_tree_translations_read_back(root, ts, strict);
}

/// `a` and `b` differ at most in the text of their strings: the same kinds of
/// values, the same keys in the same order, the same numbers and booleans.
pub open spec fn same_shape(a: JsonValue, b: JsonValue) -> bool
    decreases a,
{
    match (a, b) {
        (JsonValue::Null, JsonValue::Null) => true,
        (JsonValue::Bool(p), JsonValue::Bool(q)) => p == q,
        (JsonValue::Number(m), JsonValue::Number(n)) => m == n,
        (JsonValue::Str(_), JsonValue::Str(_)) => true,
        (JsonValue::Array(xs), JsonValue::Array(ys)) => xs.len() == ys.len() && forall|i: int|
            0 <= i < xs.len() ==> same_shape(#[trigger] xs[i], ys[i]),
        (JsonValue::Object(es), JsonValue::Object(fs)) => es.len() == fs.len() && forall|i: int|
            0 <= i < es.len() ==> (#[trigger] es[i]).0 == fs[i].0 && same_shape(es[i].1, fs[i].1),
        _ => false,
    }
}

proof fn lemma_same_shape_refl(v: JsonValue)
    ensures
        same_shape(v, v),
    decreases v,
{
    match v {
        JsonValue::Array(xs) => {
            assert forall|i: int| 0 <= i < xs.len() implies same_shape(#[trigger] xs[i], xs[i]) by {
                lemma_same_shape_refl(xs[i]);
            }
        },
        JsonValue::Object(es) => {
            assert forall|i: int| 0 <= i < es.len() implies (#[trigger] es[i]).0 == es[i].0
                && same_shape(es[i].1, es[i].1) by {
                lemma_same_shape_refl(es[i].1);
            }
        },
        _ => {},
    }
}

proof fn lemma_same_shape_trans(a: JsonValue, b: JsonValue, c: JsonValue)
    requires
        same_shape(a, b),
        same_shape(b, c),
    ensures
        same_shape(a, c),
    decreases a,
{
    match (a, b, c) {
        (JsonValue::Array(xs), JsonValue::Array(ys), JsonValue::Array(zs)) => {
            assert forall|i: int| 0 <= i < xs.len() implies same_shape(#[trigger] xs[i], zs[i]) by {
                assert(same_shape(xs[i], ys[i]));
                assert(same_shape(ys[i], zs[i]));
                lemma_same_shape_trans(xs[i], ys[i], zs[i]);
            }
        },
        (JsonValue::Object(es), JsonValue::Object(fs), JsonValue::Object(gs)) => {
            assert forall|i: int| 0 <= i < es.len() implies (#[trigger] es[i]).0 == gs[i].0
                && same_shape(es[i].1, gs[i].1) by {
                assert(es[i].0 == fs[i].0 && same_shape(es[i].1, fs[i].1));
                assert(fs[i].0 == gs[i].0 && same_shape(fs[i].1, gs[i].1));
                lemma_same_shape_trans(es[i].1, fs[i].1, gs[i].1);
            }
        },
        _ => {},
    }
}

proof fn lemma_replace_shape(v: JsonValue, segs: Seq<Seq<char>>, text: Seq<char>, strict: bool)
    ensures
        same_shape(v, replace_at(v, segs, text, strict)),
    decreases segs.len(),
{
    lemma_same_shape_refl(v);
    if segs.len() > 0 {
        match child_slot(v, segs[0], strict) {
            Some(k) => {
                let c = replace_at(child(v, k), segs.drop_first(), text, strict);
                lemma_replace_shape(child(v, k), segs.drop_first(), text, strict);
                match v {
                    JsonValue::Object(es) => {
                        lemma_key_index(es, segs[0], 0);
                        let fs = es.update(k, (es[k].0, c));
                        assert forall|i: int| 0 <= i < es.len() implies (#[trigger] es[i]).0 == fs[i].0
                            && same_shape(es[i].1, fs[i].1) by {
                            if i != k {
                                assert(same_shape(es[i].1, es[i].1));
                            }
                        }
                    },
                    JsonValue::Array(xs) => {
                        let ys = xs.update(k, c);
                        assert forall|i: int| 0 <= i < xs.len() implies same_shape(#[trigger] xs[i], ys[i]) by {
                            if i != k {
                                assert(same_shape(xs[i], xs[i]));
                            }
                        }
                    },
                    _ => {},
                }
            },
            None => {},
        }
    }
}

/// Applying translations keeps the document's structure: its keys and their
/// order, its arrays' lengths, and every value that is not a string.
pub proof fn law_tree_structure_kept(v: JsonValue, ts: Seq<TranslatedString>, n: nat, strict: bool)
    ensures
        same_shape(v, applied(v, ts, n, strict)),
    decreases n,
{
    if n == 0 || n > ts.len() {
        lemma_same_shape_refl(v);
    } else {
        let w = applied(v, ts, (n - 1) as nat, strict);
        law_tree_structure_kept(v, ts, (n - 1) as nat, strict);
        if last_with_id(ts, n - 1) {
            lemma_replace_shape(w, id_segments(ts[n - 1].id@), ts[n - 1].translated_text@, strict);
            lemma_same_shape_trans(
                v,
                w,
                replace_at(w, id_segments(ts[n - 1].id@), ts[n - 1].translated_text@, strict),
            );
        }
    }
}


/// A key escaped for a pointer and split back out of it is the key again.
pub proof fn law_pointer_escape_round_trip(k: Seq<char>)
    ensures
        segments(seq!['/'] + escaped(k)) == seq![k],
{
    let sts = seq![Step::Key(k)];
    lemma_pointer_segments(sts);
    assert(sts.drop_first() =~= Seq::<Step>::empty());
    assert(sts[0] == Step::Key(k));
    assert(steps_pointer(sts.drop_first()) == Seq::<char>::empty());
    assert(steps_pointer(sts) == step_pointer(sts[0]) + steps_pointer(sts.drop_first()));
    assert(steps_pointer(sts) =~= seq!['/'] + escaped(k));
    assert(steps_segs(sts) =~= seq![k]);
}

/// The id of a plain top-level key leads to the pointer of that key, and
/// through it back to the key.
pub proof fn law_key_id_pointer(prefix: Seq<char>, k: Seq<char>)
    requires
        forall|i: int| 0 <= i < prefix.len() ==> #[trigger] prefix[i] != '.',
        plain_key(k),
    ensures
        id_pointer(prefix + seq!['.'] + k) == seq!['/'] + escaped(k),
        segments(id_pointer(prefix + seq!['.'] + k)) == seq![k],
{
    let sts = seq![Step::Key(k)];
    assert(sts.drop_first() =~= Seq::<Step>::empty());
    assert(sts[0] == Step::Key(k));
    assert(steps_id(sts.drop_first()) == Seq::<char>::empty());
    assert(steps_pointer(sts.drop_first()) == Seq::<char>::empty());
    assert(steps_id(sts) == step_id(sts[0]) + steps_id(sts.drop_first()));
    assert(steps_pointer(sts) == step_pointer(sts[0]) + steps_pointer(sts.drop_first()));
    assert(steps_id(sts) =~= seq!['.'] + k);
    assert(steps_plain(sts));
    lemma_id_pointer(prefix, sts);
    assert(prefix + steps_id(sts) =~= prefix + seq!['.'] + k);
    law_pointer_escape_round_trip(k);
    assert(steps_pointer(sts) =~= seq!['/'] + escaped(k));
}

/// The entries with `key` set to `v`: the first entry with that key takes
/// the value, or a new entry goes at the end.
pub open spec fn with_entry(es: Seq<(Seq<char>, JsonValue)>, key: Seq<char>, v: JsonValue) -> Seq<
    (Seq<char>, JsonValue),
> {
    match key_index(es, key, 0) {
        Some(i) => es.update(i, (key, v)),
        None => es.push((key, v)),
    }
}

/// Sets `key` to `value` in an object's entries.
pub fn set_entry(es: Vec<(String, JsonNode)>, key: &str, value: JsonNode) -> (r: Vec<
    (String, JsonNode),
>)
    ensures
        entries_view(r@, r@.len()) == with_entry(entries_view(es@, es@.len()), key@, node_view(value)),
{
    let kc = chars_of(key);
    let ghost v = node_view(value);
    let mut es = es;
    let ghost before = es@;
    match key_position(&es, &kc) {
        Some(i) => {
            proof {
                lemma_entries_view(before, before.len());
                lemma_key_index(entries_view(before, before.len()), kc@, 0);
            }
            let e = (String::from_str(key), value);
            es.set(i, e);
            proof {
                lemma_entries_view_update(before, i as int, e);
            }
            es
        },
        None => {
            let e = (String::from_str(key), value);
            es.push(e);
            proof {
                lemma_entries_view(before, before.len());
                lemma_entries_view(es@, es@.len());
                assert(entries_view(es@, es@.len()) =~= entries_view(before, before.len()).push(
                    (key@, v),
                ));
            }
            es
        },
    }
}

proof fn lemma_object_strings_prefix(
    es: Seq<(Seq<char>, JsonValue)>,
    e: (Seq<char>, JsonValue),
    prefix: Seq<char>,
    trim: bool,
    n: nat,
)
    requires
        n <= es.len(),
    ensures
        object_strings(es.push(e), prefix, trim, n) == object_strings(es, prefix, trim, n),
    decreases n,
{
    if n > 0 {
        lemma_object_strings_prefix(es, e, prefix, trim, (n - 1) as nat);
        assert(es.push(e)[n - 1] == es[n - 1]);
    }
}

/// Only a key that starts with `_` is skipped: adding the entry `(k, x)`
/// to an object adds the string leaves of `x`, with ids under `prefix.k`,
/// unless the first char of `k` is `_`, in which case it adds nothing.  A
/// key with `_` elsewhere in it (`app_title`) is read like any other.
pub proof fn law_tree_only_leading_underscore_hides(
    es: Seq<(Seq<char>, JsonValue)>,
    k: Seq<char>,
    x: JsonValue,
    prefix: Seq<char>,
    trim: bool,
)
    ensures
        value_strings(JsonValue::Object(es.push((k, x))), prefix, trim) == value_strings(
            JsonValue::Object(es),
            prefix,
            trim,
        ) + if k.len() > 0 && k[0] == '_' {
            Seq::<(Seq<char>, Seq<char>)>::empty()
        } else {
            value_strings(x, prefix + seq!['.'] + k, trim)
        },
{
    lemma_object_strings_prefix(es, (k, x), prefix, trim, es.len());
    let ext = es.push((k, x));
    assert(ext[ext.len() - 1] == (k, x));
    assert(ext.len() == es.len() + 1);
}

/// A string leaf under a key is offered for translation, with id
/// `prefix.k`, exactly when the key does not start with `_` and the string
/// is not blank.
pub proof fn law_tree_key_leaf_offered(k: Seq<char>, text: Seq<char>, prefix: Seq<char>, trim: bool)
    ensures
        value_strings(
            JsonValue::Object(seq![(k, JsonValue::Str(text))]),
            prefix,
            trim,
        ) == if (k.len() > 0 && k[0] == '_') || trimmed(text).len() == 0 {
            Seq::<(Seq<char>, Seq<char>)>::empty()
        } else {
            seq![(prefix + seq!['.'] + k, if trim { trimmed(text) } else { text })]
        },
{
    law_tree_only_leading_underscore_hides(Seq::empty(), k, JsonValue::Str(text), prefix, trim);
    assert(Seq::<(Seq<char>, JsonValue)>::empty().push((k, JsonValue::Str(text))) =~= seq![(k, JsonValue::Str(text))]);
    assert(value_strings(JsonValue::Object(Seq::empty()), prefix, trim) =~= Seq::<(Seq<char>, Seq<char>)>::empty());
}

} // verus!

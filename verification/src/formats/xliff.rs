//! XLIFF files: the text of every `<source>` is translatable; translations
//! go into the `<target>` of the same `<trans-unit>`.
use crate::error::ZelligError;
use crate::formats::{
    pairs_view, strings_match, to_translatables, Edit, TranslatableString, TranslatedString,
};
use crate::text::{
    blen, byte_at, char_at_byte, char_index_at_byte, chars_eq, chars_of, is_boundary, lemma_byte_at_mono,
    lemma_byte_at_step, lemma_char_at_byte, push_all, push_range, starts_with, string_of, trim_of,
    trimmed,
};
use quick_xml::events::{BytesEnd, BytesStart, BytesText, Event};
use quick_xml::Reader;
use quick_xml::XmlVersion;
use vstd::prelude::*;

verus! {

// ---------------------------------------------------------------------------
// The XML reader
// ---------------------------------------------------------------------------
/// `quick_xml::Reader`, carried through unchanged.
#[verifier::external_type_specification]
#[verifier::external_body]
#[verifier::reject_recursive_types(R)]
pub struct ExXmlReader<R>(Reader<R>);

/// `quick_xml::events::BytesStart`, carried through unchanged.
#[verifier::external_type_specification]
#[verifier::external_body]
pub struct ExBytesStart<'i>(BytesStart<'i>);

/// `quick_xml::events::BytesEnd`, carried through unchanged.
#[verifier::external_type_specification]
#[verifier::external_body]
pub struct ExBytesEnd<'i>(BytesEnd<'i>);

/// `quick_xml::events::BytesText`, carried through unchanged.
#[verifier::external_type_specification]
#[verifier::external_body]
pub struct ExBytesText<'i>(BytesText<'i>);

/// `quick_xml::Error`, carried through unchanged.
#[verifier::external_type_specification]
#[verifier::external_body]
pub struct ExXmlError(quick_xml::Error);

/// A reader over a document: the document, how many events it has given,
/// the byte offset it has read up to, the document's length in bytes, and
/// the last event it gave with that event's number.
pub struct XmlCursor<'a> {
    reader: Reader<&'a [u8]>,
    buf: Vec<u8>,
    text: &'a str,
    count: u64,
    pos: u64,
    len: u64,
    last: RawEvent,
    last_index: u64,
}

/// An event as the reader gives it.
pub enum RawEvent {
    Start(BytesStart<'static>),
    Empty(BytesStart<'static>),
    End(BytesEnd<'static>),
    Text(BytesText<'static>),
    Eof,
    Other,
    Error(quick_xml::Error),
}

/// The kinds of events.
pub enum XmlKind {
    Start,
    Empty,
    End,
    Text,
    Eof,
    Other,
    Error,
}

pub open spec fn kind_of(e: RawEvent) -> XmlKind {
    match e {
        RawEvent::Start(_) => XmlKind::Start,
        RawEvent::Empty(_) => XmlKind::Empty,
        RawEvent::End(_) => XmlKind::End,
        RawEvent::Text(_) => XmlKind::Text,
        RawEvent::Eof => XmlKind::Eof,
        RawEvent::Other => XmlKind::Other,
        RawEvent::Error(_) => XmlKind::Error,
    }
}

// What quick_xml's reader, with its default settings, gives for a document.
// Reading from the start, the `k`-th event it gives depends on the document
// alone, and so do its parts.
/// The kind of the `k`-th event of `content` (`Reader::read_event_into`).
pub uninterp spec fn xml_kind(content: Seq<char>, k: nat) -> XmlKind;

/// The byte offset after the `k`-th event (`Reader::buffer_position`).
pub uninterp spec fn xml_end(content: Seq<char>, k: nat) -> nat;

/// The qualified name of the `k`-th event when it is a start or empty tag
/// (`BytesStart::name`); empty otherwise.
pub uninterp spec fn xml_start_name(content: Seq<char>, k: nat) -> Seq<char>;

/// The qualified name of the `k`-th event when it is an end tag
/// (`BytesEnd::name`); empty otherwise.
pub uninterp spec fn xml_end_name(content: Seq<char>, k: nat) -> Seq<char>;

/// The text of the `k`-th event when it is text, as it stands in the
/// document (`BytesText`'s bytes, read lossily as UTF-8); empty otherwise.
pub uninterp spec fn xml_text(content: Seq<char>, k: nat) -> Seq<char>;

/// The message of the `k`-th event when it is an error (`Display` of
/// `quick_xml::Error`); empty otherwise.
pub uninterp spec fn xml_error(content: Seq<char>, k: nat) -> Seq<char>;

/// The number of well-formed attributes of the `k`-th event when it is a
/// start or empty tag (`BytesStart::attributes`); zero otherwise.
pub uninterp spec fn xml_attr_count(content: Seq<char>, k: nat) -> nat;

/// The key of the `j`-th well-formed attribute of the `k`-th event
/// (`Attribute::key`); empty where there is none.
pub uninterp spec fn xml_attr_key(content: Seq<char>, k: nat, j: nat) -> Seq<char>;

/// The value of the `j`-th well-formed attribute of the `k`-th event, as
/// `Attribute::normalized_value` gives it for XML 1.0, empty where that fails
/// or there is none.
pub uninterp spec fn xml_attr_value(content: Seq<char>, k: nat, j: nat) -> Seq<char>;

/// `quick_xml::Reader::from_str`: a reader at offset 0 of `content`, which
/// has given no event yet.  A `str` is never longer than `isize::MAX` bytes.
#[verifier::external_body]
fn open_cursor<'a>(content: &'a str) -> (c: XmlCursor<'a>)
    ensures
        c.text@ == content@,
        c.count == 0,
        c.pos == 0,
        c.len == blen(content@),
        c.len <= isize::MAX,
{
    XmlCursor {
        reader: Reader::from_str(content),
        buf: Vec::new(),
        text: content,
        count: 0,
        pos: 0,
        len: content.len() as u64,
        last: RawEvent::Other,
        last_index: 0,
    }
}

/// `quick_xml::Reader::read_event_into`, then `buffer_position`: the next
/// event, kept in the cursor, and the offset after it.  The reader's source
/// shows that, with the default configuration, every event but the end and
/// an error consumes at least one byte, and that the offset never passes the
/// end of the input.
#[verifier::external_body]
fn read_event(c: &mut XmlCursor)
    requires
        old(c).count < u64::MAX,
    ensures
        final(c).text == old(c).text,
        final(c).len == old(c).len,
        final(c).count == old(c).count + 1,
        final(c).last_index == old(c).count,
        kind_of(final(c).last) == xml_kind(old(c).text@, old(c).count as nat),
        final(c).pos == xml_end(old(c).text@, old(c).count as nat),
        final(c).pos <= final(c).len,
        final(c).last is Eof || final(c).last is Error || old(c).pos < final(c).pos,
{
    c.buf.clear();
    let ev = c.reader.read_event_into(&mut c.buf);
    c.last_index = c.count;
    c.count = c.count + 1;
    c.pos = c.reader.buffer_position();
    c.last = match ev {
        Ok(Event::Start(e)) => RawEvent::Start(e.into_owned()),
        Ok(Event::Empty(e)) => RawEvent::Empty(e.into_owned()),
        Ok(Event::End(e)) => RawEvent::End(e.into_owned()),
        Ok(Event::Text(e)) => RawEvent::Text(e.into_owned()),
        Ok(Event::Eof) => RawEvent::Eof,
        Ok(_) => RawEvent::Other,
        Err(e) => RawEvent::Error(e),
    };
}

/// `BytesStart::name` of the last event, when it is a start or empty tag.
#[verifier::external_body]
fn last_start_name(c: &XmlCursor) -> (r: String)
    ensures
        r@ == xml_start_name(c.text@, c.last_index as nat),
{
    match &c.last {
        RawEvent::Start(e) | RawEvent::Empty(e) => e.name().as_ref().to_string(),
        _ => String::new(),
    }
}

/// `BytesEnd::name` of the last event, when it is an end tag.
#[verifier::external_body]
fn last_end_name(c: &XmlCursor) -> (r: String)
    ensures
        r@ == xml_end_name(c.text@, c.last_index as nat),
{
    match &c.last {
        RawEvent::End(e) => e.name().as_ref().to_string(),
        _ => String::new(),
    }
}

/// The content of the last event, when it is text, as it stands in the
/// document.
#[verifier::external_body]
fn last_text(c: &XmlCursor) -> (r: String)
    ensures
        r@ == xml_text(c.text@, c.last_index as nat),
{
    match &c.last {
        RawEvent::Text(e) => String::from_utf8_lossy(e.as_bytes()).into_owned(),
        _ => String::new(),
    }
}

/// The message of the last event, when it is an error, as `Display` writes
/// it.
#[verifier::external_body]
fn last_error(c: &XmlCursor) -> (r: String)
    ensures
        r@ == xml_error(c.text@, c.last_index as nat),
{
    match &c.last {
        RawEvent::Error(e) => e.to_string(),
        _ => String::new(),
    }
}

/// `BytesStart::attributes` of the last event, the malformed ones left out:
/// how many there are.
#[verifier::external_body]
fn last_attr_count(c: &XmlCursor) -> (r: usize)
    ensures
        r == xml_attr_count(c.text@, c.last_index as nat),
{
    match &c.last {
        RawEvent::Start(e) | RawEvent::Empty(e) => e.attributes().flatten().count(),
        _ => 0,
    }
}

/// The `j`-th of the last event's well-formed attributes: its key, and
/// `Attribute::normalized_value` for XML 1.0 or an empty string where that
/// fails.
#[verifier::external_body]
fn last_attr(c: &XmlCursor, j: usize) -> (r: (String, String))
    ensures
        r.0@ == xml_attr_key(c.text@, c.last_index as nat, j as nat),
        r.1@ == xml_attr_value(c.text@, c.last_index as nat, j as nat),
{
    let found = match &c.last {
        RawEvent::Start(e) | RawEvent::Empty(e) => e.attributes().flatten().nth(j),
        _ => None,
    };
    match found {
        Some(a) => (
            a.key.as_ref().to_string(),
            a.normalized_value(XmlVersion::Implicit1_0).map(|v| v.to_string()).unwrap_or_default(),
        ),
        None => (String::new(), String::new()),
    }
}

/// A start or empty tag: its qualified name and its attributes in order.
pub struct XmlTag {
    pub name: String,
    pub attrs: Vec<(String, String)>,
}

/// An event of the reader, as plain values.
pub enum XliffEvent {
    Start(XmlTag),
    Empty(XmlTag),
    End(String),
    Text(String),
    Eof,
    Error(String),
    Other,
}

/// An event with the byte offsets before and after it.
pub struct XliffToken {
    pub event: XliffEvent,
    pub before: u64,
    pub after: u64,
}

/// `t` is the tag of the `k`-th event of `content`: its name and its
/// attributes in order.
pub open spec fn tag_is(t: XmlTag, content: Seq<char>, k: nat) -> bool {
    &&& t.name@ == xml_start_name(content, k)
    &&& t.attrs@.len() == xml_attr_count(content, k)
    &&& forall|j: int|
        0 <= j < t.attrs@.len() ==> (#[trigger] t.attrs@[j]).0@ == xml_attr_key(content, k, j as nat)
            && t.attrs@[j].1@ == xml_attr_value(content, k, j as nat)
}

/// `ev` is the `k`-th event of `content`, as plain values.
pub open spec fn event_is(ev: XliffEvent, content: Seq<char>, k: nat) -> bool {
    match xml_kind(content, k) {
        XmlKind::Start => ev matches XliffEvent::Start(t) && tag_is(t, content, k),
        XmlKind::Empty => ev matches XliffEvent::Empty(t) && tag_is(t, content, k),
        XmlKind::End => ev matches XliffEvent::End(n) && n@ == xml_end_name(content, k),
        XmlKind::Text => ev matches XliffEvent::Text(x) && x@ == xml_text(content, k),
        XmlKind::Eof => ev is Eof,
        XmlKind::Other => ev is Other,
        XmlKind::Error => ev matches XliffEvent::Error(m) && m@ == xml_error(content, k),
    }
}

/// The last event's tag, as plain values.
fn tag_at(c: &XmlCursor) -> (t: XmlTag)
    ensures
        tag_is(t, c.text@, c.last_index as nat),
{
    let name = last_start_name(c);
    let n = last_attr_count(c);
    let mut attrs: Vec<(String, String)> = Vec::new();
    let mut j: usize = 0;
    while j < n
        invariant
            j <= n,
            n == xml_attr_count(c.text@, c.last_index as nat),
            attrs@.len() == j,
            forall|i: int|
                0 <= i < j ==> (#[trigger] attrs@[i]).0@ == xml_attr_key(
                    c.text@,
                    c.last_index as nat,
                    i as nat,
                ) && attrs@[i].1@ == xml_attr_value(c.text@, c.last_index as nat, i as nat),
        decreases n - j,
    {
        attrs.push(last_attr(c, j));
        j = j + 1;
    }
    XmlTag { name, attrs }
}

/// The last event, as plain values.
fn event_of(c: &XmlCursor) -> (r: XliffEvent)
    requires
        kind_of(c.last) == xml_kind(c.text@, c.last_index as nat),
    ensures
        event_is(r, c.text@, c.last_index as nat),
        r is Eof <==> c.last is Eof,
        r is Error <==> c.last is Error,
{
    match &c.last {
        RawEvent::Start(_) => XliffEvent::Start(tag_at(c)),
        RawEvent::Empty(_) => XliffEvent::Empty(tag_at(c)),
        RawEvent::End(_) => XliffEvent::End(last_end_name(c)),
        RawEvent::Text(_) => XliffEvent::Text(last_text(c)),
        RawEvent::Eof => XliffEvent::Eof,
        RawEvent::Other => XliffEvent::Other,
        RawEvent::Error(_) => XliffEvent::Error(last_error(c)),
    }
}

/// The tokens are what a reader gives: the last is the end or an error, none
/// before it is, each starts where the one before ended and consumes input,
/// and none passes the end of a document of `len` bytes.
pub open spec fn token_stream(toks: Seq<XliffToken>, len: nat) -> bool {
    &&& toks.len() > 0
    &&& toks.last().event is Eof || toks.last().event is Error
    &&& forall|k: int|
        0 <= k < toks.len() - 1 ==> !((#[trigger] toks[k]).event is Eof) && !(toks[k].event is Error)
            && toks[k].before < toks[k].after
    &&& forall|k: int| 0 < k < toks.len() ==> (#[trigger] toks[k]).before == toks[k - 1].after
    &&& toks[0].before == 0
    &&& forall|k: int| 0 <= k < toks.len() ==> (#[trigger] toks[k]).after <= len
}

/// The tokens are the events that the reader gives for `content`, up to and
/// including the end or the first error.
pub open spec fn xml_tokens_of(toks: Seq<XliffToken>, content: Seq<char>) -> bool {
    &&& token_stream(toks, blen(content))
    &&& forall|k: int|
        0 <= k < toks.len() ==> (#[trigger] toks[k]).after == xml_end(content, k as nat)
            && event_is(toks[k].event, content, k as nat)
}

/// All the events of `content`, up to and including the end or an error.
fn read_tokens(content: &str) -> (toks: Vec<XliffToken>)
    ensures
        xml_tokens_of(toks@, content@),
{
    let mut c = open_cursor(content);
    let mut toks: Vec<XliffToken> = Vec::new();
    loop
        invariant
            c.text@ == content@,
            c.len == blen(content@),
            c.len <= isize::MAX,
            c.pos <= c.len,
            c.count == toks@.len(),
            toks@.len() <= c.pos,
            toks@.len() == 0 ==> c.pos == 0,
            toks@.len() > 0 ==> toks@.last().after == c.pos,
            forall|k: int|
                0 <= k < toks@.len() ==> !((#[trigger] toks@[k]).event is Eof) && !(
                toks@[k].event is Error) && toks@[k].before < toks@[k].after,
            forall|k: int| 0 < k < toks@.len() ==> (#[trigger] toks@[k]).before == toks@[k - 1].after,
            toks@.len() > 0 ==> toks@[0].before == 0,
            forall|k: int| 0 <= k < toks@.len() ==> (#[trigger] toks@[k]).after <= c.len,
            forall|k: int|
                0 <= k < toks@.len() ==> (#[trigger] toks@[k]).after == xml_end(content@, k as nat)
                    && event_is(toks@[k].event, content@, k as nat),
        decreases c.len - c.pos,
    {
        let before = c.pos;
        read_event(&mut c);
        let event = event_of(&c);
        let stop = match &event {
            XliffEvent::Eof => true,
            XliffEvent::Error(_) => true,
            _ => false,
        };
        toks.push(XliffToken { event, before, after: c.pos });
        if stop {
            return toks;
        }
    }
}

// ---------------------------------------------------------------------------
// Names and attributes
// ---------------------------------------------------------------------------
/// The local part of a name: what follows the last `}`, or the whole name.
pub open spec fn local_name(n: Seq<char>) -> Seq<char>
    decreases n.len(),
{
    if n.len() == 0 {
        n
    } else if n.last() == '}' {
        seq![]
    } else {
        local_name(n.drop_last()).push(n.last())
    }
}

/// The local part of a tag name.
pub fn tag_local(name: &str) -> (r: String)
    ensures
        r@ == local_name(name@),
{
    let n = chars_of(name);
    let mut i = n.len();
    assert(n@.take(i as int) =~= n@);
    assert(n@ + n@.subrange(i as int, n@.len() as int) =~= n@);
    while i > 0 && n[i - 1] != '}'
        invariant
            i <= n@.len(),
            local_name(n@) == local_name(n@.take(i as int)) + n@.subrange(i as int, n@.len() as int),
        decreases i,
    {
        let ghost t = n@.take(i as int);
        assert(t.drop_last() =~= n@.take(i - 1));
        assert(n@.subrange(i - 1, n@.len() as int) =~= seq![t.last()] + n@.subrange(
            i as int,
            n@.len() as int,
        ));
        assert(local_name(t) == local_name(n@.take(i - 1)).push(t.last()));
        assert(local_name(n@.take(i - 1)).push(t.last()) + n@.subrange(i as int, n@.len() as int)
            =~= local_name(n@.take(i - 1)) + n@.subrange(i - 1, n@.len() as int));
        i = i - 1;
    }
    let mut out: Vec<char> = Vec::new();
    push_range(&mut out, &n, i, n.len());
    proof {
        assert(local_name(n@.take(i as int)) =~= Seq::<char>::empty());
        assert(out@ =~= local_name(n@));
    }
    string_of(&out)
}

/// The value of the first attribute named `name` from index `i` on.
pub open spec fn attr_lookup(attrs: Seq<(String, String)>, name: Seq<char>, i: int) -> Option<
    Seq<char>,
>
    decreases attrs.len() - i,
{
    if i < 0 || i >= attrs.len() {
        None
    } else if attrs[i].0@ == name {
        Some(attrs[i].1@)
    } else {
        attr_lookup(attrs, name, i + 1)
    }
}

/// The value of the tag's first attribute named `name`.
pub fn attr_value(tag: &XmlTag, name: &str) -> (r: Option<String>)
    ensures
        match r {
            Some(v) => attr_lookup(tag.attrs@, name@, 0) == Some(v@),
            None => attr_lookup(tag.attrs@, name@, 0) is None,
        },
{
    let want = chars_of(name);
    let mut i: usize = 0;
    while i < tag.attrs.len()
        invariant
            i <= tag.attrs@.len(),
            want@ == name@,
            attr_lookup(tag.attrs@, name@, 0) == attr_lookup(tag.attrs@, name@, i as int),
        decreases tag.attrs@.len() - i,
    {
        let key = chars_of(tag.attrs[i].0.as_str());
        if chars_eq(&key, &want) {
            return Some(tag.attrs[i].1.clone());
        }
        i = i + 1;
    }
    None
}

pub open spec fn is_tag(tag: XmlTag, name: Seq<char>) -> bool {
    local_name(tag.name@) == name
}

/// The id of a `<trans-unit>`: its `id` attribute, or empty.
pub open spec fn unit_id(tag: XmlTag) -> Seq<char> {
    match attr_lookup(tag.attrs@, "id"@, 0) {
        Some(v) => v,
        None => seq![],
    }
}

fn has_local(name: &String, want: &str) -> (r: bool)
    ensures
        r == (local_name(name@) == want@),
{
    let l = tag_local(name.as_str());
    let a = chars_of(l.as_str());
    let b = chars_of(want);
    chars_eq(&a, &b)
}

fn unit_id_of(tag: &XmlTag) -> (r: String)
    ensures
        r@ == unit_id(*tag),
{
    match attr_value(tag, "id") {
        Some(v) => v,
        None => String::new(),
    }
}

// ---------------------------------------------------------------------------
// Extraction
// ---------------------------------------------------------------------------
pub open spec fn xliff_context() -> Seq<char> {
    "XLIFF source text"@
}

/// The id of the source text of the unit `id`.
pub open spec fn source_id(id: Seq<char>) -> Seq<char> {
    "xliff."@ + id
}

pub open spec fn prepend<T>(x: T, r: Result<Seq<T>, Seq<char>>) -> Result<Seq<T>, Seq<char>> {
    match r {
        Ok(v) => Ok(seq![x] + v),
        Err(e) => Err(e),
    }
}

pub open spec fn after<T>(acc: Seq<T>, r: Result<Seq<T>, Seq<char>>) -> Result<Seq<T>, Seq<char>> {
    match r {
        Ok(v) => Ok(acc + v),
        Err(e) => Err(e),
    }
}

/// The state after a start or empty tag: a `<trans-unit>` sets the current id,
/// a `<source>` opens a source.
pub open spec fn tag_state(t: XmlTag, in_source: bool, id: Seq<char>) -> (bool, Seq<char>) {
    if is_tag(t, "trans-unit"@) {
        (in_source, unit_id(t))
    } else if is_tag(t, "source"@) {
        (true, id)
    } else {
        (in_source, id)
    }
}

/// The (id, text) pairs read from the events from `i` on: the trimmed,
/// non-empty texts inside a `<source>`, under the id of the current unit.  The
/// end stops the reading; an error's message is returned instead.
pub open spec fn xliff_strings(evs: Seq<XliffToken>, i: int, in_source: bool, id: Seq<char>) -> Result<
    Seq<(Seq<char>, Seq<char>)>,
    Seq<char>,
>
    decreases evs.len() - i,
{
    if i < 0 || i >= evs.len() {
        Ok(seq![])
    } else {
        match evs[i].event {
            XliffEvent::Start(t) => {
                let st = tag_state(t, in_source, id);
                xliff_strings(evs, i + 1, st.0, st.1)
            },
            XliffEvent::Empty(t) => {
                let st = tag_state(t, in_source, id);
                xliff_strings(evs, i + 1, st.0, st.1)
            },
            XliffEvent::Text(s) => {
                if in_source && trimmed(s@).len() > 0 {
                    prepend((source_id(id), trimmed(s@)), xliff_strings(evs, i + 1, in_source, id))
                } else {
                    xliff_strings(evs, i + 1, in_source, id)
                }
            },
            XliffEvent::End(n) => {
                if local_name(n@) == "source"@ {
                    xliff_strings(evs, i + 1, false, id)
                } else {
                    xliff_strings(evs, i + 1, in_source, id)
                }
            },
            XliffEvent::Eof => Ok(seq![]),
            XliffEvent::Error(m) => Err(m@),
            XliffEvent::Other => xliff_strings(evs, i + 1, in_source, id),
        }
    }
}

pub open spec fn parse_error_message(m: Seq<char>) -> Seq<char> {
    "XLIFF parse error: "@ + m
}

/// `r` is what the reading `s` gives: the strings, or the error.
pub open spec fn extract_result(
    r: Result<Vec<TranslatableString>, ZelligError>,
    s: Result<Seq<(Seq<char>, Seq<char>)>, Seq<char>>,
) -> bool {
    match s {
        Ok(pairs) => r is Ok && strings_match(r.unwrap()@, pairs, xliff_context()),
        Err(m) => r matches Err(ZelligError::ConfigError(msg)) && msg@ == parse_error_message(m),
    }
}

fn parse_error(m: &String) -> (e: ZelligError)
    ensures
        e matches ZelligError::ConfigError(msg) && msg@ == parse_error_message(m@),
{
    let mut msg = String::from_str("XLIFF parse error: ");
    msg.append(m.as_str());
    ZelligError::ConfigError(msg)
}

fn source_id_of(id: &String) -> (r: Vec<char>)
    ensures
        r@ == source_id(id@),
{
    let mut r = chars_of("xliff.");
    let c = chars_of(id.as_str());
    push_all(&mut r, &c);
    r
}

/// The translatable strings of a document given as its reader's events.
pub fn extract_tokens(events: &[XliffToken]) -> (r: Result<Vec<TranslatableString>, ZelligError>)
    ensures
        extract_result(r, xliff_strings(events@, 0, false, seq![])),
{
    let ghost goal = xliff_strings(events@, 0, false, seq![]);
    let mut acc: Vec<(Vec<char>, Vec<char>)> = Vec::new();
    let mut in_source = false;
    let mut id = String::new();
    let mut i: usize = 0;
    assert(after(pairs_view(acc@), goal) =~= goal) by {
        assert(pairs_view(acc@) =~= Seq::<(Seq<char>, Seq<char>)>::empty());
        match goal {
            Ok(v) => {
                assert(pairs_view(acc@) + v =~= v);
            },
            Err(_) => {},
        }
    }
    while i < events.len()
        invariant
            i <= events@.len(),
            goal == xliff_strings(events@, 0, false, seq![]),
            after(pairs_view(acc@), xliff_strings(events@, i as int, in_source, id@)) == goal,
        decreases events@.len() - i,
    {
        let ghost old_acc = pairs_view(acc@);
        match &events[i].event {
            XliffEvent::Start(t) | XliffEvent::Empty(t) => {
                if has_local(&t.name, "trans-unit") {
                    id = unit_id_of(t);
                } else if has_local(&t.name, "source") {
                    in_source = true;
                }
            },
            XliffEvent::Text(s) => {
                if in_source {
                    let cs = chars_of(s.as_str());
                    let (a, b) = trim_of(&cs, 0, cs.len());
                    if a < b {
                        let mut text: Vec<char> = Vec::new();
                        push_range(&mut text, &cs, a, b);
                        acc.push((source_id_of(&id), text));
                        proof {
                            let rest = xliff_strings(events@, i + 1, in_source, id@);
                            assert(pairs_view(acc@) =~= old_acc.push((source_id(id@), trimmed(s@))));
                            match rest {
                                Ok(v) => {
                                    assert(old_acc + (seq![(source_id(id@), trimmed(s@))] + v)
                                        =~= pairs_view(acc@) + v);
                                },
                                Err(_) => {},
                            }
                        }
                    }
                }
            },
            XliffEvent::End(n) => {
                if has_local(n, "source") {
                    in_source = false;
                }
            },
            XliffEvent::Eof => {
                proof {
                    assert(pairs_view(acc@) + seq![] =~= pairs_view(acc@));
                }
                return Ok(to_translatables(&acc, "XLIFF source text"));
            },
            XliffEvent::Error(m) => {
                return Err(parse_error(m));
            },
            XliffEvent::Other => {},
        }
        i = i + 1;
    }
    assert(pairs_view(acc@) + seq![] =~= pairs_view(acc@));
    Ok(to_translatables(&acc, "XLIFF source text"))
}

// ---------------------------------------------------------------------------
// Reconstruction
// ---------------------------------------------------------------------------
/// A translation id without its `xliff.` prefix.
pub open spec fn strip_source_prefix(id: Seq<char>) -> Seq<char> {
    if starts_with(id, "xliff."@) {
        id.skip("xliff."@.len() as int)
    } else {
        id
    }
}

/// The translation for the unit `id`: the last one whose id, without its
/// `xliff.` prefix, is `id`.
pub open spec fn unit_translation(ts: Seq<TranslatedString>, id: Seq<char>) -> Option<Seq<char>>
    decreases ts.len(),
{
    if ts.len() == 0 {
        None
    } else if strip_source_prefix(ts.last().id@) == id {
        Some(ts.last().translated_text@)
    } else {
        unit_translation(ts.drop_last(), id)
    }
}

/// A char as XML text writes it: `&`, `<` and `>` as entities.
pub open spec fn xml_escape_char(c: char) -> Seq<char> {
    if c == '&' {
        seq!['&', 'a', 'm', 'p', ';']
    } else if c == '<' {
        seq!['&', 'l', 't', ';']
    } else if c == '>' {
        seq!['&', 'g', 't', ';']
    } else {
        seq![c]
    }
}

/// `t` as XML text writes it.
pub open spec fn xml_escaped(t: Seq<char>) -> Seq<char>
    decreases t.len(),
{
    if t.len() == 0 {
        seq![]
    } else {
        xml_escaped(t.drop_last()) + xml_escape_char(t.last())
    }
}

/// A `<target>` element holding the text `t`.
pub open spec fn target_element(t: Seq<char>) -> Seq<char> {
    "<target>"@ + xml_escaped(t) + "</target>"@
}

/// The reading state of reconstruction.
pub struct UnitState {
    pub in_unit: bool,
    pub in_target: bool,
    pub id: Seq<char>,
    pub target_start: int,
}

/// The edits that the tokens from `i` on call for, in the order they are
/// found: an empty `<target/>` of a unit with a translation becomes a
/// `<target>` element holding it; text inside a `<target>` of such a unit is
/// replaced, together with all from the end of the `<target>` tag, by it.
/// The translation goes in as XML text, its `&`, `<` and `>` escaped.
pub open spec fn xliff_edits(
    toks: Seq<XliffToken>,
    ts: Seq<TranslatedString>,
    i: int,
    st: UnitState,
) -> Result<Seq<Edit>, Seq<char>>
    decreases toks.len() - i,
{
    if i < 0 || i >= toks.len() {
        Ok(seq![])
    } else {
        let tok = toks[i];
        match tok.event {
            XliffEvent::Start(t) => {
                if is_tag(t, "trans-unit"@) {
                    xliff_edits(toks, ts, i + 1, UnitState { in_unit: true, id: unit_id(t), ..st })
                } else if is_tag(t, "target"@) && st.in_unit {
                    xliff_edits(
                        toks,
                        ts,
                        i + 1,
                        UnitState { in_target: true, target_start: tok.after as int, ..st },
                    )
                } else {
                    xliff_edits(toks, ts, i + 1, st)
                }
            },
            XliffEvent::Empty(t) => {
                if is_tag(t, "target"@) && st.in_unit {
                    match unit_translation(ts, st.id) {
                        Some(tr) => prepend(
                            (tok.before as int, tok.after as int, target_element(tr)),
                            xliff_edits(toks, ts, i + 1, st),
                        ),
                        None => xliff_edits(toks, ts, i + 1, st),
                    }
                } else if is_tag(t, "target"@) {
                    xliff_edits(toks, ts, i + 1, UnitState { in_target: false, ..st })
                } else {
                    xliff_edits(toks, ts, i + 1, st)
                }
            },
            XliffEvent::Text(_) => {
                if st.in_target {
                    match unit_translation(ts, st.id) {
                        Some(tr) => prepend(
                            (st.target_start, tok.after as int, xml_escaped(tr)),
                            xliff_edits(toks, ts, i + 1, st),
                        ),
                        None => xliff_edits(toks, ts, i + 1, st),
                    }
                } else {
                    xliff_edits(toks, ts, i + 1, st)
                }
            },
            XliffEvent::End(n) => {
                if local_name(n@) == "target"@ {
                    xliff_edits(toks, ts, i + 1, UnitState { in_target: false, ..st })
                } else if local_name(n@) == "trans-unit"@ {
                    xliff_edits(toks, ts, i + 1, UnitState { in_unit: false, ..st })
                } else {
                    xliff_edits(toks, ts, i + 1, st)
                }
            },
            XliffEvent::Eof => Ok(seq![]),
            XliffEvent::Error(m) => Err(m@),
            XliffEvent::Other => xliff_edits(toks, ts, i + 1, st),
        }
    }
}

pub open spec fn start_state() -> UnitState {
    UnitState { in_unit: false, in_target: false, id: seq![], target_start: 0 }
}

/// The byte range `[a, b)` of `s` can be replaced: it is in order and both
/// ends fall between chars.
pub open spec fn range_ok(s: Seq<char>, a: int, b: int) -> bool {
    a <= b && is_boundary(s, a) && is_boundary(s, b)
}

/// `s` with the bytes `[a, b)` replaced by `t`.
pub open spec fn replace_bytes(s: Seq<char>, a: int, b: int, t: Seq<char>) -> Seq<char> {
    s.subrange(0, char_at_byte(s, a)) + t + s.subrange(char_at_byte(s, b), s.len() as int)
}

/// The edits applied one by one from the last to the first, each to the text
/// as the later ones left it; `None` where an edit's range cannot be
/// replaced.
pub open spec fn apply_backwards(s: Seq<char>, edits: Seq<Edit>) -> Option<Seq<char>>
    decreases edits.len(),
{
    if edits.len() == 0 {
        Some(s)
    } else {
        let e = edits.last();
        if range_ok(s, e.0, e.1) {
            apply_backwards(replace_bytes(s, e.0, e.1, e.2), edits.drop_last())
        } else {
            None
        }
    }
}

/// An edit over byte offsets.
pub struct ByteEdit {
    pub start: u64,
    pub end: u64,
    pub text: Vec<char>,
}

pub open spec fn byte_edits_view(es: Seq<ByteEdit>) -> Seq<Edit> {
    es.map_values(|e: ByteEdit| (e.start as int, e.end as int, e.text@))
}

/// Applies the edits from the last to the first.
fn apply_edits_backwards(s: Vec<char>, edits: &Vec<ByteEdit>) -> (r: Option<Vec<char>>)
    ensures
        match r {
            Some(v) => apply_backwards(s@, byte_edits_view(edits@)) == Some(v@),
            None => apply_backwards(s@, byte_edits_view(edits@)) is None,
        },
{
    let ghost all = byte_edits_view(edits@);
    let mut cur = s;
    let mut k = edits.len();
    assert(all.take(k as int) =~= all);
    while k > 0
        invariant
            k <= edits@.len(),
            all == byte_edits_view(edits@),
            apply_backwards(s@, all) == apply_backwards(cur@, all.take(k as int)),
        decreases k,
    {
        let e = &edits[k - 1];
        let ghost part = all.take(k as int);
        assert(part.last() == (e.start as int, e.end as int, e.text@));
        assert(part.drop_last() =~= all.take(k - 1));
        if e.start > e.end {
            return None;
        }
        let a = match char_index_at_byte(&cur, e.start) {
            Some(a) => a,
            None => {
                return None;
            },
        };
        let b = match char_index_at_byte(&cur, e.end) {
            Some(b) => b,
            None => {
                return None;
            },
        };
        proof {
            if a > b {
                lemma_byte_at_mono(cur@, b as int, a as int);
            }
        }
        let mut next: Vec<char> = Vec::new();
        push_range(&mut next, &cur, 0, a);
        push_all(&mut next, &e.text);
        push_range(&mut next, &cur, b, cur.len());
        assert(next@ =~= replace_bytes(cur@, e.start as int, e.end as int, e.text@));
        cur = next;
        k = k - 1;
    }
    assert(all.take(0) =~= Seq::<Edit>::empty());
    Some(cur)
}

fn strip_of(id: &String) -> (r: Vec<char>)
    ensures
        r@ == strip_source_prefix(id@),
{
    let c = chars_of(id.as_str());
    let p = chars_of("xliff.");
    let mut matched = p.len() <= c.len();
    let mut k: usize = 0;
    while matched && k < p.len()
        invariant
            k <= p@.len(),
            matched ==> p@.len() <= c@.len(),
            matched ==> forall|j: int| 0 <= j < k ==> c@[j] == p@[j],
            !matched ==> !starts_with(c@, p@),
        decreases p@.len() - k,
    {
        if c[k] != p[k] {
            matched = false;
        }
        k = k + 1;
    }
    if matched {
        assert(c@.take(p@.len() as int) =~= p@);
        let mut r: Vec<char> = Vec::new();
        push_range(&mut r, &c, p.len(), c.len());
        assert(r@ =~= c@.skip(p@.len() as int));
        r
    } else {
        c
    }
}

fn unit_translation_of(ts: &[TranslatedString], id: &String) -> (r: Option<String>)
    ensures
        match r {
            Some(t) => unit_translation(ts@, id@) == Some(t@),
            None => unit_translation(ts@, id@) is None,
        },
{
    let want = chars_of(id.as_str());
    let mut k = ts.len();
    assert(ts@.take(k as int) =~= ts@);
    while k > 0
        invariant
            k <= ts@.len(),
            want@ == id@,
            unit_translation(ts@, id@) == unit_translation(ts@.take(k as int), id@),
        decreases k,
    {
        assert(ts@.take(k as int).drop_last() =~= ts@.take(k - 1));
        let s = strip_of(&ts[k - 1].id);
        if chars_eq(&s, &want) {
            return Some(ts[k - 1].translated_text.clone());
        }
        k = k - 1;
    }
    None
}

/// Appends `t` as XML text.
fn push_escaped(r: &mut Vec<char>, t: &[char])
    ensures
        final(r)@ == old(r)@ + xml_escaped(t@),
{
    let ghost r0 = r@;
    let mut i: usize = 0;
    assert(xml_escaped(t@.take(0)) =~= Seq::<char>::empty());
    assert(r0 + Seq::<char>::empty() =~= r0);
    while i < t.len()
        invariant
            i <= t@.len(),
            r@ == r0 + xml_escaped(t@.take(i as int)),
        decreases t@.len() - i,
    {
        let c = t[i];
        assert(t@.take(i + 1).drop_last() =~= t@.take(i as int));
        assert(t@.take(i + 1).last() == c);
        if c == '&' {
            r.push('&');
            r.push('a');
            r.push('m');
            r.push('p');
            r.push(';');
        } else if c == '<' {
            r.push('&');
            r.push('l');
            r.push('t');
            r.push(';');
        } else if c == '>' {
            r.push('&');
            r.push('g');
            r.push('t');
            r.push(';');
        } else {
            r.push(c);
        }
        assert(r@ =~= r0 + xml_escaped(t@.take(i + 1)));
        i = i + 1;
    }
    assert(t@.take(t@.len() as int) =~= t@);
}

/// `t` as XML text.
fn escaped_of(t: &String) -> (r: Vec<char>)
    ensures
        r@ == xml_escaped(t@),
{
    let mut r: Vec<char> = Vec::new();
    let c = chars_of(t.as_str());
    push_escaped(&mut r, &c);
    assert(r@ =~= xml_escaped(t@));
    r
}

fn target_element_of(t: &String) -> (r: Vec<char>)
    ensures
        r@ == target_element(t@),
{
    let mut r = chars_of("<target>");
    let c = chars_of(t.as_str());
    push_escaped(&mut r, &c);
    let close = chars_of("</target>");
    push_all(&mut r, &close);
    r
}

/// The edits that a document's events call for, or the message of the
/// reader's error.
pub fn edits_of_tokens(toks: &[XliffToken], translations: &[TranslatedString]) -> (r: Result<
    Vec<ByteEdit>,
    String,
>)
    ensures
        match xliff_edits(toks@, translations@, 0, start_state()) {
            Ok(es) => r is Ok && byte_edits_view(r.unwrap()@) == es,
            Err(m) => r matches Err(msg) && msg@ == m,
        },
{
    let ghost goal = xliff_edits(toks@, translations@, 0, start_state());
    let mut acc: Vec<ByteEdit> = Vec::new();
    let mut in_unit = false;
    let mut in_target = false;
    let mut id = String::new();
    let mut target_start: u64 = 0;
    let mut i: usize = 0;
    assert(after(byte_edits_view(acc@), goal) =~= goal) by {
        assert(byte_edits_view(acc@) =~= Seq::<Edit>::empty());
        match goal {
            Ok(v) => {
                assert(byte_edits_view(acc@) + v =~= v);
            },
            Err(_) => {},
        }
    }
    while i < toks.len()
        invariant
            i <= toks@.len(),
            goal == xliff_edits(toks@, translations@, 0, start_state()),
            after(
                byte_edits_view(acc@),
                xliff_edits(
                    toks@,
                    translations@,
                    i as int,
                    UnitState { in_unit, in_target, id: id@, target_start: target_start as int },
                ),
            ) == goal,
        decreases toks@.len() - i,
    {
        let tok = &toks[i];
        let ghost st = UnitState { in_unit, in_target, id: id@, target_start: target_start as int };
        let ghost old_acc = byte_edits_view(acc@);
        match &tok.event {
            XliffEvent::Start(t) => {
                if has_local(&t.name, "trans-unit") {
                    in_unit = true;
                    id = unit_id_of(t);
                } else if has_local(&t.name, "target") && in_unit {
                    in_target = true;
                    target_start = tok.after;
                }
            },
            XliffEvent::Empty(t) => {
                if has_local(&t.name, "target") && in_unit {
                    match unit_translation_of(translations, &id) {
                        Some(tr) => {
                            let text = target_element_of(&tr);
                            acc.push(ByteEdit { start: tok.before, end: tok.after, text });
                            proof {
                                let e = (tok.before as int, tok.after as int, target_element(tr@));
                                assert(byte_edits_view(acc@) =~= old_acc.push(e));
                                match xliff_edits(toks@, translations@, i + 1, st) {
                                    Ok(v) => {
                                        assert(old_acc + (seq![e] + v) =~= byte_edits_view(acc@)
                                            + v);
                                    },
                                    Err(_) => {},
                                }
                            }
                        },
                        None => {},
                    }
                } else if has_local(&t.name, "target") {
                    in_target = false;
                }
            },
            XliffEvent::Text(_) => {
                if in_target {
                    match unit_translation_of(translations, &id) {
                        Some(tr) => {
                            let text = escaped_of(&tr);
                            acc.push(ByteEdit { start: target_start, end: tok.after, text });
                            proof {
                                let e = (target_start as int, tok.after as int, xml_escaped(tr@));
                                assert(byte_edits_view(acc@) =~= old_acc.push(e));
                                match xliff_edits(toks@, translations@, i + 1, st) {
                                    Ok(v) => {
                                        assert(old_acc + (seq![e] + v) =~= byte_edits_view(acc@)
                                            + v);
                                    },
                                    Err(_) => {},
                                }
                            }
                        },
                        None => {},
                    }
                }
            },
            XliffEvent::End(n) => {
                if has_local(n, "target") {
                    in_target = false;
                } else if has_local(n, "trans-unit") {
                    in_unit = false;
                }
            },
            XliffEvent::Eof => {
                assert(byte_edits_view(acc@) + seq![] =~= byte_edits_view(acc@));
                return Ok(acc);
            },
            XliffEvent::Error(m) => {
                return Err(m.clone());
            },
            XliffEvent::Other => {},
        }
        i = i + 1;
    }
    assert(byte_edits_view(acc@) + seq![] =~= byte_edits_view(acc@));
    Ok(acc)
}

pub open spec fn edit_error_message() -> Seq<char> {
    "XLIFF edit does not fall between characters"@
}

/// `r` is what rebuilding `original` from its events gives.
pub open spec fn reconstruct_result(
    r: Result<String, ZelligError>,
    original: Seq<char>,
    toks: Seq<XliffToken>,
    ts: Seq<TranslatedString>,
) -> bool {
    match xliff_edits(toks, ts, 0, start_state()) {
        Err(m) => r matches Err(ZelligError::ConfigError(msg)) && msg@ == parse_error_message(m),
        Ok(es) => match apply_backwards(original, es) {
            Some(t) => r is Ok && r.unwrap()@ == t,
            None => r matches Err(ZelligError::ConfigError(msg)) && msg@ == edit_error_message(),
        },
    }
}

/// `original` rebuilt from its events with the translations in place.
pub fn reconstruct_tokens(
    original: &str,
    toks: &[XliffToken],
    translations: &[TranslatedString],
) -> (r: Result<String, ZelligError>)
    ensures
        reconstruct_result(r, original@, toks@, translations@),
{
    match edits_of_tokens(toks, translations) {
        Err(m) => Err(parse_error(&m)),
        Ok(edits) => {
            let s = chars_of(original);
            match apply_edits_backwards(s, &edits) {
                Some(v) => Ok(string_of(&v)),
                None => Err(ZelligError::ConfigError(String::from_str("XLIFF edit does not fall between characters"))),
            }
        },
    }
}

/// The handler of XLIFF files.
pub struct XliffHandler;

impl XliffHandler {
    pub fn new() -> Self {
        XliffHandler
    }

    /// The text of every `<source>`, trimmed, under the id `xliff.` and the id
    /// of its `<trans-unit>`, as read from the document's events.
    pub fn extract(&self, content: &str) -> (r: Result<Vec<TranslatableString>, ZelligError>)
        ensures
            exists|toks: Seq<XliffToken>|
                xml_tokens_of(toks, content@) && extract_result(
                    r,
                    xliff_strings(toks, 0, false, seq![]),
                ),
    {
        let toks = read_tokens(content);
        extract_tokens(&toks)
    }

    /// `original` with each unit's `<target>` filled with its translation,
    /// as read from the document's events.
    pub fn reconstruct(&self, original: &str, translations: &[TranslatedString]) -> (r: Result<
        String,
        ZelligError,
    >)
        ensures
            exists|toks: Seq<XliffToken>|
                xml_tokens_of(toks, original@) && reconstruct_result(
                    r,
                    original@,
                    toks,
                    translations@,
                ),
    {
        let toks = read_tokens(original);
        reconstruct_tokens(original, &toks, translations)
    }
}

impl Default for XliffHandler {
    fn default() -> (r: Self)
        ensures
            r == XliffHandler,
    {
        XliffHandler
    }
}

// ---------------------------------------------------------------------------
// Laws
// ---------------------------------------------------------------------------
proof fn lemma_no_edits(toks: Seq<XliffToken>, ts: Seq<TranslatedString>, i: int, st: UnitState)
    requires
        forall|id: Seq<char>| #[trigger] unit_translation(ts, id) is None,
    ensures
        xliff_edits(toks, ts, i, st) matches Ok(es) ==> es.len() == 0,
    decreases toks.len() - i,
{
    if 0 <= i < toks.len() {
        let tok = toks[i];
        match tok.event {
            XliffEvent::Start(t) => {
                if is_tag(t, "trans-unit"@) {
                    lemma_no_edits(toks, ts, i + 1, UnitState { in_unit: true, id: unit_id(t), ..st });
                } else if is_tag(t, "target"@) && st.in_unit {
                    lemma_no_edits(
                        toks,
                        ts,
                        i + 1,
                        UnitState { in_target: true, target_start: tok.after as int, ..st },
                    );
                } else {
                    lemma_no_edits(toks, ts, i + 1, st);
                }
            },
            XliffEvent::Empty(t) => {
                assert(unit_translation(ts, st.id) is None);
                if is_tag(t, "target"@) && st.in_unit {
                    lemma_no_edits(toks, ts, i + 1, st);
                } else if is_tag(t, "target"@) {
                    lemma_no_edits(toks, ts, i + 1, UnitState { in_target: false, ..st });
                } else {
                    lemma_no_edits(toks, ts, i + 1, st);
                }
            },
            XliffEvent::Text(_) => {
                assert(unit_translation(ts, st.id) is None);
                lemma_no_edits(toks, ts, i + 1, st);
            },
            XliffEvent::End(n) => {
                if local_name(n@) == "target"@ {
                    lemma_no_edits(toks, ts, i + 1, UnitState { in_target: false, ..st });
                } else if local_name(n@) == "trans-unit"@ {
                    lemma_no_edits(toks, ts, i + 1, UnitState { in_unit: false, ..st });
                } else {
                    lemma_no_edits(toks, ts, i + 1, st);
                }
            },
            XliffEvent::Other => {
                lemma_no_edits(toks, ts, i + 1, st);
            },
            _ => {},
        }
    }
}

/// Without a translation for any unit the document comes back as it was
/// (unless the reader fails).
pub proof fn law_xliff_untranslated_document_unchanged(
    original: Seq<char>,
    toks: Seq<XliffToken>,
    ts: Seq<TranslatedString>,
)
    requires
        forall|id: Seq<char>| #[trigger] unit_translation(ts, id) is None,
    ensures
        xliff_edits(toks, ts, 0, start_state()) matches Ok(es) ==> apply_backwards(original, es)
            == Some(original),
{
    lemma_no_edits(toks, ts, 0, start_state());
}

/// The id under which a unit's source text is extracted leads back to that
/// unit.
pub proof fn law_xliff_source_id_names_unit(id: Seq<char>)
    ensures
        strip_source_prefix(source_id(id)) == id,
{
    let s = source_id(id);
    assert(s.take("xliff."@.len() as int) =~= "xliff."@);
    assert(s.skip("xliff."@.len() as int) =~= id);
}

/// How reconstruction's reading state changes at a token.
pub open spec fn step_state(tok: XliffToken, st: UnitState) -> UnitState {
    match tok.event {
        XliffEvent::Start(t) => if is_tag(t, "trans-unit"@) {
            UnitState { in_unit: true, id: unit_id(t), ..st }
        } else if is_tag(t, "target"@) && st.in_unit {
            UnitState { in_target: true, target_start: tok.after as int, ..st }
        } else {
            st
        },
        XliffEvent::Empty(t) => if is_tag(t, "target"@) && !st.in_unit {
            UnitState { in_target: false, ..st }
        } else {
            st
        },
        XliffEvent::End(n) => if local_name(n@) == "target"@ {
            UnitState { in_target: false, ..st }
        } else if local_name(n@) == "trans-unit"@ {
            UnitState { in_unit: false, ..st }
        } else {
            st
        },
        _ => st,
    }
}

/// The edit that reconstruction makes at a token, if any.
pub open spec fn step_edits(tok: XliffToken, ts: Seq<TranslatedString>, st: UnitState) -> Seq<Edit> {
    match tok.event {
        XliffEvent::Empty(t) => if is_tag(t, "target"@) && st.in_unit {
            match unit_translation(ts, st.id) {
                Some(tr) => seq![(tok.before as int, tok.after as int, target_element(tr))],
                None => seq![],
            }
        } else {
            seq![]
        },
        XliffEvent::Text(_) => if st.in_target {
            match unit_translation(ts, st.id) {
                Some(tr) => seq![(st.target_start, tok.after as int, xml_escaped(tr))],
                None => seq![],
            }
        } else {
            seq![]
        },
        _ => seq![],
    }
}

/// The reading state after the first `k` tokens.
pub open spec fn state_after(toks: Seq<XliffToken>, k: int) -> UnitState
    decreases k,
{
    if k <= 0 {
        start_state()
    } else {
        step_state(toks[k - 1], state_after(toks, k - 1))
    }
}

/// The edits made at the first `k` tokens.
pub open spec fn edits_before(toks: Seq<XliffToken>, ts: Seq<TranslatedString>, k: int) -> Seq<Edit>
    decreases k,
{
    if k <= 0 {
        seq![]
    } else {
        edits_before(toks, ts, k - 1) + step_edits(toks[k - 1], ts, state_after(toks, k - 1))
    }
}

pub open spec fn ends_stream(ev: XliffEvent) -> bool {
    ev is Eof || ev is Error
}

proof fn lemma_xliff_step(toks: Seq<XliffToken>, ts: Seq<TranslatedString>, i: int, st: UnitState)
    requires
        0 <= i < toks.len(),
        !ends_stream(toks[i].event),
    ensures
        xliff_edits(toks, ts, i, st) == after(
            step_edits(toks[i], ts, st),
            xliff_edits(toks, ts, i + 1, step_state(toks[i], st)),
        ),
{
    let r = xliff_edits(toks, ts, i + 1, step_state(toks[i], st));
    match r {
        Ok(v) => {
            assert(Seq::<Edit>::empty() + v =~= v);
        },
        Err(_) => {},
    }
}

proof fn lemma_xliff_prefix(toks: Seq<XliffToken>, ts: Seq<TranslatedString>, k: int)
    requires
        0 <= k <= toks.len(),
        forall|m: int| 0 <= m < k ==> !ends_stream(#[trigger] toks[m].event),
    ensures
        xliff_edits(toks, ts, 0, start_state()) == after(
            edits_before(toks, ts, k),
            xliff_edits(toks, ts, k, state_after(toks, k)),
        ),
    decreases k,
{
    if k == 0 {
        match xliff_edits(toks, ts, 0, start_state()) {
            Ok(v) => {
                assert(Seq::<Edit>::empty() + v =~= v);
            },
            Err(_) => {},
        }
    } else {
        lemma_xliff_prefix(toks, ts, k - 1);
        lemma_xliff_step(toks, ts, k - 1, state_after(toks, k - 1));
        let a = edits_before(toks, ts, k - 1);
        let b = step_edits(toks[k - 1], ts, state_after(toks, k - 1));
        match xliff_edits(toks, ts, k, state_after(toks, k)) {
            Ok(v) => {
                assert(a + (b + v) =~= (a + b) + v);
            },
            Err(_) => {},
        }
    }
}

/// Between a `<trans-unit>` and a later token with no unit start or end in
/// between, the reader is in that unit.
proof fn lemma_in_unit(toks: Seq<XliffToken>, i: int, k: int)
    requires
        0 <= i < k <= toks.len(),
        toks[i].event matches XliffEvent::Start(t) && is_tag(t, "trans-unit"@),
        forall|m: int|
            i < m < k ==> !((#[trigger] toks[m].event matches XliffEvent::Start(t2) && is_tag(
                t2,
                "trans-unit"@,
            ))) && !(toks[m].event matches XliffEvent::End(n) && local_name(n@) == "trans-unit"@),
    ensures
        state_after(toks, k).in_unit,
        toks[i].event matches XliffEvent::Start(t) && state_after(toks, k).id == unit_id(t),
    decreases k - i,
{
    if k > i + 1 {
        lemma_in_unit(toks, i, k - 1);
        let st = state_after(toks, k - 1);
        match toks[k - 1].event {
            XliffEvent::End(n) => {
                if local_name(n@) == "target"@ {
                } else {
                    assert(local_name(n@) != "trans-unit"@);
                }
            },
            _ => {},
        }
    }
}

/// A translation for a unit fills the unit's empty `<target/>`: when the
/// reader reaches it (no end or error before it) with no other unit opened
/// or closed between the `<trans-unit>` and it, the edits of a document
/// that reads to the end put `<target>` and the escaped translation in its
/// place.
pub proof fn law_xliff_translation_fills_unit(
    toks: Seq<XliffToken>,
    ts: Seq<TranslatedString>,
    i: int,
    j: int,
)
    requires
        0 <= i < j < toks.len(),
        toks[i].event matches XliffEvent::Start(t) && is_tag(t, "trans-unit"@) && unit_translation(
            ts,
            unit_id(t),
        ) is Some,
        toks[j].event matches XliffEvent::Empty(g) && is_tag(g, "target"@),
        forall|m: int| 0 <= m < j ==> !ends_stream(#[trigger] toks[m].event),
        forall|m: int|
            i < m < j ==> !((#[trigger] toks[m].event matches XliffEvent::Start(t2) && is_tag(
                t2,
                "trans-unit"@,
            ))) && !(toks[m].event matches XliffEvent::End(n) && local_name(n@) == "trans-unit"@),
    ensures
        xliff_edits(toks, ts, 0, start_state()) matches Ok(es) ==> toks[i].event matches XliffEvent::Start(
            t,
        ) && exists|k: int|
            0 <= k < es.len() && #[trigger] es[k] == (
                toks[j].before as int,
                toks[j].after as int,
                target_element(unit_translation(ts, unit_id(t)).unwrap()),
            ),
{
    lemma_xliff_prefix(toks, ts, j);
    lemma_in_unit(toks, i, j);
    let st = state_after(toks, j);
    lemma_xliff_step(toks, ts, j, st);
    let pre = edits_before(toks, ts, j);
    let e = step_edits(toks[j], ts, st);
    match xliff_edits(toks, ts, 0, start_state()) {
        Ok(es) => {
            match xliff_edits(toks, ts, j + 1, step_state(toks[j], st)) {
                Ok(v) => {
                    assert(es == pre + (e + v));
                    assert(e.len() == 1);
                    assert(es[pre.len() as int] == e[0]);
                },
                Err(_) => {},
            }
        },
        Err(_) => {},
    }
}

/// XML text read back: `&amp;`, `&lt;` and `&gt;` as the chars they stand
/// for, every other char as itself.
pub open spec fn xml_unescaped(s: Seq<char>) -> Seq<char>
    decreases s.len(),
{
    if s.len() == 0 {
        seq![]
    } else if s.len() >= 5 && s.take(5) == seq!['&', 'a', 'm', 'p', ';'] {
        seq!['&'] + xml_unescaped(s.skip(5))
    } else if s.len() >= 4 && s.take(4) == seq!['&', 'l', 't', ';'] {
        seq!['<'] + xml_unescaped(s.skip(4))
    } else if s.len() >= 4 && s.take(4) == seq!['&', 'g', 't', ';'] {
        seq!['>'] + xml_unescaped(s.skip(4))
    } else {
        seq![s[0]] + xml_unescaped(s.skip(1))
    }
}

proof fn lemma_xml_escaped_front(t: Seq<char>)
    requires
        t.len() > 0,
    ensures
        xml_escaped(t) == xml_escape_char(t[0]) + xml_escaped(t.drop_first()),
    decreases t.len(),
{
    if t.len() == 1 {
        assert(t.drop_last() =~= Seq::<char>::empty());
        assert(t.drop_first() =~= Seq::<char>::empty());
        assert(xml_escaped(t.drop_first()) =~= Seq::<char>::empty());
        assert(xml_escaped(t) =~= xml_escape_char(t[0]));
    } else {
        lemma_xml_escaped_front(t.drop_last());
        assert(t.drop_last().drop_first() =~= t.drop_first().drop_last());
        assert(t.drop_first().last() == t.last());
        assert(xml_escaped(t) =~= xml_escape_char(t[0]) + xml_escaped(t.drop_first()));
    }
}

/// Reading back one escaped char, then the rest.
proof fn lemma_xml_unescape_step(c: char, rest: Seq<char>)
    ensures
        xml_unescaped(xml_escape_char(c) + rest) == seq![c] + xml_unescaped(rest),
{
    let e = xml_escape_char(c);
    let s = e + rest;
    if c == '&' {
        assert(s.take(5) =~= e);
        assert(s.skip(5) =~= rest);
    } else if c == '<' {
        assert(s.take(4) =~= e);
        assert(s.skip(4) =~= rest);
        if s.len() >= 5 {
            assert(s.take(5)[1] == 'l');
        }
    } else if c == '>' {
        assert(s.take(4) =~= e);
        assert(s.skip(4) =~= rest);
        if s.len() >= 5 {
            assert(s.take(5)[1] == 'g');
        }
        assert(s.take(4)[1] == 'g');
    } else {
        assert(s[0] == c);
        assert(s.len() >= 5 ==> s.take(5)[0] == c);
        assert(s.len() >= 4 ==> s.take(4)[0] == c);
        assert(s.skip(1) =~= rest);
    }
}

/// Escaping loses nothing: reading the escaped text back as XML gives the
/// text itself, every char of it, so a translation written into a
/// `<target>` reads back as the translation.
pub proof fn law_xml_escape_round_trip(t: Seq<char>)
    ensures
        xml_unescaped(xml_escaped(t)) == t,
    decreases t.len(),
{
    if t.len() > 0 {
        lemma_xml_escaped_front(t);
        law_xml_escape_round_trip(t.drop_first());
        lemma_xml_unescape_step(t[0], xml_escaped(t.drop_first()));
        assert(seq![t[0]] + t.drop_first() =~= t);
    } else {
        assert(xml_escaped(t) =~= Seq::<char>::empty());
    }
}

/// Escaping changes only `&`, `<` and `>`: a text without them is written
/// as it is, whatever other chars it holds.
pub proof fn law_xml_escape_keeps_plain_text(t: Seq<char>)
    requires
        forall|i: int| 0 <= i < t.len() ==> #[trigger] t[i] != '&' && t[i] != '<' && t[i] != '>',
    ensures
        xml_escaped(t) == t,
    decreases t.len(),
{
    if t.len() > 0 {
        let u = t.drop_last();
        assert forall|i: int| 0 <= i < u.len() implies #[trigger] u[i] != '&' && u[i] != '<' && u[i]
            != '>' by {
            assert(u[i] == t[i]);
        }
        law_xml_escape_keeps_plain_text(u);
        assert(t[t.len() - 1] != '&');
        assert(u.push(t.last()) =~= t);
    } else {
        assert(xml_escaped(t) =~= t);
    }
}

} // verus!

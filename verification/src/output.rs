//! Terminal styling and the frames around a file's report.
use crate::text::{blen, chars_of, string_of};
use vstd::prelude::*;

verus! {

/// `s` between the escape codes that switch the style `code` on and off.
pub open spec fn styled(code: Seq<char>, s: Seq<char>) -> Seq<char> {
    "\x1b["@ + code + "m"@ + s + "\x1b[0m"@
}

fn style(code: &str, s: &str) -> (r: String)
    ensures
        r@ == styled(code@, s@),
{
    let mut r = String::from_str("\x1b[");
    r.append(code);
    r.append("m");
    r.append(s);
    r.append("\x1b[0m");
    r
}

pub fn green(s: &str) -> (r: String)
    ensures
        r@ == styled("32"@, s@),
{
    style("32", s)
}

pub fn dim(s: &str) -> (r: String)
    ensures
        r@ == styled("2"@, s@),
{
    style("2", s)
}

pub fn bold(s: &str) -> (r: String)
    ensures
        r@ == styled("1"@, s@),
{
    style("1", s)
}

pub fn red(s: &str) -> (r: String)
    ensures
        r@ == styled("31"@, s@),
{
    style("31", s)
}

/// A horizontal rule of `n` box-drawing chars.
pub open spec fn rule(n: nat) -> Seq<char> {
    Seq::new(n, |i: int| '\u{2500}')
}

fn push_rule(out: &mut Vec<char>, n: usize)
    ensures
        final(out)@ == old(out)@ + rule(n as nat),
{
    let mut k: usize = 0;
    while k < n
        invariant
            k <= n,
            out@ == old(out)@ + rule(k as nat),
        decreases n - k,
    {
        out.push('\u{2500}');
        k = k + 1;
        assert(out@ =~= old(out)@ + rule(k as nat));
    }
}

/// The length of the rule after a title of `n` bytes: what is left of 48
/// once the title and two spaces are counted, or nothing.
pub open spec fn header_pad(n: nat) -> nat {
    if n + 2 >= 48 {
        0
    } else {
        (48 - (n + 2)) as nat
    }
}

/// A section header: the title in bold, then a rule filling the line.
pub fn header(title: &str) -> (r: String)
    ensures
        r@ == " "@ + styled("1"@, title@) + " "@ + rule(header_pad(blen(title@))),
{
    let n = title.as_bytes().len();
    let pad: usize = if n >= 46 {
        0
    } else {
        46 - n
    };
    let mut out = chars_of(" ");
    let b = bold(title);
    let bc = chars_of(b.as_str());
    crate::text::push_all(&mut out, &bc);
    let sp = chars_of(" ");
    crate::text::push_all(&mut out, &sp);
    push_rule(&mut out, pad);
    assert(n == blen(title@));
    assert(pad == header_pad(blen(title@)));
    assert(out@ =~= " "@ + styled("1"@, title@) + " "@ + rule(header_pad(blen(title@))));
    string_of(&out)
}

/// The line that closes a section.
pub fn footer() -> (r: String)
    ensures
        r@ == " "@ + rule(50),
{
    let mut out = chars_of(" ");
    push_rule(&mut out, 50);
    string_of(&out)
}

/// How a download count is written: as it is, in thousands, or in millions.
#[derive(Debug, Clone, Copy, PartialEq, Eq, Structural)]
pub enum DownloadsScale {
    Units,
    Thousands,
    Millions,
}

pub fn downloads_scale(n: i64) -> (r: DownloadsScale)
    ensures
        r == if n >= 1_000_000 {
            DownloadsScale::Millions
        } else if n >= 1_000 {
            DownloadsScale::Thousands
        } else {
            DownloadsScale::Units
        },
{
    if n >= 1_000_000 {
        DownloadsScale::Millions
    } else if n >= 1_000 {
        DownloadsScale::Thousands
    } else {
        DownloadsScale::Units
    }
}

} // verus!

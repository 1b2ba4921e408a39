//! Lingva: the text goes into the request's path, percent-encoded.
use crate::config::LingvaConfig;
use crate::error::ZelligError;
use crate::translator::{client_setup_error, http_client, trim_end_char, trim_end_slashes};
use vstd::prelude::*;
use vstd::utf8::encode_utf8;

verus! {

/// A client of a Lingva instance.
pub struct LingvaTranslator {
    pub client: reqwest::Client,
    pub instance_url: String,
}

impl LingvaTranslator {
    /// The instance's address loses its trailing slashes; fails only when
    /// no client can be set up.
    pub fn new(config: &LingvaConfig) -> (r: Result<Self, ZelligError>)
        ensures
            match r {
                Ok(t) => t.instance_url@ == trim_end_char(config.instance_url@, '/'),
                Err(e) => client_setup_error(e),
            },
    {
        let client = match http_client() {
            Ok(c) => c,
            Err(e) => {
                return Err(e);
            },
        };
        Ok(LingvaTranslator { client, instance_url: trim_end_slashes(config.instance_url.as_str()) })
    }
}

/// The bytes kept as they are in a path: letters, digits, `-`, `_`, `.`, `~`.
pub open spec fn unreserved(b: u8) -> bool {
    (65 <= b <= 90) || (97 <= b <= 122) || (48 <= b <= 57) || b == 45 || b == 95 || b == 46 || b
        == 126
}

/// An upper-case hexadecimal digit.
pub open spec fn upper_hex_digit(d: int) -> char {
    if d < 10 {
        (48 + d) as char
    } else {
        (55 + d) as char
    }
}

/// Each byte as itself when unreserved, else as `%` and two upper-case
/// hexadecimal digits.
pub open spec fn percent_encoded(bs: Seq<u8>) -> Seq<char>
    decreases bs.len(),
{
    if bs.len() == 0 {
        seq![]
    } else {
        let b = bs.last();
        percent_encoded(bs.drop_last()) + if unreserved(b) {
            seq![b as char]
        } else {
            seq!['%', upper_hex_digit(b as int / 16), upper_hex_digit(b as int % 16)]
        }
    }
}

fn upper_hex_char(d: u8) -> (c: char)
    requires
        d < 16,
    ensures
        c == upper_hex_digit(d as int),
{
    if d < 10 {
        (48 + d) as char
    } else {
        (55 + d) as char
    }
}

/// The UTF-8 bytes of `s`, percent-encoded for a URL path.
pub fn percent_encode_path(s: &str) -> (r: String)
    ensures
        r@ == percent_encoded(encode_utf8(s@)),
{
    let bs = s.as_bytes();
    let mut out: Vec<char> = Vec::new();
    let mut i: usize = 0;
    while i < bs.len()
        invariant
            i <= bs@.len(),
            bs@ == encode_utf8(s@),
            out@ == percent_encoded(bs@.take(i as int)),
        decreases bs@.len() - i,
    {
        let b = bs[i];
        assert(bs@.take(i + 1).drop_last() =~= bs@.take(i as int));
        if (65 <= b && b <= 90) || (97 <= b && b <= 122) || (48 <= b && b <= 57) || b == 45 || b
            == 95 || b == 46 || b == 126 {
            out.push(b as char);
        } else {
            out.push('%');
            out.push(upper_hex_char(b / 16));
            out.push(upper_hex_char(b % 16));
        }
        i = i + 1;
        assert(out@ =~= percent_encoded(bs@.take(i as int)));
    }
    assert(bs@.take(bs@.len() as int) =~= bs@);
    crate::text::string_of(&out)
}

/// The address of a request: instance, languages and the encoded text.
pub fn lingva_url(instance_url: &str, source: &str, target: &str, encoded: &str) -> (r: String)
    ensures
        r@ == instance_url@ + "/api/v1/"@ + source@ + "/"@ + target@ + "/"@ + encoded@,
{
    let mut r = String::from_str(instance_url);
    r.append("/api/v1/");
    r.append(source);
    r.append("/");
    r.append(target);
    r.append("/");
    r.append(encoded);
    r
}

} // verus!

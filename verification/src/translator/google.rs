//! Google Translate's public endpoint.
use crate::error::ZelligError;
use crate::translator::{client_setup_error, http_client, translation_error};
use sonic_rs::{JsonContainerTrait, JsonValueTrait};
use vstd::prelude::*;

verus! {

/// A client of Google Translate, which needs no settings.
pub struct GoogleTranslator {
    pub client: reqwest::Client,
}

impl GoogleTranslator {
    /// A client of its own, unless none can be set up.
    pub fn new() -> (r: Result<Self, ZelligError>)
        ensures
            r matches Err(e) ==> client_setup_error(e),
    {
        let client = match http_client() {
            Ok(c) => c,
            Err(e) => {
                return Err(e);
            },
        };
        Ok(GoogleTranslator { client })
    }
}

/// The texts of the pieces, one after the other.
pub open spec fn joined_pieces(pieces: Seq<Option<String>>) -> Seq<char>
    decreases pieces.len(),
{
    if pieces.len() == 0 {
        seq![]
    } else {
        joined_pieces(pieces.drop_last()) + match pieces.last() {
            Some(s) => s@,
            None => seq![],
        }
    }
}

/// What an answer of Google comes to.  `pieces` holds, for each item of the
/// answer's first array, its first element if that is a string; it is `None`
/// when the answer has no such array.  The texts are joined; an empty result
/// is an error.
pub fn google_outcome(pieces: Option<Vec<Option<String>>>) -> (r: Result<String, ZelligError>)
    ensures
        pieces is None ==> (r matches Err(ZelligError::TranslationError(m)) && m@
            == "invalid Google response"@),
        pieces is Some && joined_pieces(pieces.unwrap()@).len() == 0 ==> (r matches Err(
            ZelligError::TranslationError(m),
        ) && m@ == "empty translation"@),
        pieces is Some && joined_pieces(pieces.unwrap()@).len() > 0 ==> (r matches Ok(t) && t@
            == joined_pieces(pieces.unwrap()@)),
{
    let p = match pieces {
        Some(p) => p,
        None => {
            return Err(translation_error("invalid Google response"));
        },
    };
    let mut out = String::new();
    let mut k: usize = 0;
    while k < p.len()
        invariant
            k <= p@.len(),
            out@ == joined_pieces(p@.take(k as int)),
        decreases p@.len() - k,
    {
        assert(p@.take(k + 1).drop_last() =~= p@.take(k as int));
        match &p[k] {
            Some(s) => out.append(s.as_str()),
            None => {},
        }
        k = k + 1;
    }
    assert(p@.take(p@.len() as int) =~= p@);
    if out.as_str().is_empty() {
        return Err(translation_error("empty translation"));
    }
    Ok(out)
}

/// What Google's answer `body` holds, as `sonic_rs::from_slice` reads it:
/// `None` where it is no JSON; `Some(None)` where its first element is no
/// array; otherwise, for each item of that array, its first element where
/// that is a string.
pub uninterp spec fn google_pieces_of(body: Seq<u8>) -> Option<Option<Seq<Option<Seq<char>>>>>;

pub open spec fn piece_view(o: Option<String>) -> Option<Seq<char>> {
    match o {
        Some(s) => Some(s@),
        None => None,
    }
}

pub open spec fn pieces_view(x: Option<Vec<Option<String>>>) -> Option<Seq<Option<Seq<char>>>> {
    match x {
        Some(v) => Some(v@.map_values(|o: Option<String>| piece_view(o))),
        None => None,
    }
}

/// The texts of the pieces, one after the other.
pub open spec fn joined_texts(ps: Seq<Option<Seq<char>>>) -> Seq<char>
    decreases ps.len(),
{
    if ps.len() == 0 {
        seq![]
    } else {
        joined_texts(ps.drop_last()) + match ps.last() {
            Some(s) => s,
            None => seq![],
        }
    }
}

proof fn lemma_joined(v: Seq<Option<String>>)
    ensures
        joined_pieces(v) == joined_texts(v.map_values(|o: Option<String>| piece_view(o))),
    decreases v.len(),
{
    if v.len() > 0 {
        lemma_joined(v.drop_last());
        assert(v.drop_last().map_values(|o: Option<String>| piece_view(o)) =~= v.map_values(
            |o: Option<String>| piece_view(o),
        ).drop_last());
    }
}

/// `sonic_rs::from_slice` on Google's answer, then the first element of
/// each item of its first element: the pieces, or the parser's message.
#[verifier::external_body]
fn google_pieces(body: &[u8]) -> (r: Result<Option<Vec<Option<String>>>, String>)
    ensures
        match google_pieces_of(body@) {
            None => r is Err,
            Some(p) => r matches Ok(x) && pieces_view(x) == p,
        },
{
    match sonic_rs::from_slice::<sonic_rs::Value>(body) {
        Ok(v) => Ok(v[0].as_array().map(|items| items.iter().map(|item| item[0].as_str().map(|s| s.to_string())).collect())),
        Err(e) => Err(e.to_string()),
    }
}

/// What Google's answer comes to: an answer that is no JSON is a
/// translation error with the parser's message; one without the array of
/// pieces is "invalid Google response"; the texts of the pieces joined, or
/// "empty translation" when they are empty.
pub fn google_answer(body: &[u8]) -> (r: Result<String, ZelligError>)
    ensures
        match google_pieces_of(body@) {
            None => r matches Err(ZelligError::TranslationError(_)),
            Some(None) => r matches Err(ZelligError::TranslationError(m)) && m@
                == "invalid Google response"@,
            Some(Some(ps)) => if joined_texts(ps).len() == 0 {
                r matches Err(ZelligError::TranslationError(m)) && m@ == "empty translation"@
            } else {
                r matches Ok(t) && t@ == joined_texts(ps)
            },
        },
{
    match google_pieces(body) {
        Ok(pieces) => {
            proof {
                if pieces is Some {
                    lemma_joined(pieces.unwrap()@);
                }
            }
            google_outcome(pieces)
        },
        Err(m) => Err(ZelligError::TranslationError(m)),
    }
}

} // verus!

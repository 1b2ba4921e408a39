//! The local CTranslate2 model: how its output is cleaned and how long it may
//! get.  This build has no CTranslate2 backend.
use crate::error::ZelligError;
use crate::text::{blen, chars_of, is_whitespace, is_ws, push_all, str_is, string_of};
use vstd::prelude::*;

verus! {

/// The local translator.  Without a CTranslate2 backend it cannot be built.
pub struct LocalTranslator;

impl LocalTranslator {
    /// Refuses every model format: `ct2` because the backend is not in this
    /// build, any other because it is not supported.
    pub fn new(model_format: &str) -> (r: Result<LocalTranslator, ZelligError>)
        ensures
            model_format@ == "ct2"@ ==> (r matches Err(ZelligError::ConfigError(m)) && m@
                == "CT2 format not enabled. Compile with --features ct2rs"@),
            model_format@ != "ct2"@ ==> (r matches Err(ZelligError::ConfigError(m)) && m@
                == "Unsupported format: "@ + model_format@),
    {
        if str_is(model_format, "ct2") {
            Err(
                ZelligError::ConfigError(
                    String::from_str("CT2 format not enabled. Compile with --features ct2rs"),
                ),
            )
        } else {
            let mut m = String::from_str("Unsupported format: ");
            m.append(model_format);
            Err(ZelligError::ConfigError(m))
        }
    }
}

pub open spec fn unk_marker() -> Seq<char> {
    seq!['<', 'u', 'n', 'k', '>']
}

pub open spec fn unk_at(s: Seq<char>, i: int) -> bool {
    0 <= i && i + 5 <= s.len() && s.subrange(i, i + 5) == unk_marker()
}

pub open spec fn word_if_any(cur: Seq<char>) -> Seq<Seq<char>> {
    if cur.len() > 0 {
        seq![cur]
    } else {
        seq![]
    }
}

/// The words of `s[i..]`, where `cur` is the word begun so far: whitespace
/// and the marker `<unk>` separate words.
pub open spec fn unk_words(s: Seq<char>, i: int, cur: Seq<char>) -> Seq<Seq<char>>
    decreases s.len() - i,
{
    if i < 0 || i >= s.len() {
        word_if_any(cur)
    } else if unk_at(s, i) {
        word_if_any(cur) + unk_words(s, i + 5, seq![])
    } else if is_ws(s[i]) {
        word_if_any(cur) + unk_words(s, i + 1, seq![])
    } else {
        unk_words(s, i + 1, cur.push(s[i]))
    }
}

/// The words joined by single spaces.
pub open spec fn joined_words(ws: Seq<Seq<char>>) -> Seq<char>
    decreases ws.len(),
{
    if ws.len() == 0 {
        seq![]
    } else if ws.len() == 1 {
        ws[0]
    } else {
        joined_words(ws.drop_last()) + seq![' '] + ws.last()
    }
}

proof fn lemma_joined_push(ws: Seq<Seq<char>>, w: Seq<char>)
    ensures
        joined_words(ws.push(w)) == if ws.len() == 0 {
            w
        } else {
            joined_words(ws) + seq![' '] + w
        },
{
    assert(ws.push(w).drop_last() =~= ws);
}

/// `text.split("<unk>")`, each piece split at whitespace, the words joined by
/// single spaces.
pub fn clean_unk(text: &str) -> (r: String)
    ensures
        r@ == joined_words(unk_words(text@, 0, seq![])),
{
    let s = chars_of(text);
    let marker = chars_of("<unk>");
    let mut out: Vec<char> = Vec::new();
    let mut cur: Vec<char> = Vec::new();
    let ghost mut words: Seq<Seq<char>> = seq![];
    let mut first = true;
    let mut i: usize = 0;
    assert(marker@ =~= unk_marker()) by {
        reveal_strlit("<unk>");
    }
    while i < s.len()
        invariant
            i <= s@.len(),
            s@ == text@,
            marker@ == unk_marker(),
            out@ == joined_words(words),
            first == (words.len() == 0),
            words + unk_words(s@, i as int, cur@) == unk_words(s@, 0, seq![]),
        decreases s@.len() - i,
    {
        let mut is_unk = s.len() >= 5 && i <= s.len() - 5;
        let mut k: usize = 0;
        while is_unk && k < 5
            invariant
                k <= 5,
                i < s@.len(),
                marker@ == unk_marker(),
                is_unk ==> i + 5 <= s@.len() && forall|j: int| 0 <= j < k ==> s@[i + j] == marker@[j],
                !is_unk ==> !unk_at(s@, i as int),
                s.len() == s@.len(),
            decreases 5 - k,
        {
            if s[i + k] != marker[k] {
                proof {
                    if unk_at(s@, i as int) {
                        assert(s@.subrange(i as int, i + 5)[k as int] == s@[i + k]);
                    }
                }
                is_unk = false;
            }
            k = k + 1;
        }
        if is_unk {
            assert(s@.subrange(i as int, i + 5) =~= unk_marker());
        }
        let sep = is_unk || is_whitespace(s[i]);
        if sep {
            let ghost before = words;
            if cur.len() > 0 {
                if !first {
                    out.push(' ');
                }
                push_all(&mut out, &cur);
                first = false;
                proof {
                    lemma_joined_push(words, cur@);
                    words = words.push(cur@);
                    assert(out@ =~= joined_words(words));
                }
            }
            proof {
                assert(before + word_if_any(cur@) =~= words);
            }
            cur = Vec::new();
            i = if is_unk {
                i + 5
            } else {
                i + 1
            };
        } else {
            cur.push(s[i]);
            i = i + 1;
        }
    }
    let ghost before = words;
    if cur.len() > 0 {
        if !first {
            out.push(' ');
        }
        push_all(&mut out, &cur);
        proof {
            lemma_joined_push(words, cur@);
            words = words.push(cur@);
            assert(out@ =~= joined_words(words));
        }
    }
    assert(before + word_if_any(cur@) =~= words);
    string_of(&out)
}

/// The longest text, in bytes; 0 when there is none.
pub open spec fn longest(texts: Seq<String>) -> nat
    decreases texts.len(),
{
    if texts.len() == 0 {
        0
    } else {
        let m = longest(texts.drop_last());
        let b = blen(texts.last()@);
        if b > m {
            b
        } else {
            m
        }
    }
}

/// The decoding limit for a batch: half the longest text's bytes rounded to
/// a multiple of two, plus 10, at most `cap` and at least 20.
pub open spec fn max_decoding_length(texts: Seq<String>, cap: nat) -> nat {
    let base = longest(texts) / 4 * 2 + 10;
    let capped = if base < cap {
        base
    } else {
        cap
    };
    if capped > 20 {
        capped
    } else {
        20
    }
}

pub fn compute_max_decoding_length(texts: &[String], cap: usize) -> (r: usize)
    requires
        forall|k: int| 0 <= k < texts@.len() ==> blen(#[trigger] texts@[k]@) <= usize::MAX,
    ensures
        r == max_decoding_length(texts@, cap as nat),
{
    let mut m: usize = 0;
    let mut k: usize = 0;
    while k < texts.len()
        invariant
            k <= texts@.len(),
            m == longest(texts@.take(k as int)),
            forall|j: int| 0 <= j < texts@.len() ==> blen(#[trigger] texts@[j]@) <= usize::MAX,
        decreases texts@.len() - k,
    {
        assert(texts@.take(k + 1).drop_last() =~= texts@.take(k as int));
        let b = texts[k].as_str().len();
        assert(blen(texts@[k as int]@) <= usize::MAX);
        assert(b == blen(texts@[k as int]@));
        if b > m {
            m = b;
        }
        k = k + 1;
    }
    assert(texts@.take(texts@.len() as int) =~= texts@);
    let base = m / 4 * 2 + 10;
    let capped = if base < cap {
        base
    } else {
        cap
    };
    if capped > 20 {
        capped
    } else {
        20
    }
}

} // verus!

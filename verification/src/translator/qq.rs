//! QQ Fanyi (Tencent Cloud): requests signed with TC3-HMAC-SHA256, which
//! needs the request's date in the Gregorian calendar.
use crate::config::QqConfig;
use crate::error::ZelligError;
use crate::text::{chars_of, decimal, push_all, push_decimal, string_of};
use crate::translator::client_setup_error;
use crate::translator::sign::{hex_encode, hex_lower, hmac_sha256, hmac_sha256_of, sha256_hex, sha256_of};
use crate::translator::{http_client, translation_error};
use vstd::prelude::*;
use vstd::utf8::encode_utf8;

verus! {

/// A client of QQ Fanyi with its credentials and region.
pub struct QqTranslator {
    pub client: reqwest::Client,
    pub secret_id: String,
    pub secret_key: String,
    pub region: String,
}

impl QqTranslator {
    /// Needs both the secret id and the secret key.
    pub fn new(config: &QqConfig) -> (r: Result<Self, ZelligError>)
        ensures
            config.secret_id is None ==> (r matches Err(ZelligError::ConfigError(m)) && m@
                == "QQ secret_id not configured"@),
            config.secret_id is Some && config.secret_key is None ==> (r matches Err(
                ZelligError::ConfigError(m),
            ) && m@ == "QQ secret_key not configured"@),
            config.secret_id is Some && config.secret_key is Some ==> (match r {
                Ok(t) => t.secret_id == config.secret_id.unwrap() && t.secret_key
                == config.secret_key.unwrap() && t.region == config.region,
                Err(e) => client_setup_error(e),
            }),
    {
        let secret_id = match &config.secret_id {
            Some(a) => a.clone(),
            None => {
                return Err(ZelligError::ConfigError(String::from_str("QQ secret_id not configured")));
            },
        };
        let secret_key = match &config.secret_key {
            Some(k) => k.clone(),
            None => {
                return Err(ZelligError::ConfigError(String::from_str("QQ secret_key not configured")));
            },
        };
        let client = match http_client() {
            Ok(c) => c,
            Err(e) => {
                return Err(e);
            },
        };
        Ok(QqTranslator { client, secret_id, secret_key, region: config.region.clone() })
    }
}

// ---------------------------------------------------------------------------
// Dates
// ---------------------------------------------------------------------------
/// The Gregorian leap years.
pub open spec fn leap(y: int) -> bool {
    (y % 4 == 0 && y % 100 != 0) || y % 400 == 0
}

pub open spec fn days_in_year(y: int) -> int {
    if leap(y) {
        366
    } else {
        365
    }
}

/// The length of month `k` (from 0 for January).
pub open spec fn month_len(k: int, is_leap_year: bool) -> int {
    if k == 1 {
        if is_leap_year {
            29
        } else {
            28
        }
    } else if k == 3 || k == 5 || k == 8 || k == 10 {
        30
    } else {
        31
    }
}

/// The year that day `days`, counted from the first day of year `y`, falls
/// in, and the day of that year it is (from 0).
pub open spec fn year_of(days: int, y: int) -> (int, int)
    decreases days,
{
    if days < days_in_year(y) {
        (y, days)
    } else {
        year_of(days - days_in_year(y), y + 1)
    }
}

/// The month (from 1) that day `days` of the year falls in, counted from
/// month `k` (from 0), and the day of that month (from 0); 13 when the days
/// outrun the year.
pub open spec fn month_of(days: int, k: int, is_leap_year: bool) -> (int, int)
    decreases 12 - k,
{
    if k >= 12 {
        (13, days)
    } else if days < month_len(k, is_leap_year) {
        (k + 1, days)
    } else {
        month_of(days - month_len(k, is_leap_year), k + 1, is_leap_year)
    }
}

/// `s` with zeros in front up to `w` chars, as `{:0w}` writes a number.
pub open spec fn zero_padded(s: Seq<char>, w: nat) -> Seq<char> {
    if s.len() >= w {
        s
    } else {
        Seq::new((w - s.len()) as nat, |i: int| '0') + s
    }
}

/// The date, `YYYY-MM-DD`, of the day that `ts` seconds after 1970-01-01
/// falls on.
pub open spec fn date_text(ts: nat) -> Seq<char> {
    let (y, rest) = year_of(ts as int / 86400, 1970);
    let (m, d) = month_of(rest, 0, leap(y));
    zero_padded(decimal(y as nat), 4) + "-"@ + zero_padded(decimal(m as nat), 2) + "-"@
        + zero_padded(decimal((d + 1) as nat), 2)
}

pub fn is_leap(y: u32) -> (r: bool)
    ensures
        r == leap(y as int),
{
    (y % 4 == 0 && y % 100 != 0) || y % 400 == 0
}

fn push_padded(out: &mut Vec<char>, n: u64, w: usize)
    ensures
        final(out)@ == old(out)@ + zero_padded(decimal(n as nat), w as nat),
{
    let mut digits: Vec<char> = Vec::new();
    push_decimal(&mut digits, n);
    assert(digits@ =~= decimal(n as nat));
    if digits.len() < w {
        let mut k = digits.len();
        while k < w
            invariant
                digits@.len() <= k <= w,
                out@ == old(out)@ + Seq::new((k - digits@.len()) as nat, |i: int| '0'),
            decreases w - k,
        {
            out.push('0');
            k = k + 1;
            assert(out@ =~= old(out)@ + Seq::new((k - digits@.len()) as nat, |i: int| '0'));
        }
    }
    push_all(out, &digits);
    assert(final(out)@ =~= old(out)@ + zero_padded(decimal(n as nat), w as nat));
}

fn year_days(y: u32) -> (r: u64)
    ensures
        r == days_in_year(y as int),
{
    if is_leap(y) {
        366
    } else {
        365
    }
}

fn month_days(k: usize, is_leap_year: bool) -> (r: u64)
    ensures
        r == month_len(k as int, is_leap_year),
{
    if k == 1 {
        if is_leap_year {
            29
        } else {
            28
        }
    } else if k == 3 || k == 5 || k == 8 || k == 10 {
        30
    } else {
        31
    }
}

/// The date `ts` falls on.  Years are counted in a `u32`, which bounds `ts`.
pub fn timestamp_to_date(ts: u64) -> (r: String)
    requires
        ts / 86400 <= 365 * (4294967295 - 1971),
    ensures
        r@ == date_text(ts as nat),
{
    let mut days: u64 = ts / 86400;
    let mut year: u32 = 1970;
    while days >= year_days(year)
        invariant
            year >= 1970,
            year_of(ts as int / 86400, 1970) == year_of(days as int, year as int),
            days + 365 * (year - 1970) <= ts / 86400,
            ts / 86400 <= 365 * (4294967295 - 1971),
        decreases days,
    {
        days = days - year_days(year);
        year = year + 1;
    }
    assert(year_of(days as int, year as int) == (year as int, days as int));
    let leap_year = is_leap(year);
    let mut month: u32 = 1;
    let mut k: usize = 0;
    let ghost rest = days as int;
    while k < 12 && days >= month_days(k, leap_year)
        invariant
            k <= 12,
            month == k + 1,
            days < 366,
            month_of(rest, 0, leap_year) == month_of(days as int, k as int, leap_year),
        decreases 12 - k,
    {
        days = days - month_days(k, leap_year);
        month = month + 1;
        k = k + 1;
    }
    assert(month_of(rest, 0, leap_year) == (month as int, days as int));
    let mut out: Vec<char> = Vec::new();
    push_padded(&mut out, year as u64, 4);
    let dash = chars_of("-");
    push_all(&mut out, &dash);
    push_padded(&mut out, month as u64, 2);
    push_all(&mut out, &dash);
    push_padded(&mut out, days + 1, 2);
    assert(out@ =~= date_text(ts as nat));
    string_of(&out)
}

/// The days of the months from `k` (from 0) to the end of the year.
pub open spec fn days_from_month(k: int, is_leap_year: bool) -> int
    decreases 12 - k,
{
    if k >= 12 {
        0
    } else {
        month_len(k, is_leap_year) + days_from_month(k + 1, is_leap_year)
    }
}

proof fn lemma_year_of(days: int, y: int)
    requires
        days >= 0,
    ensures
        0 <= year_of(days, y).1 < days_in_year(year_of(days, y).0),
    decreases days,
{
    if days >= days_in_year(y) {
        lemma_year_of(days - days_in_year(y), y + 1);
    }
}

proof fn lemma_month_of(days: int, k: int, is_leap_year: bool)
    requires
        0 <= k <= 12,
        0 <= days < days_from_month(k, is_leap_year),
    ensures
        k + 1 <= month_of(days, k, is_leap_year).0 <= 12,
        0 <= month_of(days, k, is_leap_year).1 < month_len(
            month_of(days, k, is_leap_year).0 - 1,
            is_leap_year,
        ),
    decreases 12 - k,
{
    if k < 12 && days >= month_len(k, is_leap_year) {
        lemma_month_of(days - month_len(k, is_leap_year), k + 1, is_leap_year);
    }
}

/// Every timestamp falls on a day of the calendar: a month from 1 to 12 and a
/// day within that month.
pub proof fn law_date_is_calendar_day(ts: nat)
    ensures
        ({
            let (y, rest) = year_of(ts as int / 86400, 1970);
            let (m, d) = month_of(rest, 0, leap(y));
            1 <= m <= 12 && 0 <= d < month_len(m - 1, leap(y))
        }),
{
    let (y, rest) = year_of(ts as int / 86400, 1970);
    lemma_year_of(ts as int / 86400, 1970);
    assert(days_from_month(0, leap(y)) == days_in_year(y)) by {
        reveal_with_fuel(days_from_month, 13);
    }
    lemma_month_of(rest, 0, leap(y));
}

// ---------------------------------------------------------------------------
// TC3-HMAC-SHA256
// ---------------------------------------------------------------------------
pub open spec fn sha256_text(s: Seq<char>) -> Seq<char> {
    hex_lower(sha256_of(encode_utf8(s)))
}

pub open spec fn canonical_request(payload: Seq<char>) -> Seq<char> {
    "POST\n/\n\n"@ + "content-type:application/json; charset=utf-8\nhost:tmt.tencentcloudapi.com\n"@
        + "\n"@ + "content-type;host"@ + "\n"@ + sha256_text(payload)
}

pub open spec fn credential_scope(ts: nat) -> Seq<char> {
    date_text(ts) + "/tmt/tc3_request"@
}

pub open spec fn string_to_sign(payload: Seq<char>, ts: nat) -> Seq<char> {
    "TC3-HMAC-SHA256\n"@ + decimal(ts) + "\n"@ + credential_scope(ts) + "\n"@ + sha256_text(
        canonical_request(payload),
    )
}

/// The key chain: the secret with `TC3` before it signs the date, which signs
/// the service, which signs `tc3_request`.
pub open spec fn signing_key(secret_key: Seq<char>, ts: nat) -> Seq<u8> {
    hmac_sha256_of(
        hmac_sha256_of(
            hmac_sha256_of(encode_utf8("TC3"@ + secret_key), encode_utf8(date_text(ts))),
            encode_utf8("tmt"@),
        ),
        encode_utf8("tc3_request"@),
    )
}

/// The `Authorization` header of a request to the translation service.
pub open spec fn tc3_header(secret_id: Seq<char>, secret_key: Seq<char>, payload: Seq<char>, ts: nat) -> Seq<
    char,
> {
    "TC3-HMAC-SHA256 Credential="@ + secret_id + "/"@ + credential_scope(ts)
        + ", SignedHeaders="@ + "content-type;host"@ + ", Signature="@ + hex_lower(
        hmac_sha256_of(signing_key(secret_key, ts), encode_utf8(string_to_sign(payload, ts))),
    )
}

/// The `Authorization` header for `payload` sent at `timestamp`.  The region
/// travels in a header of its own and takes no part in it.
pub fn tc3_authorization(
    secret_id: &str,
    secret_key: &str,
    payload: &str,
    timestamp: u64,
    region: &str,
) -> (r: String)
    requires
        timestamp / 86400 <= 365 * (4294967295 - 1971),
    ensures
        r@ == tc3_header(secret_id@, secret_key@, payload@, timestamp as nat),
{
    let date = timestamp_to_date(timestamp);
    let mut canonical = String::from_str("POST\n/\n\n");
    canonical.append("content-type:application/json; charset=utf-8\nhost:tmt.tencentcloudapi.com\n");
    canonical.append("\n");
    canonical.append("content-type;host");
    canonical.append("\n");
    let payload_hash = sha256_hex(payload);
    canonical.append(payload_hash.as_str());
    let mut scope = date.clone();
    scope.append("/tmt/tc3_request");
    let mut to_sign = String::from_str("TC3-HMAC-SHA256\n");
    let ts_text = crate::text::decimal_string(timestamp);
    to_sign.append(ts_text.as_str());
    to_sign.append("\n");
    to_sign.append(scope.as_str());
    to_sign.append("\n");
    let request_hash = sha256_hex(canonical.as_str());
    to_sign.append(request_hash.as_str());
    let mut key = String::from_str("TC3");
    key.append(secret_key);
    let secret_date = hmac_sha256(key.as_str().as_bytes(), date.as_str().as_bytes());
    let secret_service = hmac_sha256(&secret_date, "tmt".as_bytes());
    let secret_signing = hmac_sha256(&secret_service, "tc3_request".as_bytes());
    let signature = hex_encode(&hmac_sha256(&secret_signing, to_sign.as_str().as_bytes()));
    let mut r = String::from_str("TC3-HMAC-SHA256 Credential=");
    r.append(secret_id);
    r.append("/");
    r.append(scope.as_str());
    r.append(", SignedHeaders=");
    r.append("content-type;host");
    r.append(", Signature=");
    r.append(signature.as_str());
    r
}

/// What an answer of QQ comes to: its error (code and message), else its
/// text.
pub fn qq_outcome(error: Option<(String, String)>, target_text: Option<String>) -> (r: Result<
    String,
    ZelligError,
>)
    ensures
        error matches Some(e) ==> (r matches Err(ZelligError::TranslationError(m)) && m@ == "QQ "@
            + e.0@ + ": "@ + e.1@),
        error is None && target_text is Some ==> r == Ok::<String, ZelligError>(
            target_text.unwrap(),
        ),
        error is None && target_text is None ==> (r matches Err(ZelligError::TranslationError(m))
            && m@ == "invalid QQ response"@),
{
    if let Some((code, message)) = error {
        let mut m = String::from_str("QQ ");
        m.append(code.as_str());
        m.append(": ");
        m.append(message.as_str());
        return Err(ZelligError::TranslationError(m));
    }
    match target_text {
        Some(t) => Ok(t),
        None => Err(translation_error("invalid QQ response")),
    }
}

/// The request body for a text: the `sonic_rs` object with `SourceText`,
/// `Source`, `Target` and a `ProjectId` of 0, as its `Display` writes it.
/// Nothing is stated of the result: `sonic_rs` keeps a built object's
/// entries in a hash map that each process seeds, so the order in which they
/// are written is left to chance.
#[verifier::external_body]
fn qq_payload(text: &str, source: &str, target: &str) -> (r: String) {
    let mut o = sonic_rs::Value::new_object_with(8);
    o.insert("SourceText", sonic_rs::Value::from(text));
    o.insert("Source", sonic_rs::Value::from(source));
    o.insert("Target", sonic_rs::Value::from(target));
    o.insert("ProjectId", sonic_rs::Value::from(0u64));
    o.to_string()
}

/// The body of a request to translate `text` and its `Authorization`
/// header, which signs exactly that body for the time stamp.
pub fn qq_request(
    text: &str,
    source: &str,
    target: &str,
    secret_id: &str,
    secret_key: &str,
    timestamp: u64,
    region: &str,
) -> (r: (String, String))
    requires
        timestamp / 86400 <= 365 * (4294967295 - 1971),
    ensures
        r.1@ == tc3_header(secret_id@, secret_key@, r.0@, timestamp as nat),
{
    let payload = qq_payload(text, source, target);
    let authorization = tc3_authorization(secret_id, secret_key, payload.as_str(), timestamp, region);
    (payload, authorization)
}

} // verus!

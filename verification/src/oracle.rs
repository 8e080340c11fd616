//! Decisions of the market-price oracle: reading the API credential, building
//! the one outbound request, and validating the response. The HTTP call
//! itself is performed outside; the JSON reading and the URL syntax are the
//! work of outside crates, called here behind trusted declarations whose
//! outcomes are named functions of the bytes alone.
use vstd::prelude::*;
use vstd::utf8::{decode_utf8, valid_utf8};

use crate::text::utf8_to_string;
use crate::Fault;

verus! {

/// The market-data endpoint the oracle queries.
pub const URL_LIST: &'static str =
    "https://sandbox-api.coinmarketcap.com/v1/cryptocurrency/listings/latest";

/// What the URL library yields for a base address and appended query pairs:
/// `None` when the base does not parse as an absolute URL, else the final
/// serialization. A function of its arguments alone.
pub uninterp spec fn url_with_query(base: Seq<char>, pairs: Seq<(Seq<char>, Seq<char>)>) -> Option<
    Seq<char>,
>;

/// Relies on `url::Url::parse_with_params`: parses the base as an absolute
/// URL and appends the pairs to its query, percent-encoding as the URL
/// grammar asks; the outcome is named `url_with_query`.
#[verifier::external_body]
fn build_url(base: &str, pairs: &Vec<(String, String)>) -> (r: Option<String>)
    ensures
        (match r {
            Some(s) => url_with_query(
                base@,
                pairs@.map_values(|p: (String, String)| (p.0@, p.1@)),
            ) == Some(s@),
            None => url_with_query(base@, pairs@.map_values(|p: (String, String)| (p.0@, p.1@)))
                is None,
        }),
{
    let params: Vec<(&str, &str)> = pairs.iter().map(|p| (p.0.as_str(), p.1.as_str())).collect();
    match url::Url::parse_with_params(base, params) {
        Ok(u) => Some(u.as_str().to_owned()),
        Err(_) => None,
    }
}

/// The status block of a body carrying the market-price shape — timestamp,
/// error code, optional error message, elapsed time, credit count — or `None`
/// when the body is not that shape. A function of the body bytes alone.
pub uninterp spec fn market_status_of(body: Seq<u8>) -> Option<
    (Seq<char>, i64, Option<Seq<char>>, i64, i64),
>;

/// Relies on serde_json — `from_slice::<Value>` and `Value::get`, `as_str`,
/// `as_i64`, `is_null` — to read the market-price shape: the outcome is named
/// `market_status_of`, and is `None` when the body is not well-formed JSON,
/// when a `data` member is present but neither null nor an array, or when the
/// status block lacks one of its five fields in its expected type.
#[verifier::external_body]
fn read_market(body: &[u8]) -> (r: Option<(String, i64, Option<String>, i64, i64)>)
    ensures
        (match r {
            Some(t) => market_status_of(body@) == Some(
                (t.0@, t.1, (match t.2 {
                    Some(m) => Some(m@),
                    None => None,
                }), t.3, t.4),
            ),
            None => market_status_of(body@) is None,
        }),
{
    let v: serde_json::Value = serde_json::from_slice(body).ok()?;
    if let Some(d) = v.get("data") {
        if !d.is_null() && !d.is_array() { return None; }
    }
    let s = v.get("status")?;
    let msg = match s.get("error_message") {
        Some(m) if m.is_null() => None,
        Some(m) => Some(m.as_str()?.to_owned()),
        None => None,
    };
    let head = (s.get("timestamp")?.as_str()?.to_owned(), s.get("error_code")?.as_i64()?);
    Some((head.0, head.1, msg, s.get("elapsed")?.as_i64()?, s.get("credit_count")?.as_i64()?))
}

/// The response's status block: the part of the market-data shape the
/// oracle's control flow reads.
#[derive(Debug)]
pub struct MarketStatus {
    pub timestamp: String,
    pub error_code: i64,
    pub error_message: Option<String>,
    pub elapsed: i64,
    pub credit_count: i64,
}

/// The mathematical image of a status block.
pub open spec fn status_view(s: MarketStatus) -> (Seq<char>, i64, Option<Seq<char>>, i64, i64) {
    (s.timestamp@, s.error_code, (match s.error_message {
        Some(m) => Some(m@),
        None => None,
    }), s.elapsed, s.credit_count)
}

/// The outbound request: the final URL and its headers in order.
pub struct OracleRequest {
    pub url: String,
    pub headers: Vec<(String, String)>,
}

/// A character sequence with every line feed removed.
pub open spec fn without_newlines(s: Seq<char>) -> Seq<char> {
    s.filter(|c: char| c != '\n')
}

/// Relies on `str::replace` with the single-character pattern `"\n"` and an
/// empty replacement: every line feed is removed and nothing else changes.
#[verifier::external_body]
fn remove_newlines(s: &str) -> (r: String)
    ensures
        r@ == without_newlines(s@),
{
    s.replace("\n", "")
}

/// The API credential as read from storage: a missing entry fails the call
/// before anything else happens, bytes that are not UTF-8 fail it next, and
/// the decoded text is used with its line feeds removed.
pub fn credential_outcome(data: Option<Vec<u8>>) -> (r: Result<String, Fault>)
    ensures
        (match r {
            Ok(k) => (data matches Some(d) && valid_utf8(d@) && k@ == without_newlines(
                decode_utf8(d@),
            )),
            Err(f) => {
                ||| (f == Fault::CredentialLoadFailed && data is None)
                ||| (f == Fault::CredentialDecodeFailed && (data matches Some(d) && !valid_utf8(
                    d@,
                )))
            },
        }),
{
    let d = match data {
        Some(d) => d,
        None => {
            return Err(Fault::CredentialLoadFailed);
        },
    };
    let decoded = match utf8_to_string(d.as_slice()) {
        Some(s) => s,
        None => {
            return Err(Fault::CredentialDecodeFailed);
        },
    };
    Ok(remove_newlines(decoded.as_str()))
}

/// The fixed query of the listing request.
pub open spec fn listing_query_pairs() -> Seq<(Seq<char>, Seq<char>)> {
    seq![("convert"@, "USD"@), ("limit"@, "3"@), ("start"@, "1"@)]
}

/// Whether a built request is the one the oracle sends under the given key:
/// the listing URL with its fixed query, a JSON accept header, and the
/// credential header.
pub open spec fn request_ok(req: OracleRequest, key: Seq<char>) -> bool {
    &&& url_with_query(URL_LIST@, listing_query_pairs()) == Some(req.url@)
    &&& req.headers@.len() == 2
    &&& req.headers@[0].0@ == "Accept"@ && req.headers@[0].1@ == "application/json"@
    &&& req.headers@[1].0@ == "X-CMC_PRO_API_KEY"@ && req.headers@[1].1@ == key
}

/// Decide the oracle call up to the network: resolve the credential and
/// build the one request to send. No request exists unless the credential
/// was read and decoded and the URL built.
pub fn plan_request(data: Option<Vec<u8>>) -> (r: Result<OracleRequest, Fault>)
    ensures
        (match r {
            Ok(req) => (data matches Some(d) && valid_utf8(d@) && request_ok(
                req,
                without_newlines(decode_utf8(d@)),
            )),
            Err(f) => {
                ||| (f == Fault::CredentialLoadFailed && data is None)
                ||| (f == Fault::CredentialDecodeFailed && (data matches Some(d) && !valid_utf8(
                    d@,
                )))
                ||| (f == Fault::UrlParseFailed && (data matches Some(d) && valid_utf8(d@))
                    && url_with_query(URL_LIST@, listing_query_pairs()) is None)
            },
        }),
{
    let key = match credential_outcome(data) {
        Ok(k) => k,
        Err(f) => {
            return Err(f);
        },
    };
    let mut pairs: Vec<(String, String)> = Vec::new();
    pairs.push(("convert".to_owned(), "USD".to_owned()));
    pairs.push(("limit".to_owned(), "3".to_owned()));
    pairs.push(("start".to_owned(), "1".to_owned()));
    proof {
        assert(pairs@.map_values(|p: (String, String)| (p.0@, p.1@)) =~= listing_query_pairs());
    }
    let url = match build_url(URL_LIST, &pairs) {
        Some(u) => u,
        None => {
            return Err(Fault::UrlParseFailed);
        },
    };
    let mut headers: Vec<(String, String)> = Vec::new();
    headers.push(("Accept".to_owned(), "application/json".to_owned()));
    headers.push(("X-CMC_PRO_API_KEY".to_owned(), key));
    Ok(OracleRequest { url, headers })
}

/// Parse the response body into its status block: `Ok` exactly when the body
/// carries the market-price shape, and then with that shape's own status
/// fields; any other body fails the call.
pub fn parse_market_response(body: &Vec<u8>) -> (r: Result<MarketStatus, Fault>)
    ensures
        (match r {
            Ok(s) => market_status_of(body@) == Some(status_view(s)),
            Err(f) => f == Fault::ResponseParseFailed && market_status_of(body@) is None,
        }),
{
    match read_market(body.as_slice()) {
        Some(t) => Ok(
            MarketStatus {
                timestamp: t.0,
                error_code: t.1,
                error_message: t.2,
                elapsed: t.3,
                credit_count: t.4,
            },
        ),
        None => Err(Fault::ResponseParseFailed),
    }
}

/// The oracle's verdict on a parsed response: an upstream error code fails
/// the call before anything else of the body is considered; otherwise the
/// call succeeds with the body's byte length.
pub fn response_outcome(body: &Vec<u8>, status: &MarketStatus) -> (r: Result<i64, Fault>)
    ensures
        (match r {
            Ok(n) => status.error_code == 0 && n == body@.len() as i64,
            Err(f) => f == Fault::UpstreamError && status.error_code != 0,
        }),
{
    if status.error_code != 0 {
        Err(Fault::UpstreamError)
    } else {
        Ok(#[verifier::truncate] (body.len() as i64))
    }
}

} // verus!

use supercontracts::oracle::{
    credential_outcome, parse_market_response, plan_request, response_outcome, MarketStatus,
};
use supercontracts::Fault;

#[test]
fn missing_credential_fails_before_any_request_exists() {
    assert!(matches!(plan_request(None), Err(Fault::CredentialLoadFailed)));
}

#[test]
fn credential_newlines_are_stripped() {
    let k = credential_outcome(Some(b"sample-key-0000\n".to_vec())).unwrap();
    assert_eq!(k, "sample-key-0000");
    let k = credential_outcome(Some(b"a\nb\n".to_vec())).unwrap();
    assert_eq!(k, "ab");
}

#[test]
fn credential_that_is_not_utf8_fails_the_decode() {
    let r = credential_outcome(Some(vec![0xC3, 0x28]));
    assert!(matches!(r, Err(Fault::CredentialDecodeFailed)));
    // invalid as stored, even though removing the 0x0A would leave valid bytes
    let r = credential_outcome(Some(vec![0xC2, 0x0A, 0xA9]));
    assert!(matches!(r, Err(Fault::CredentialDecodeFailed)));
}

#[test]
fn request_carries_the_full_url_and_headers() {
    let req = plan_request(Some(b"apikey123\n".to_vec())).unwrap();
    assert_eq!(
        req.url,
        "https://sandbox-api.coinmarketcap.com/v1/cryptocurrency/listings/latest?convert=USD&limit=3&start=1"
    );
    assert_eq!(req.headers.len(), 2);
    assert_eq!(req.headers[0], ("Accept".to_string(), "application/json".to_string()));
    assert_eq!(
        req.headers[1],
        ("X-CMC_PRO_API_KEY".to_string(), "apikey123".to_string())
    );
}

fn ok_body() -> Vec<u8> {
    let mut body = String::from("{\"status\":{\"timestamp\":\"2019-08-30T18:51:28.000Z\",\"error_code\":0,");
    body.push_str("\"error_message\":null,\"elapsed\":16,\"credit_count\":1},\"data\":[]}");
    body.into_bytes()
}

#[test]
fn well_formed_response_yields_its_status_block() {
    let s = parse_market_response(&ok_body()).unwrap();
    assert_eq!(s.timestamp, "2019-08-30T18:51:28.000Z");
    assert_eq!(s.error_code, 0);
    assert_eq!(s.error_message, None);
    assert_eq!(s.elapsed, 16);
    assert_eq!(s.credit_count, 1);
}

#[test]
fn upstream_error_code_fails_without_reading_data() {
    let mut body = String::from("{\"status\":{\"timestamp\":\"t\",\"error_code\":1002,");
    body.push_str("\"error_message\":\"API key missing.\",\"elapsed\":3,\"credit_count\":0}}");
    let body = body.into_bytes();
    let s = parse_market_response(&body).unwrap();
    assert_eq!(s.error_code, 1002);
    assert_eq!(s.error_message.as_deref(), Some("API key missing."));
    assert!(matches!(
        response_outcome(&body, &s),
        Err(Fault::UpstreamError)
    ));
}

#[test]
fn success_returns_the_body_byte_length() {
    let body = ok_body();
    let s = parse_market_response(&body).unwrap();
    let n = response_outcome(&body, &s).unwrap();
    assert_eq!(n, body.len() as i64);
}

#[test]
fn malformed_json_fails_the_parse() {
    let r = parse_market_response(&b"{not json".to_vec());
    assert!(matches!(r, Err(Fault::ResponseParseFailed)));
}

#[test]
fn response_without_the_status_shape_fails_the_parse() {
    let r = parse_market_response(&b"{\"status\":{\"error_code\":\"zero\"}}".to_vec());
    assert!(matches!(r, Err(Fault::ResponseParseFailed)));
    let r = parse_market_response(&b"{\"data\":[]}".to_vec());
    assert!(matches!(r, Err(Fault::ResponseParseFailed)));
}

#[test]
fn data_member_of_the_wrong_kind_fails_the_parse() {
    let mut body = String::from("{\"status\":{\"timestamp\":\"t\",\"error_code\":0,");
    body.push_str("\"error_message\":null,\"elapsed\":1,\"credit_count\":1},\"data\":7}");
    let r = parse_market_response(&body.into_bytes());
    assert!(matches!(r, Err(Fault::ResponseParseFailed)));
    let mut body = String::from("{\"status\":{\"timestamp\":\"t\",\"error_code\":0,");
    body.push_str("\"error_message\":null,\"elapsed\":1,\"credit_count\":1},\"data\":null}");
    assert!(parse_market_response(&body.into_bytes()).is_ok());
}

#[test]
fn status_codes_of_the_library() {
    assert_eq!(supercontracts::FUNCTION_RETURN_SUCCESS, 0);
    assert_eq!(Fault::UpstreamError.status(), supercontracts::FUNCTION_ERROR);
    assert_eq!(supercontracts::FUNCTION_ERROR, -1000);
    let s = MarketStatus {
        timestamp: String::new(),
        error_code: 0,
        error_message: None,
        elapsed: 0,
        credit_count: 0,
    };
    assert_eq!(response_outcome(&Vec::new(), &s).unwrap(), 0);
}

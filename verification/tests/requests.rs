use hmac::Mac;
use coinbase_pro::api::APIKeyData;
use coinbase_pro::errors::{CBProServerError, Error};
use coinbase_pro::requests::{
    collect_page, response_outcome, sign_request, CBRequestBuilder, RequestMethod, PAGE_LEN,
};

fn credentials(secret: &str) -> APIKeyData {
    APIKeyData { key: "my-key".to_string(), secret: secret.to_string(), passphrase: "pass".to_string() }
}

fn header<'a>(headers: &'a [(String, String)], name: &str) -> Option<&'a str> {
    headers.iter().find(|(k, _)| k == name).map(|(_, v)| v.as_str())
}

#[test]
fn method_names() {
    assert_eq!(RequestMethod::GET.as_string(), "GET");
    assert_eq!(RequestMethod::POST.as_string(), "POST");
}

#[test]
fn unsigned_request_is_prepared_as_built() {
    let client = reqwest::Client::new();
    let builder = CBRequestBuilder::new(&client, "Rust".to_string())
        .set_endpoint("/products/ETH-USD/book".to_string())
        .add_query_param("level".to_string(), "2".to_string())
        .try_add_query_param("skipped".to_string(), None);
    let prepared = builder.prepare().unwrap();
    assert_eq!(prepared.url, "https://api.exchange.coinbase.com/products/ETH-USD/book");
    assert_eq!(prepared.method, RequestMethod::GET);
    assert_eq!(
        prepared.headers,
        vec![
            ("User-Agent".to_string(), "Rust".to_string()),
            ("Content-Type".to_string(), "application/json".to_string()),
        ]
    );
    assert_eq!(prepared.query, vec![("level".to_string(), "2".to_string())]);
    assert_eq!(prepared.body, Some(String::new()));
}

#[test]
fn page_request_asks_after_cursor() {
    let client = reqwest::Client::new();
    let builder = CBRequestBuilder::new(&client, "Rust".to_string())
        .set_url("https://example.test".to_string())
        .set_endpoint("/fills".to_string());
    let first = builder.prepare_page(None).unwrap();
    assert_eq!(first.url, "https://example.test/fills");
    assert!(first.query.is_empty());
    assert_eq!(first.body, None);
    let next = builder.prepare_page(Some("abc".to_string())).unwrap();
    assert_eq!(next.query, vec![("after".to_string(), "abc".to_string())]);
}

#[test]
fn signed_request_has_the_signing_headers() {
    let client = reqwest::Client::new();
    let builder = CBRequestBuilder::new(&client, "Rust".to_string())
        .set_endpoint("/orders".to_string())
        .set_method(RequestMethod::POST)
        .set_body("{\"a\":1}".to_string())
        .sign(credentials("c2VjcmV0"));
    let prepared = builder.prepare_at(1650000000).unwrap();
    let expected = sign_request(&credentials("c2VjcmV0"), 1650000000, "/orders", Some(&vec![]), "POST", "{\"a\":1}").unwrap();
    assert_eq!(prepared.headers.len(), 6);
    assert_eq!(&prepared.headers[2..], &expected[..]);
    assert_eq!(header(&prepared.headers, "CB-ACCESS-KEY"), Some("my-key"));
    assert_eq!(header(&prepared.headers, "CB-ACCESS-TIMESTAMP"), Some("1650000000"));
    assert_eq!(header(&prepared.headers, "CB-ACCESS-PASSPHRASE"), Some("pass"));
    assert_eq!(prepared.body, Some("{\"a\":1}".to_string()));
}

#[test]
fn signature_is_hmac_sha256_of_the_message() {
    // The message is timestamp, method, path with query, body; the key is
    // the base64-decoded secret "secret".
    let headers = sign_request(
        &credentials("c2VjcmV0"),
        1650000000,
        "/fills",
        Some(&vec![("product_id".to_string(), "ETH-USD".to_string()), ("limit".to_string(), "5".to_string())]),
        "GET",
        "",
    )
    .unwrap();
    let same = sign_request(&credentials("c2VjcmV0"), 1650000000, "/fills?product_id=ETH-USD&limit=5", None, "GET", "")
        .unwrap();
    assert_eq!(headers, same);
    let other = sign_request(&credentials("c2VjcmV0"), 1650000001, "/fills", None, "GET", "").unwrap();
    assert_ne!(header(&headers, "CB-ACCESS-SIGN"), header(&other, "CB-ACCESS-SIGN"));
    // base64 of a 32-byte tag is 44 characters.
    assert_eq!(header(&headers, "CB-ACCESS-SIGN").unwrap().len(), 44);
}

#[test]
fn signature_known_value() {
    // HMAC-SHA256 with key "key" of the message "0GET/" is fixed; its
    // base64 form is checked against the same computation done by hand.
    let mut mac = hmac::Hmac::<sha2::Sha256>::new_from_slice(b"key").unwrap();
    mac.update(b"0GET/");
    let expected = base64::encode(mac.finalize().into_bytes());
    let headers = sign_request(&credentials("a2V5"), 0, "/", None, "GET", "").unwrap();
    assert_eq!(header(&headers, "CB-ACCESS-SIGN"), Some(expected.as_str()));
    assert_eq!(header(&headers, "CB-ACCESS-TIMESTAMP"), Some("0"));
}

#[test]
fn empty_query_signs_the_bare_path() {
    let a = sign_request(&credentials("a2V5"), 5, "/accounts", Some(&vec![]), "GET", "").unwrap();
    let b = sign_request(&credentials("a2V5"), 5, "/accounts", None, "GET", "").unwrap();
    assert_eq!(a, b);
}

#[test]
fn secret_that_is_no_base64_cannot_sign() {
    assert!(sign_request(&credentials("not base64!"), 0, "/", None, "GET", "").is_none());
    let client = reqwest::Client::new();
    let builder = CBRequestBuilder::new(&client, "Rust".to_string()).sign(credentials("not base64!"));
    assert!(builder.prepare().is_none());
}

#[test]
fn response_outcomes() {
    let ok: Result<u32, Error> = response_outcome("5".to_string(), serde_json::from_str::<u32>("5"), None);
    assert!(matches!(ok, Ok(5)));

    let body = r#"{"message": "error message"}"#.to_string();
    let parsed = serde_json::from_str::<u32>(&body);
    let server = Some(CBProServerError { message: "error message".to_string() });
    match response_outcome(body, parsed, server) {
        Err(Error::CBProServerErrorVariant(e)) => assert_eq!(e.message, "error message"),
        _ => panic!("expected the server's error"),
    }

    let body = "[{\"id\":\"Causes Error\",}]".to_string();
    let parsed = serde_json::from_str::<u32>(&body);
    match response_outcome(body.clone(), parsed, None) {
        Err(Error::SerdeError { string, .. }) => assert_eq!(string, body),
        _ => panic!("expected a parse error"),
    }
}

#[test]
fn pages_are_collected_until_a_short_one() {
    let mut all: Vec<u32> = vec![1, 2];
    assert!(collect_page(&mut all, (0..PAGE_LEN as u32).collect()));
    assert_eq!(all.len(), 2 + PAGE_LEN);
    assert!(!collect_page(&mut all, vec![7, 8, 9]));
    assert_eq!(&all[all.len() - 3..], &[7, 8, 9]);
    assert!(!collect_page(&mut all, vec![]));
}

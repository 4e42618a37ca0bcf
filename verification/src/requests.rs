//! Building, signing and answering requests to the exchange's REST API.
//!
//! `CBRequestBuilder` holds what a request is made of. `prepare` and
//! `prepare_page` turn it into the method, URL, headers, query and body to
//! send, signing it where credentials were given; `response_outcome` and
//! `collect_page` decide what a response gives.
use vstd::prelude::*;
use vstd::utf8::encode_utf8;

use crate::api::APIKeyData;
use crate::crypto::{base64_decode, base64_decoding, base64_encode, base64_encoding, hmac_sha256, hmac_sha256_of};
use crate::errors::{CBProServerError, Error};
use crate::text::{i64_to_decimal, signed_decimal};

verus! {

/// The HTTP methods the API uses.
#[derive(Clone, Copy, PartialEq, Eq, Structural, Debug)]
pub enum RequestMethod {
    GET,
    POST,
}

/// The name of a method.
pub open spec fn method_name(m: RequestMethod) -> Seq<char> {
    match m {
        RequestMethod::GET => "GET"@,
        RequestMethod::POST => "POST"@,
    }
}

impl RequestMethod {
    /// The name of the method: "GET" or "POST".
    pub fn as_string(&self) -> (res: String)
        ensures
            res@ == method_name(*self),
    {
        match self {
            RequestMethod::GET => String::from_str("GET"),
            RequestMethod::POST => String::from_str("POST"),
        }
    }
}

/// The address requests go to unless another is set.
pub open spec fn default_url() -> Seq<char> {
    "https://api.exchange.coinbase.com"@
}

/// What a request is made of, as plain values.
pub ghost struct RequestView {
    pub client: reqwest::Client,
    pub user_agent: Seq<char>,
    pub credentials: Option<(Seq<char>, Seq<char>, Seq<char>)>,
    pub end_point: Seq<char>,
    pub query_params: Seq<(Seq<char>, Seq<char>)>,
    pub body: Seq<char>,
    pub url: Seq<char>,
    pub method: RequestMethod,
}

/// Builds a request to the REST API: address, endpoint, query, method,
/// body, and the credentials it is signed with.
pub struct CBRequestBuilder {
    client: reqwest::Client,
    user_agent: String,
    credentials: Option<APIKeyData>,
    end_point: String,
    query_params: Vec<(String, String)>,
    body: String,
    url: String,
    method: RequestMethod,
}

impl View for CBRequestBuilder {
    type V = RequestView;

    closed spec fn view(&self) -> RequestView {
        RequestView {
            client: self.client,
            user_agent: self.user_agent@,
            credentials: match self.credentials {
                Some(c) => Some(c@),
                None => None,
            },
            end_point: self.end_point@,
            query_params: self.query_params.deep_view(),
            body: self.body@,
            url: self.url@,
            method: self.method,
        }
    }
}

/// reqwest's `Client::clone`: the derived clone of the client's one field,
/// an `Arc` of its shared state, so another handle on the same client; as a
/// value it is the client it was cloned from.
#[verifier::external_body]
fn clone_client(client: &reqwest::Client) -> (res: reqwest::Client)
    ensures
        res == *client,
{
    client.clone()
}

/// chrono's `Utc::now().timestamp()`: the seconds since the Unix epoch. It
/// depends on the clock, so nothing is stated of it.
#[verifier::external_body]
fn unix_timestamp() -> i64 {
    chrono::Utc::now().timestamp()
}

/// The query pairs of a signature, each as `key=value&`.
pub open spec fn query_pairs_text(params: Seq<(Seq<char>, Seq<char>)>) -> Seq<char>
    decreases params.len(),
{
    if params.len() == 0 {
        Seq::empty()
    } else {
        query_pairs_text(params.drop_last()) + params.last().0 + "="@ + params.last().1 + "&"@
    }
}

/// The path a signature covers: with query parameters, the path, `?` and
/// the pairs joined by `&`.
pub open spec fn signature_path(path: Seq<char>, params: Option<Seq<(Seq<char>, Seq<char>)>>) -> Seq<char> {
    match params {
        None => path,
        Some(ps) => (path + "?"@ + query_pairs_text(ps)).drop_last(),
    }
}

/// The message a request's signature covers.
pub open spec fn signature_message(timestamp: i64, method: Seq<char>, path: Seq<char>, body: Seq<char>) -> Seq<char> {
    signed_decimal(timestamp as int) + method + path + body
}

/// The headers that sign a request at `timestamp`, or `None` where the
/// secret is no valid base64.
pub open spec fn signing_headers(
    credentials: (Seq<char>, Seq<char>, Seq<char>),
    timestamp: i64,
    path: Seq<char>,
    params: Option<Seq<(Seq<char>, Seq<char>)>>,
    method: Seq<char>,
    body: Seq<char>,
) -> Option<Seq<(Seq<char>, Seq<char>)>> {
    match base64_decoding(encode_utf8(credentials.1)) {
        None => None,
        Some(key) => Some(
            seq![
                ("CB-ACCESS-KEY"@, credentials.0),
                ("CB-ACCESS-SIGN"@, base64_encoding(hmac_sha256_of(key, encode_utf8(
                    signature_message(timestamp, method, signature_path(path, params), body),
                )))),
                ("CB-ACCESS-TIMESTAMP"@, signed_decimal(timestamp as int)),
                ("CB-ACCESS-PASSPHRASE"@, credentials.2),
            ],
        ),
    }
}

/// The path with its query, as the signature covers it.
fn signed_path(path: &str, params: Option<&Vec<(String, String)>>) -> (res: String)
    ensures
        res@ == signature_path(path@, match params {
            Some(ps) => Some(ps.deep_view()),
            None => None,
        }),
{
    proof {
        reveal_strlit("?");
        reveal_strlit("&");
        reveal_strlit("=");
    }
    let mut res = String::from_str(path);
    match params {
        None => res,
        Some(ps) => {
            let ghost pv = ps.deep_view();
            res.append("?");
            let mut i: usize = 0;
            assert(pv.take(0) =~= Seq::<(Seq<char>, Seq<char>)>::empty());
            while i < ps.len()
                invariant
                    i <= ps.len(),
                    pv == ps.deep_view(),
                    i == 0 ==> res@ == path@ + "?"@,
                    i > 0 ==> res@ + "&"@ == path@ + "?"@ + query_pairs_text(pv.take(i as int)),
                decreases ps.len() - i,
            {
                let ghost before = res@;
                if i > 0 {
                    res.append("&");
                }
                res.append(ps[i].0.as_str());
                res.append("=");
                res.append(ps[i].1.as_str());
                assert(pv.take(i + 1).drop_last() =~= pv.take(i as int));
                assert(pv[i as int] == (ps@[i as int].0@, ps@[i as int].1@));
                assert(pv.take(i + 1).last() == pv[i as int]);
                assert(query_pairs_text(pv.take(i + 1)) == query_pairs_text(pv.take(i as int)) + pv[i as int].0 + "="@
                    + pv[i as int].1 + "&"@);
                if i == 0 {
                    assert(query_pairs_text(pv.take(0)) =~= Seq::<char>::empty());
                }
                assert(res@ + "&"@ =~= path@ + "?"@ + query_pairs_text(pv.take(i + 1)));
                i = i + 1;
            }
            assert(pv.take(ps.len() as int) =~= pv);
            if ps.len() == 0 {
                assert((path@ + "?"@ + query_pairs_text(pv)).drop_last() =~= path@);
                String::from_str(path)
            } else {
                assert((res@ + "&"@).drop_last() =~= res@);
                res
            }
        },
    }
}

/// The headers that sign a request at `timestamp`: see `signing_headers`.
pub fn sign_request(
    credentials: &APIKeyData,
    timestamp: i64,
    path: &str,
    query_params: Option<&Vec<(String, String)>>,
    method: &str,
    body: &str,
) -> (res: Option<Vec<(String, String)>>)
    ensures
        res.deep_view() == signing_headers(credentials@, timestamp, path@, match query_params {
            Some(ps) => Some(ps.deep_view()),
            None => None,
        }, method@, body@),
{
    let key = match base64_decode(credentials.secret.as_str()) {
        Some(key) => key,
        None => {
            return None;
        },
    };
    let stamp = i64_to_decimal(timestamp);
    let signed = signed_path(path, query_params);
    let mut message = String::from_str(stamp.as_str());
    message.append(method);
    message.append(signed.as_str());
    message.append(body);
    let tag = match hmac_sha256(key.as_slice(), message.as_str().as_bytes()) {
        Some(tag) => tag,
        None => {
            return None;
        },
    };
    let signature = base64_encode(tag.as_slice());
    let mut headers: Vec<(String, String)> = Vec::new();
    headers.push((String::from_str("CB-ACCESS-KEY"), credentials.key.clone()));
    headers.push((String::from_str("CB-ACCESS-SIGN"), signature));
    headers.push((String::from_str("CB-ACCESS-TIMESTAMP"), stamp));
    headers.push((String::from_str("CB-ACCESS-PASSPHRASE"), credentials.passphrase.clone()));
    assert(headers.deep_view() =~= signing_headers(credentials@, timestamp, path@, match query_params {
        Some(ps) => Some(ps.deep_view()),
        None => None,
    }, method@, body@).unwrap());
    Some(headers)
}

/// The query of a page: the request's own, then `after` where a cursor is
/// given.
pub open spec fn page_params(params: Seq<(Seq<char>, Seq<char>)>, after: Option<Seq<char>>) -> Seq<(Seq<char>, Seq<char>)> {
    match after {
        None => params,
        Some(a) => params.push(("after"@, a)),
    }
}

/// A request ready to send, as plain values.
pub ghost struct PreparedView {
    pub method: RequestMethod,
    pub url: Seq<char>,
    pub headers: Seq<(Seq<char>, Seq<char>)>,
    pub query: Seq<(Seq<char>, Seq<char>)>,
    pub body: Option<Seq<char>>,
}

/// The headers of a request with this query, signed at `timestamp` where it
/// has credentials; `None` where its secret is no valid base64.
pub open spec fn request_headers(r: RequestView, timestamp: i64, params: Seq<(Seq<char>, Seq<char>)>) -> Option<Seq<(Seq<char>, Seq<char>)>> {
    let base = seq![("User-Agent"@, r.user_agent), ("Content-Type"@, "application/json"@)];
    match r.credentials {
        None => Some(base),
        Some(c) => match signing_headers(c, timestamp, r.end_point, Some(params), method_name(r.method), r.body) {
            None => None,
            Some(h) => Some(base + h),
        },
    }
}

/// A single request, signed at `timestamp`: the body is sent, and the
/// query is the request's own.
pub open spec fn prepared_request(r: RequestView, timestamp: i64) -> Option<PreparedView> {
    match request_headers(r, timestamp, r.query_params) {
        None => None,
        Some(headers) => Some(PreparedView {
            method: r.method,
            url: r.url + r.end_point,
            headers,
            query: r.query_params,
            body: Some(r.body),
        }),
    }
}

/// One page of a paginated request, signed at `timestamp`: no body is
/// sent (the signature still covers it), and the query asks for the page
/// after the cursor.
pub open spec fn prepared_page(r: RequestView, timestamp: i64, after: Option<Seq<char>>) -> Option<PreparedView> {
    let params = page_params(r.query_params, after);
    match request_headers(r, timestamp, params) {
        None => None,
        Some(headers) => Some(PreparedView {
            method: r.method,
            url: r.url + r.end_point,
            headers,
            query: params,
            body: None,
        }),
    }
}

/// A request ready to send.
#[derive(Debug)]
pub struct PreparedRequest {
    pub method: RequestMethod,
    pub url: String,
    pub headers: Vec<(String, String)>,
    pub query: Vec<(String, String)>,
    pub body: Option<String>,
}

/// The plain values of a prepared request.
pub open spec fn prepared_view(p: PreparedRequest) -> PreparedView {
    PreparedView {
        method: p.method,
        url: p.url@,
        headers: p.headers.deep_view(),
        query: p.query.deep_view(),
        body: match p.body {
            Some(b) => Some(b@),
            None => None,
        },
    }
}

/// The request prepared is the one described, and there is one exactly
/// when one is described.
pub open spec fn prepared_as(described: Option<PreparedView>, prepared: Option<PreparedRequest>) -> bool {
    match prepared {
        Some(p) => described == Some(prepared_view(p)),
        None => described is None,
    }
}

/// The cursor as plain text.
pub open spec fn cursor_view(after: Option<String>) -> Option<Seq<char>> {
    match after {
        Some(a) => Some(a@),
        None => None,
    }
}

/// A copy of the pairs.
fn clone_pairs(pairs: &Vec<(String, String)>) -> (res: Vec<(String, String)>)
    ensures
        res.deep_view() == pairs.deep_view(),
{
    let mut res: Vec<(String, String)> = Vec::new();
    let mut i: usize = 0;
    while i < pairs.len()
        invariant
            i <= pairs.len(),
            res.deep_view() == pairs.deep_view().take(i as int),
        decreases pairs.len() - i,
    {
        let ghost before = res.deep_view();
        let k = pairs[i].0.clone();
        let v = pairs[i].1.clone();
        res.push((k, v));
        assert(res.deep_view() =~= before.push((pairs@[i as int].0@, pairs@[i as int].1@)));
        assert(pairs.deep_view()[i as int] == (pairs@[i as int].0@, pairs@[i as int].1@));
        assert(res.deep_view() =~= pairs.deep_view().take(i + 1));
        i = i + 1;
    }
    assert(pairs.deep_view().take(pairs.len() as int) =~= pairs.deep_view());
    res
}

/// The number of items a full page holds; a shorter page is the last.
pub const PAGE_LEN: usize = 1000;

impl CBRequestBuilder {
    /// A GET request to the default address, with the given user agent and
    /// nothing else set.
    pub fn new(client: &reqwest::Client, user_agent: String) -> (b: Self)
        ensures
            b@ == (RequestView {
                client: *client,
                user_agent: user_agent@,
                credentials: None,
                end_point: Seq::empty(),
                query_params: Seq::empty(),
                body: Seq::empty(),
                url: default_url(),
                method: RequestMethod::GET,
            }),
    {
        let b = CBRequestBuilder {
            client: clone_client(client),
            user_agent,
            credentials: None,
            end_point: String::new(),
            query_params: Vec::new(),
            body: String::new(),
            url: String::from_str("https://api.exchange.coinbase.com"),
            method: RequestMethod::GET,
        };
        assert(b.query_params.deep_view() =~= Seq::<(Seq<char>, Seq<char>)>::empty());
        b
    }

    /// Sets the address the endpoint is appended to.
    pub fn set_url(self, url: String) -> (b: Self)
        ensures
            b@ == (RequestView { url: url@, ..self@ }),
    {
        let mut b = self;
        b.url = url;
        b
    }

    /// Adds a query parameter.
    pub fn add_query_param(self, key: String, value: String) -> (b: Self)
        ensures
            b@ == (RequestView { query_params: self@.query_params.push((key@, value@)), ..self@ }),
    {
        let mut b = self;
        let ghost before = b.query_params.deep_view();
        b.query_params.push((key, value));
        assert(b.query_params.deep_view() =~= before.push((key@, value@)));
        b
    }

    /// Adds a query parameter where a value is given.
    pub fn try_add_query_param(self, key: String, value: Option<String>) -> (b: Self)
        ensures
            b@ == (match value {
                Some(v) => RequestView { query_params: self@.query_params.push((key@, v@)), ..self@ },
                None => self@,
            }),
    {
        match value {
            Some(v) => self.add_query_param(key, v),
            None => self,
        }
    }

    /// Sets the endpoint, the path after the address.
    pub fn set_endpoint(self, end_point: String) -> (b: Self)
        ensures
            b@ == (RequestView { end_point: end_point@, ..self@ }),
    {
        let mut b = self;
        b.end_point = end_point;
        b
    }

    /// Signs the request with these credentials.
    pub fn sign(self, credentials: APIKeyData) -> (b: Self)
        ensures
            b@ == (RequestView { credentials: Some(credentials@), ..self@ }),
    {
        let mut b = self;
        b.credentials = Some(credentials);
        b
    }

    /// Sets the method.
    pub fn set_method(self, method: RequestMethod) -> (b: Self)
        ensures
            b@ == (RequestView { method, ..self@ }),
    {
        let mut b = self;
        b.method = method;
        b
    }

    /// Sets the body, already serialized as JSON.
    pub fn set_body(self, body: String) -> (b: Self)
        ensures
            b@ == (RequestView { body: body@, ..self@ }),
    {
        let mut b = self;
        b.body = body;
        b
    }

    /// The client the request goes through.
    pub open spec fn http_client(&self) -> reqwest::Client {
        self@.client
    }

    /// The client the request goes through.
    pub fn client(&self) -> (res: &reqwest::Client)
        ensures
            *res == self.http_client(),
    {
        &self.client
    }

    /// The headers of the request, with this query, signed at `timestamp`.
    fn headers_at(&self, timestamp: i64, params: &Vec<(String, String)>) -> (res: Option<Vec<(String, String)>>)
        ensures
            res.deep_view() == request_headers(self@, timestamp, params.deep_view()),
    {
        let mut headers: Vec<(String, String)> = Vec::new();
        headers.push((String::from_str("User-Agent"), self.user_agent.clone()));
        headers.push((String::from_str("Content-Type"), String::from_str("application/json")));
        let ghost base = headers.deep_view();
        assert(base =~= seq![("User-Agent"@, self@.user_agent), ("Content-Type"@, "application/json"@)]);
        match &self.credentials {
            None => Some(headers),
            Some(c) => {
                let method = self.method.as_string();
                match sign_request(c, timestamp, self.end_point.as_str(), Some(params), method.as_str(), self.body.as_str()) {
                    None => None,
                    Some(signed) => {
                        let mut signed = signed;
                        let ghost h = signed.deep_view();
                        headers.append(&mut signed);
                        assert(headers.deep_view() =~= base + h);
                        Some(headers)
                    },
                }
            },
        }
    }

    /// The request ready to send, signed at `timestamp`: see
    /// `prepared_request`.
    pub fn prepare_at(&self, timestamp: i64) -> (res: Option<PreparedRequest>)
        ensures
            prepared_as(prepared_request(self@, timestamp), res),
    {
        let headers = match self.headers_at(timestamp, &self.query_params) {
            Some(h) => h,
            None => {
                return None;
            },
        };
        let url = crate::text::concat(self.url.as_str(), self.end_point.as_str());
        Some(PreparedRequest {
            method: self.method,
            url,
            headers,
            query: clone_pairs(&self.query_params),
            body: Some(self.body.clone()),
        })
    }

    /// The request ready to send, signed now: as `prepare_at` at the time
    /// the clock gives.
    pub fn prepare(&self) -> (res: Option<PreparedRequest>)
        ensures
            exists|t: i64| prepared_as(#[trigger] prepared_request(self@, t), res),
    {
        let t = unix_timestamp();
        self.prepare_at(t)
    }

    /// One page of the request, signed at `timestamp`: see `prepared_page`.
    pub fn prepare_page_at(&self, timestamp: i64, after: Option<String>) -> (res: Option<PreparedRequest>)
        ensures
            prepared_as(prepared_page(self@, timestamp, cursor_view(after)), res),
    {
        let mut params = clone_pairs(&self.query_params);
        let ghost own = params.deep_view();
        match after {
            Some(a) => {
                params.push((String::from_str("after"), a));
                assert(params.deep_view() =~= own.push(("after"@, a@)));
            },
            None => {},
        }
        let headers = match self.headers_at(timestamp, &params) {
            Some(h) => h,
            None => {
                return None;
            },
        };
        let url = crate::text::concat(self.url.as_str(), self.end_point.as_str());
        Some(PreparedRequest { method: self.method, url, headers, query: params, body: None })
    }

    /// One page of the request, signed now: as `prepare_page_at` at the
    /// time the clock gives.
    pub fn prepare_page(&self, after: Option<String>) -> (res: Option<PreparedRequest>)
        ensures
            exists|t: i64| prepared_as(#[trigger] prepared_page(self@, t, cursor_view(after)), res),
    {
        let t = unix_timestamp();
        self.prepare_page_at(t, after)
    }
}

/// What a response gives: the parsed value where the body parsed as one;
/// else the server's error where the body is one; else the parse error
/// with the body.
pub fn response_outcome<T>(body: String, parsed: Result<T, serde_json::Error>, server_error: Option<CBProServerError>) -> (res: Result<T, Error>)
    ensures
        match parsed {
            Ok(v) => res == Ok::<T, Error>(v),
            Err(e) => match server_error {
                Some(s) => res == Err::<T, Error>(Error::CBProServerErrorVariant(s)),
                None => res == Err::<T, Error>(Error::SerdeError { source: e, string: body }),
            },
        },
{
    match parsed {
        Ok(v) => Ok(v),
        Err(e) => match server_error {
            Some(s) => Err(Error::CBProServerErrorVariant(s)),
            None => Err(Error::SerdeError { source: e, string: body }),
        },
    }
}

/// Adds a page to the items collected so far; tells whether another page
/// should be asked for, which is when this one was full.
pub fn collect_page<O>(collected: &mut Vec<O>, page: Vec<O>) -> (more: bool)
    ensures
        final(collected)@ == old(collected)@ + page@,
        more == (page@.len() == PAGE_LEN),
{
    let mut page = page;
    let len = page.len();
    collected.append(&mut page);
    len == PAGE_LEN
}

/// The message a signature covers is the decimal timestamp, then the
/// method, then the path with its query, then the body, one after the
/// other and nothing else.
pub proof fn lemma_signature_message_parts(timestamp: i64, method: Seq<char>, path: Seq<char>, body: Seq<char>)
    ensures
        ({
            let message = signature_message(timestamp, method, path, body);
            let stamp = signed_decimal(timestamp as int);
            let a = stamp.len() as int;
            let b = a + method.len();
            let c = b + path.len();
            &&& message.len() == stamp.len() + method.len() + path.len() + body.len()
            &&& message.take(a) == stamp
            &&& message.subrange(a, b) == method
            &&& message.subrange(b, c) == path
            &&& message.skip(c) == body
        }),
{
    let message = signature_message(timestamp, method, path, body);
    let stamp = signed_decimal(timestamp as int);
    let a = stamp.len() as int;
    let b = a + method.len();
    let c = b + path.len();
    assert(message.take(a) =~= stamp);
    assert(message.subrange(a, b) =~= method);
    assert(message.subrange(b, c) =~= path);
    assert(message.skip(c) =~= body);
}

/// The headers that sign a request: none where the secret is no valid
/// base64; else the key, the signature (base64 of the HMAC-SHA256, under
/// the decoded secret, of the timestamp, the method, the path with its
/// query and the body, in that order), the timestamp and the passphrase.
pub proof fn lemma_signing_headers_cover_request(
    credentials: (Seq<char>, Seq<char>, Seq<char>),
    timestamp: i64,
    path: Seq<char>,
    params: Option<Seq<(Seq<char>, Seq<char>)>>,
    method: Seq<char>,
    body: Seq<char>,
)
    ensures
        match base64_decoding(encode_utf8(credentials.1)) {
            None => signing_headers(credentials, timestamp, path, params, method, body) is None,
            Some(key) => signing_headers(credentials, timestamp, path, params, method, body) == Some(
                seq![
                    ("CB-ACCESS-KEY"@, credentials.0),
                    ("CB-ACCESS-SIGN"@, base64_encoding(hmac_sha256_of(key, encode_utf8(
                        signed_decimal(timestamp as int) + method + signature_path(path, params) + body,
                    )))),
                    ("CB-ACCESS-TIMESTAMP"@, signed_decimal(timestamp as int)),
                    ("CB-ACCESS-PASSPHRASE"@, credentials.2),
                ],
            ),
        },
{
    let m = signature_message(timestamp, method, signature_path(path, params), body);
    lemma_signature_message_parts(timestamp, method, signature_path(path, params), body);
    assert(m =~= signed_decimal(timestamp as int) + method + signature_path(path, params) + body);
}

/// A prepared request is signed over what it sends: its query is the
/// request's own and its body is the request's body, and where the request
/// has credentials with a valid secret, the signature header covers the
/// timestamp, the method, the endpoint with exactly that query, and that
/// body.
pub proof fn lemma_prepared_request_signs_what_it_sends(r: RequestView, timestamp: i64)
    ensures
        match prepared_request(r, timestamp) {
            None => r.credentials matches Some(c) && base64_decoding(encode_utf8(c.1)) is None,
            Some(pv) => {
                &&& pv.query == r.query_params
                &&& pv.body == Some(r.body)
                &&& pv.url == r.url + r.end_point
                &&& pv.headers.take(2) == seq![("User-Agent"@, r.user_agent), ("Content-Type"@, "application/json"@)]
                &&& match r.credentials {
                    None => pv.headers.len() == 2,
                    Some(c) => pv.headers.len() == 6 && pv.headers[3] == (
                        "CB-ACCESS-SIGN"@,
                        base64_encoding(hmac_sha256_of(
                            base64_decoding(encode_utf8(c.1))->0,
                            encode_utf8(signed_decimal(timestamp as int) + method_name(r.method)
                                + signature_path(r.end_point, Some(pv.query)) + r.body),
                        )),
                    ),
                }
            },
        },
{
    if let Some(c) = r.credentials {
        lemma_signing_headers_cover_request(c, timestamp, r.end_point, Some(r.query_params), method_name(r.method), r.body);
    }
    if let Some(pv) = prepared_request(r, timestamp) {
        assert(pv.headers.take(2) =~= seq![("User-Agent"@, r.user_agent), ("Content-Type"@, "application/json"@)]);
    }
}

/// A prepared page is signed over the query it sends: that query is the
/// request's own, then `after` where a cursor is given, no body is sent,
/// and where the request has credentials with a valid secret, the
/// signature header covers the timestamp, the method, the endpoint with
/// exactly that query, and the request's body.
pub proof fn lemma_prepared_page_signs_its_query(r: RequestView, timestamp: i64, after: Option<Seq<char>>)
    ensures
        match prepared_page(r, timestamp, after) {
            None => r.credentials matches Some(c) && base64_decoding(encode_utf8(c.1)) is None,
            Some(pv) => {
                &&& pv.query == match after {
                    None => r.query_params,
                    Some(a) => r.query_params.push(("after"@, a)),
                }
                &&& pv.body is None
                &&& pv.url == r.url + r.end_point
                &&& pv.headers.take(2) == seq![("User-Agent"@, r.user_agent), ("Content-Type"@, "application/json"@)]
                &&& match r.credentials {
                    None => pv.headers.len() == 2,
                    Some(c) => pv.headers.len() == 6 && pv.headers[3] == (
                        "CB-ACCESS-SIGN"@,
                        base64_encoding(hmac_sha256_of(
                            base64_decoding(encode_utf8(c.1))->0,
                            encode_utf8(signed_decimal(timestamp as int) + method_name(r.method)
                                + signature_path(r.end_point, Some(pv.query)) + r.body),
                        )),
                    ),
                }
            },
        },
{
    let params = page_params(r.query_params, after);
    if let Some(c) = r.credentials {
        lemma_signing_headers_cover_request(c, timestamp, r.end_point, Some(params), method_name(r.method), r.body);
    }
    if let Some(pv) = prepared_page(r, timestamp, after) {
        assert(pv.headers.take(2) =~= seq![("User-Agent"@, r.user_agent), ("Content-Type"@, "application/json"@)]);
    }
}

/// The path a signature covers: the bare path where there is no query or
/// an empty one; the first pair adds `?key=value` to the path, and each
/// further pair adds `&key=value`, in the order of the query.
pub proof fn lemma_signature_path_query(path: Seq<char>, params: Seq<(Seq<char>, Seq<char>)>, key: Seq<char>, value: Seq<char>)
    ensures
        signature_path(path, None) == path,
        signature_path(path, Some(Seq::empty())) == path,
        signature_path(path, Some(params.push((key, value)))) == signature_path(path, Some(params))
            + (if params.len() == 0 { "?"@ } else { "&"@ }) + key + "="@ + value,
{
    reveal_strlit("?");
    reveal_strlit("&");
    reveal_strlit("=");
    assert((path + "?"@ + query_pairs_text(Seq::empty())).drop_last() =~= path);
    let ps = params.push((key, value));
    assert(ps.drop_last() =~= params);
    assert(ps.last() == (key, value));
    let before = path + "?"@ + query_pairs_text(params);
    let after = path + "?"@ + query_pairs_text(ps);
    assert(after =~= before + key + "="@ + value + "&"@);
    if params.len() == 0 {
        assert(before =~= path + "?"@);
        assert(after.drop_last() =~= path + "?"@ + key + "="@ + value);
    } else {
        assert(before.len() > 0);
        assert(before.last() == '&') by {
            let q = query_pairs_text(params);
            assert(q =~= query_pairs_text(params.drop_last()) + params.last().0 + "="@ + params.last().1 + "&"@);
        }
        assert(before =~= before.drop_last() + "&"@);
        assert(after.drop_last() =~= before.drop_last() + "&"@ + key + "="@ + value);
    }
}

} // verus!

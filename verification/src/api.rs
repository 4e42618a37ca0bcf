//! The parts of the API client that compute: subscription requests, book
//! levels, credentials and conversions.
use vstd::prelude::*;

use crate::requests::{default_url, CBRequestBuilder, RequestMethod, RequestView};
use crate::errors::WebsocketError;
use crate::text::{concat, concat3};
use crate::websocket_lite::{parse_url, parsed_url, url_value_of, UrlTarget};
use crate::datastructs::websocket::{
    channel_view, Channel, ChannelView, FullChannel, HeartbeatChannel, Level2Channel, StatusChannel,
    SubscribeRequest, TickerChannel,
};

verus! {

/// A conversion between two currencies.
#[derive(Debug)]
pub struct Conversion {
    pub id: String,
    pub amount: String,
    pub from_account_id: String,
    pub to_account_id: String,
    pub from: String,
    pub to: String,
}

/// The products a subscription request is built from, channel by channel.
pub ghost struct SubscriptionView {
    pub heartbeat: Seq<String>,
    pub ticker: Seq<String>,
    pub level2: Seq<String>,
    pub matches: Seq<String>,
    pub full: Seq<String>,
    pub status: bool,
}

/// Builds a websocket subscription request: products are added channel by
/// channel, and `build` gives the request.
pub struct SubscriptionBuilder {
    heartbeat_products: Vec<String>,
    ticker_products: Vec<String>,
    l2_products: Vec<String>,
    match_products: Vec<String>,
    full_channel_products: Vec<String>,
    status_channel: bool,
}

impl View for SubscriptionBuilder {
    type V = SubscriptionView;

    closed spec fn view(&self) -> SubscriptionView {
        SubscriptionView {
            heartbeat: self.heartbeat_products@,
            ticker: self.ticker_products@,
            level2: self.l2_products@,
            matches: self.match_products@,
            full: self.full_channel_products@,
            status: self.status_channel,
        }
    }
}

/// The channels a request built from `v` holds, in this order: heartbeat,
/// ticker, level 2, full, status; each only where products (or, for
/// status, the flag) were given.
pub open spec fn subscription_channels(v: SubscriptionView) -> Seq<ChannelView> {
    (if v.heartbeat.len() > 0 { seq![ChannelView::Heartbeat(v.heartbeat)] } else { Seq::empty() })
        + (if v.ticker.len() > 0 { seq![ChannelView::Ticker(v.ticker)] } else { Seq::empty() })
        + (if v.level2.len() > 0 { seq![ChannelView::Level2(v.level2)] } else { Seq::empty() })
        + (if v.full.len() > 0 { seq![ChannelView::Full(v.full)] } else { Seq::empty() })
        + (if v.status { seq![ChannelView::Status] } else { Seq::empty() })
}

impl SubscriptionBuilder {
    /// A builder with no channel.
    pub fn new() -> (b: Self)
        ensures
            b@ == (SubscriptionView {
                heartbeat: Seq::empty(),
                ticker: Seq::empty(),
                level2: Seq::empty(),
                matches: Seq::empty(),
                full: Seq::empty(),
                status: false,
            }),
    {
        SubscriptionBuilder {
            heartbeat_products: Vec::new(),
            ticker_products: Vec::new(),
            l2_products: Vec::new(),
            match_products: Vec::new(),
            full_channel_products: Vec::new(),
            status_channel: false,
        }
    }

    /// Adds a product to the heartbeat channel.
    pub fn subscribe_to_heartbeat(self, product: String) -> (b: Self)
        ensures
            b@ == (SubscriptionView { heartbeat: self@.heartbeat.push(product), ..self@ }),
    {
        let mut b = self;
        b.heartbeat_products.push(product);
        b
    }

    /// Moves products to the heartbeat channel, leaving `product` empty.
    pub fn subscribe_to_heartbeat_vec(self, product: &mut Vec<String>) -> (b: Self)
        ensures
            b@ == (SubscriptionView { heartbeat: self@.heartbeat + old(product)@, ..self@ }),
            final(product)@ == Seq::<String>::empty(),
    {
        let mut b = self;
        b.heartbeat_products.append(product);
        b
    }

    /// Adds the status channel.
    pub fn subscribe_to_status(self) -> (b: Self)
        ensures
            b@ == (SubscriptionView { status: true, ..self@ }),
    {
        let mut b = self;
        b.status_channel = true;
        b
    }

    /// Adds a product to the ticker channel.
    pub fn subscribe_to_ticker(self, product: String) -> (b: Self)
        ensures
            b@ == (SubscriptionView { ticker: self@.ticker.push(product), ..self@ }),
    {
        let mut b = self;
        b.ticker_products.push(product);
        b
    }

    /// Moves products to the ticker channel, leaving `product` empty.
    pub fn subscribe_to_ticker_vec(self, product: &mut Vec<String>) -> (b: Self)
        ensures
            b@ == (SubscriptionView { ticker: self@.ticker + old(product)@, ..self@ }),
            final(product)@ == Seq::<String>::empty(),
    {
        let mut b = self;
        b.ticker_products.append(product);
        b
    }

    /// Adds a product to the level-2 channel.
    pub fn subscribe_to_snapshot(self, product: String) -> (b: Self)
        ensures
            b@ == (SubscriptionView { level2: self@.level2.push(product), ..self@ }),
    {
        let mut b = self;
        b.l2_products.push(product);
        b
    }

    /// Moves products to the level-2 channel, leaving `product` empty.
    pub fn subscribe_to_snapshot_vec(self, product: &mut Vec<String>) -> (b: Self)
        ensures
            b@ == (SubscriptionView { level2: self@.level2 + old(product)@, ..self@ }),
            final(product)@ == Seq::<String>::empty(),
    {
        let mut b = self;
        b.l2_products.append(product);
        b
    }

    /// Adds a product to the full channel.
    pub fn subscribe_to_full(self, product: String) -> (b: Self)
        ensures
            b@ == (SubscriptionView { full: self@.full.push(product), ..self@ }),
    {
        let mut b = self;
        b.full_channel_products.push(product);
        b
    }

    /// Moves products to the full channel, leaving `product` empty.
    pub fn subscribe_to_full_vec(self, product: &mut Vec<String>) -> (b: Self)
        ensures
            b@ == (SubscriptionView { full: self@.full + old(product)@, ..self@ }),
            final(product)@ == Seq::<String>::empty(),
    {
        let mut b = self;
        b.full_channel_products.append(product);
        b
    }

    /// The subscription request: see `subscription_channels`.
    pub fn build(self) -> (request: SubscribeRequest)
        ensures
            request.channels@.map_values(|c: Channel| channel_view(c)) == subscription_channels(self@),
    {
        let ghost v = self@;
        let mut channels: Vec<Channel> = Vec::new();
        let ghost mut expected: Seq<ChannelView> = Seq::empty();
        if self.heartbeat_products.len() > 0 {
            channels.push(Channel::Heartbeat(HeartbeatChannel { product_ids: self.heartbeat_products }));
        }
        proof {
            expected = expected + (if v.heartbeat.len() > 0 { seq![ChannelView::Heartbeat(v.heartbeat)] } else { Seq::empty() });
        }
        assert(channels@.map_values(|c: Channel| channel_view(c)) =~= expected);
        if self.ticker_products.len() > 0 {
            channels.push(Channel::Ticker(TickerChannel { product_ids: self.ticker_products }));
        }
        proof {
            expected = expected + (if v.ticker.len() > 0 { seq![ChannelView::Ticker(v.ticker)] } else { Seq::empty() });
        }
        assert(channels@.map_values(|c: Channel| channel_view(c)) =~= expected);
        if self.l2_products.len() > 0 {
            channels.push(Channel::Level2(Level2Channel { product_ids: self.l2_products }));
        }
        proof {
            expected = expected + (if v.level2.len() > 0 { seq![ChannelView::Level2(v.level2)] } else { Seq::empty() });
        }
        assert(channels@.map_values(|c: Channel| channel_view(c)) =~= expected);
        if self.full_channel_products.len() > 0 {
            channels.push(Channel::Full(FullChannel { product_ids: self.full_channel_products }));
        }
        proof {
            expected = expected + (if v.full.len() > 0 { seq![ChannelView::Full(v.full)] } else { Seq::empty() });
        }
        assert(channels@.map_values(|c: Channel| channel_view(c)) =~= expected);
        if self.status_channel {
            channels.push(Channel::Status(StatusChannel {}));
        }
        proof {
            expected = expected + (if v.status { seq![ChannelView::Status] } else { Seq::empty() });
        }
        assert(channels@.map_values(|c: Channel| channel_view(c)) =~= expected);
        assert(expected =~= subscription_channels(v));
        SubscribeRequest { channels }
    }
}

/// The depth of a product book: best bid and ask, the top fifty levels, or
/// the full book.
#[derive(Clone, Copy, PartialEq, Eq, Structural, Debug)]
pub enum Level {
    One,
    Two,
    Three,
}

/// The number of a level.
pub open spec fn level_number(level: Level) -> nat {
    match level {
        Level::One => 1,
        Level::Two => 2,
        Level::Three => 3,
    }
}

impl Level {
    /// The number of the level as text: "1", "2" or "3".
    pub fn as_string(&self) -> (res: String)
        ensures
            res@ == crate::text::decimal(level_number(*self)),
    {
        let n: u64 = match self {
            Level::One => 1,
            Level::Two => 2,
            Level::Three => 3,
        };
        crate::text::u64_to_decimal(n)
    }
}

/// The URL a websocket is opened to, parsed; a text that does not parse
/// gives the parse error with the parser's message and the text.
pub fn websocket_target(url: &str) -> (res: Result<UrlTarget, WebsocketError>)
    ensures
        match parsed_url(url@) {
            Ok(t) => res matches Ok(r) && r@ == t && r.parsed_value() == url_value_of(url@),
            Err(msg) => res matches Err(WebsocketError::URLParseError { source, url: u }) && source@ == msg
                && u@ == url@,
        },
{
    match parse_url(url) {
        Ok(t) => Ok(t),
        Err(msg) => Err(WebsocketError::URLParseError { source: msg, url: url.to_owned() }),
    }
}

/// Opens websocket streams over TLS; the connecting is done where the
/// network is.
#[derive(Clone, Copy, Debug)]
pub struct TokioTlsStreamBuilder {}

/// The credentials of an API key.
pub struct APIKeyData {
    pub key: String,
    pub secret: String,
    pub passphrase: String,
}

impl View for APIKeyData {
    type V = (Seq<char>, Seq<char>, Seq<char>);

    open spec fn view(&self) -> (Seq<char>, Seq<char>, Seq<char>) {
        (self.key@, self.secret@, self.passphrase@)
    }
}

impl Clone for APIKeyData {
    fn clone(&self) -> (c: Self)
        ensures
            c@ == self@,
    {
        APIKeyData { key: self.key.clone(), secret: self.secret.clone(), passphrase: self.passphrase.clone() }
    }
}

/// The request an endpoint of the API sends, before it is prepared: the
/// client it goes through, the user agent, the endpoint's path, its query,
/// its credentials, its method and its body, at the default address.
pub open spec fn endpoint_request(
    client: reqwest::Client,
    user_agent: Seq<char>,
    end_point: Seq<char>,
    query_params: Seq<(Seq<char>, Seq<char>)>,
    credentials: Option<(Seq<char>, Seq<char>, Seq<char>)>,
    method: RequestMethod,
    body: Seq<char>,
) -> RequestView {
    RequestView { client, user_agent, credentials, end_point, query_params, body, url: default_url(), method }
}

/// The optional query parameters that were given, in order.
pub open spec fn given_params(params: Seq<(Seq<char>, Option<String>)>) -> Seq<(Seq<char>, Seq<char>)>
    decreases params.len(),
{
    if params.len() == 0 {
        Seq::empty()
    } else {
        let rest = given_params(params.drop_last());
        match params.last().1 {
            Some(v) => rest.push((params.last().0, v@)),
            None => rest,
        }
    }
}

/// The requests behind the endpoints of the API: each endpoint's path,
/// query, credentials, method and body, sent through one client with one
/// user agent.
pub struct EndpointRequests {
    client: reqwest::Client,
    user_agent: String,
}

impl EndpointRequests {
    /// Requests through `client` with this user agent.
    pub fn new(client: reqwest::Client, user_agent: String) -> (r: Self)
        ensures
            r.user_agent() == user_agent@,
            r.http_client() == client,
    {
        EndpointRequests { client, user_agent }
    }

    /// The client the requests go through.
    pub closed spec fn http_client(&self) -> reqwest::Client {
        self.client
    }

    /// The user agent the requests carry.
    pub closed spec fn user_agent(&self) -> Seq<char> {
        self.user_agent@
    }

    /// The client the requests go through.
    pub fn client(&self) -> (res: &reqwest::Client)
        ensures
            *res == self.http_client(),
    {
        &self.client
    }

    fn base(&self) -> (b: CBRequestBuilder)
        ensures
            b@ == endpoint_request(self.http_client(), self.user_agent(), Seq::empty(), Seq::empty(), None, RequestMethod::GET, Seq::empty()),
    {
        CBRequestBuilder::new(&self.client, self.user_agent.clone())
    }

    /// The book of a product, at a depth where one is given.
    pub fn get_product_book(&self, product_id: String, level: Option<Level>) -> (b: CBRequestBuilder)
        ensures
            b@ == endpoint_request(
                self.http_client(),
                self.user_agent(),
                "/products/"@ + product_id@ + "/book"@,
                match level {
                    Some(l) => seq![("level"@, crate::text::decimal(level_number(l)))],
                    None => Seq::empty(),
                },
                None,
                RequestMethod::GET,
                Seq::empty(),
            ),
    {
        let level_text = match level {
            Some(l) => Some(l.as_string()),
            None => None,
        };
        let b = self.base().try_add_query_param(String::from_str("level"), level_text);
        assert(match level {
            Some(l) => b@.query_params =~= seq![("level"@, crate::text::decimal(level_number(l)))],
            None => b@.query_params =~= Seq::<(Seq<char>, Seq<char>)>::empty(),
        });
        b.set_endpoint(concat3("/products/", product_id.as_str(), "/book"))
    }

    /// All products.
    pub fn get_all_products(&self) -> (b: CBRequestBuilder)
        ensures
            b@ == endpoint_request(self.http_client(), self.user_agent(), "/products"@, Seq::empty(), None, RequestMethod::GET, Seq::empty()),
    {
        self.base().set_endpoint(String::from_str("/products"))
    }

    /// One product.
    pub fn get_product(&self, product_id: String) -> (b: CBRequestBuilder)
        ensures
            b@ == endpoint_request(
                self.http_client(),
                self.user_agent(),
                "/products/"@ + product_id@,
                Seq::empty(),
                None,
                RequestMethod::GET,
                Seq::empty(),
            ),
    {
        self.base().set_endpoint(concat("/products/", product_id.as_str()))
    }

    /// The fees of an account.
    pub fn get_fees(&self, account: APIKeyData) -> (b: CBRequestBuilder)
        ensures
            b@ == endpoint_request(self.http_client(), self.user_agent(), "/fees"@, Seq::empty(), Some(account@), RequestMethod::GET, Seq::empty()),
    {
        self.base().set_endpoint(String::from_str("/fees")).sign(account)
    }

    /// The accounts of a profile.
    pub fn get_accounts(&self, account: APIKeyData) -> (b: CBRequestBuilder)
        ensures
            b@ == endpoint_request(self.http_client(), self.user_agent(), "/accounts"@, Seq::empty(), Some(account@), RequestMethod::GET, Seq::empty()),
    {
        self.base().set_endpoint(String::from_str("/accounts")).sign(account)
    }

    /// One account.
    pub fn get_account(&self, account: APIKeyData, account_id: &str) -> (b: CBRequestBuilder)
        ensures
            b@ == endpoint_request(
                self.http_client(),
                self.user_agent(),
                "/accounts/"@ + account_id@,
                Seq::empty(),
                Some(account@),
                RequestMethod::GET,
                Seq::empty(),
            ),
    {
        self.base().set_endpoint(concat("/accounts/", account_id)).sign(account)
    }

    /// The holds of an account, asked for page by page.
    pub fn get_account_holds(&self, account: APIKeyData, account_id: &str) -> (b: CBRequestBuilder)
        ensures
            b@ == endpoint_request(
                self.http_client(),
                self.user_agent(),
                "/accounts/"@ + account_id@ + "/holds"@,
                Seq::empty(),
                Some(account@),
                RequestMethod::GET,
                Seq::empty(),
            ),
    {
        self.base().set_endpoint(concat3("/accounts/", account_id, "/holds")).sign(account)
    }

    /// The ledger of an account, asked for page by page.
    pub fn get_account_ledger(&self, account: APIKeyData, account_id: &str) -> (b: CBRequestBuilder)
        ensures
            b@ == endpoint_request(
                self.http_client(),
                self.user_agent(),
                "/accounts/"@ + account_id@ + "/ledger"@,
                Seq::empty(),
                Some(account@),
                RequestMethod::GET,
                Seq::empty(),
            ),
    {
        self.base().set_endpoint(concat3("/accounts/", account_id, "/ledger")).sign(account)
    }

    /// The wallets of a profile.
    pub fn get_all_wallets(&self, account: APIKeyData) -> (b: CBRequestBuilder)
        ensures
            b@ == endpoint_request(
                self.http_client(),
                self.user_agent(),
                "/coinbase-accounts"@,
                Seq::empty(),
                Some(account@),
                RequestMethod::GET,
                Seq::empty(),
            ),
    {
        self.base().set_endpoint(String::from_str("/coinbase-accounts")).sign(account)
    }

    /// The transfers of an account, asked for page by page.
    pub fn get_account_transfers(&self, account: APIKeyData, account_id: &str) -> (b: CBRequestBuilder)
        ensures
            b@ == endpoint_request(
                self.http_client(),
                self.user_agent(),
                "/accounts/"@ + account_id@ + "/transfers"@,
                Seq::empty(),
                Some(account@),
                RequestMethod::GET,
                Seq::empty(),
            ),
    {
        self.base().set_endpoint(concat3("/accounts/", account_id, "/transfers")).sign(account)
    }

    /// One conversion of a profile.
    pub fn get_conversion(&self, account: APIKeyData, conversion_id: &str, profile_id: &str) -> (b: CBRequestBuilder)
        ensures
            b@ == endpoint_request(
                self.http_client(),
                self.user_agent(),
                "/conversions/"@ + conversion_id@,
                seq![("profile_id"@, profile_id@)],
                Some(account@),
                RequestMethod::GET,
                Seq::empty(),
            ),
    {
        let b = self.base()
            .set_endpoint(concat("/conversions/", conversion_id))
            .add_query_param(String::from_str("profile_id"), String::from_str(profile_id))
            .sign(account);
        assert(b@.query_params =~= seq![("profile_id"@, profile_id@)]);
        b
    }

    /// All currencies.
    pub fn get_currencies(&self) -> (b: CBRequestBuilder)
        ensures
            b@ == endpoint_request(self.http_client(), self.user_agent(), "/currencies"@, Seq::empty(), None, RequestMethod::GET, Seq::empty()),
    {
        self.base().set_endpoint(String::from_str("/currencies"))
    }

    /// One currency.
    pub fn get_currency(&self, currency_id: String) -> (b: CBRequestBuilder)
        ensures
            b@ == endpoint_request(
                self.http_client(),
                self.user_agent(),
                "/currencies/"@ + currency_id@,
                Seq::empty(),
                None,
                RequestMethod::GET,
                Seq::empty(),
            ),
    {
        self.base().set_endpoint(concat("/currencies/", currency_id.as_str()))
    }

    /// The fills of a profile, asked for page by page, narrowed to the
    /// order, product and profile that are given.
    pub fn get_fills(
        &self,
        account: APIKeyData,
        order_id: Option<String>,
        product_id: Option<String>,
        profile_id: Option<String>,
    ) -> (b: CBRequestBuilder)
        ensures
            b@ == endpoint_request(
                self.http_client(),
                self.user_agent(),
                "/fills"@,
                given_params(seq![("order_id"@, order_id), ("product_id"@, product_id), ("profile_id"@, profile_id)]),
                Some(account@),
                RequestMethod::GET,
                Seq::empty(),
            ),
    {
        let ghost ps = seq![("order_id"@, order_id), ("product_id"@, product_id), ("profile_id"@, profile_id)];
        assert(ps.drop_last().drop_last().drop_last() =~= Seq::<(Seq<char>, Option<String>)>::empty());
        assert(ps.drop_last().drop_last() =~= seq![("order_id"@, order_id)]);
        assert(ps.drop_last() =~= seq![("order_id"@, order_id), ("product_id"@, product_id)]);
        let b0 = self.base().set_endpoint(String::from_str("/fills"));
        assert(b0@.query_params == given_params(ps.drop_last().drop_last().drop_last()));
        let b1 = b0.try_add_query_param(String::from_str("order_id"), order_id);
        assert(b1@.query_params == given_params(ps.drop_last().drop_last()));
        let b2 = b1.try_add_query_param(String::from_str("product_id"), product_id);
        assert(b2@.query_params == given_params(ps.drop_last()));
        let b3 = b2.try_add_query_param(String::from_str("profile_id"), profile_id);
        assert(b3@.query_params == given_params(ps));
        b3.sign(account)
    }

    /// The orders of a profile, asked for page by page, narrowed to the
    /// product and profile that are given.
    pub fn get_orders(&self, account: APIKeyData, product_id: Option<String>, profile_id: Option<String>) -> (b: CBRequestBuilder)
        ensures
            b@ == endpoint_request(
                self.http_client(),
                self.user_agent(),
                "/orders"@,
                given_params(seq![("product_id"@, product_id), ("profile_id"@, profile_id)]),
                Some(account@),
                RequestMethod::GET,
                Seq::empty(),
            ),
    {
        let ghost ps = seq![("product_id"@, product_id), ("profile_id"@, profile_id)];
        assert(ps.drop_last().drop_last() =~= Seq::<(Seq<char>, Option<String>)>::empty());
        assert(ps.drop_last() =~= seq![("product_id"@, product_id)]);
        let b0 = self.base().set_endpoint(String::from_str("/orders"));
        assert(b0@.query_params == given_params(ps.drop_last().drop_last()));
        let b1 = b0.try_add_query_param(String::from_str("product_id"), product_id);
        assert(b1@.query_params == given_params(ps.drop_last()));
        let b2 = b1.try_add_query_param(String::from_str("profile_id"), profile_id);
        assert(b2@.query_params == given_params(ps));
        b2.sign(account)
    }

    /// Places an order; `order` is the order serialized as JSON.
    pub fn create_order(&self, account: APIKeyData, order: String) -> (b: CBRequestBuilder)
        ensures
            b@ == endpoint_request(self.http_client(), self.user_agent(), "/orders"@, Seq::empty(), Some(account@), RequestMethod::POST, order@),
    {
        self.base()
            .set_endpoint(String::from_str("/orders"))
            .set_method(RequestMethod::POST)
            .set_body(order)
            .sign(account)
    }

    /// One order.
    pub fn get_single_order(&self, account: APIKeyData, order_id: String) -> (b: CBRequestBuilder)
        ensures
            b@ == endpoint_request(
                self.http_client(),
                self.user_agent(),
                "/orders/"@ + order_id@,
                Seq::empty(),
                Some(account@),
                RequestMethod::GET,
                Seq::empty(),
            ),
    {
        self.base().set_endpoint(concat("/orders/", order_id.as_str())).sign(account)
    }
}

} // verus!

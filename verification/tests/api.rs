use coinbase_pro::api::{APIKeyData, EndpointRequests, Level, SubscriptionBuilder};
use coinbase_pro::datastructs::accounts::{LedgerDetail, MatchDetail};
use coinbase_pro::datastructs::orders::{
    not, LimitOrder, MarketOrder, MarketOrderValue, SelfTradePrevention, Side, Stop, TimeInForce, CancelAfter,
};
use coinbase_pro::datastructs::websocket::Channel;
use coinbase_pro::requests::RequestMethod;

fn names(channels: &[Channel]) -> Vec<(&'static str, Vec<String>)> {
    channels
        .iter()
        .map(|c| match c {
            Channel::Heartbeat(h) => ("heartbeat", h.product_ids.clone()),
            Channel::Ticker(t) => ("ticker", t.product_ids.clone()),
            Channel::Level2(l) => ("level2", l.product_ids.clone()),
            Channel::Full(f) => ("full", f.product_ids.clone()),
            Channel::Status(_) => ("status", vec![]),
        })
        .collect()
}

#[test]
fn mocked_api_subscription_request() {
    let request = SubscriptionBuilder::new()
        .subscribe_to_status()
        .subscribe_to_full("".to_string())
        .subscribe_to_snapshot("".to_string())
        .subscribe_to_ticker("".to_string())
        .subscribe_to_heartbeat("".to_string())
        .build();
    assert_eq!(
        names(&request.channels),
        vec![
            ("heartbeat", vec!["".to_string()]),
            ("ticker", vec!["".to_string()]),
            ("level2", vec!["".to_string()]),
            ("full", vec!["".to_string()]),
            ("status", vec![]),
        ]
    );
}

#[test]
fn mocked_api_subscription_request_vecs() {
    let mut a = vec!["".to_string()];
    let mut b = vec!["".to_string()];
    let mut c = vec!["".to_string()];
    let mut d = vec!["".to_string()];
    let request = SubscriptionBuilder::new()
        .subscribe_to_heartbeat_vec(&mut a)
        .subscribe_to_ticker_vec(&mut b)
        .subscribe_to_snapshot_vec(&mut c)
        .subscribe_to_full_vec(&mut d)
        .build();
    assert!(a.is_empty() && b.is_empty() && c.is_empty() && d.is_empty());
    assert_eq!(
        names(&request.channels),
        vec![
            ("heartbeat", vec!["".to_string()]),
            ("ticker", vec!["".to_string()]),
            ("level2", vec!["".to_string()]),
            ("full", vec!["".to_string()]),
        ]
    );
}

#[test]
fn subscription_builder_example() {
    let request = SubscriptionBuilder::new()
        .subscribe_to_ticker("ETH-USD".to_string())
        .subscribe_to_status()
        .subscribe_to_heartbeat("BTC-USD".to_string())
        .subscribe_to_heartbeat("ETH-USD".to_string())
        .build();
    assert_eq!(
        names(&request.channels),
        vec![
            ("heartbeat", vec!["BTC-USD".to_string(), "ETH-USD".to_string()]),
            ("ticker", vec!["ETH-USD".to_string()]),
            ("status", vec![]),
        ]
    );
    assert!(SubscriptionBuilder::new().build().channels.is_empty());
}

#[test]
fn level_numbers() {
    assert_eq!(Level::One.as_string(), "1");
    assert_eq!(Level::Two.as_string(), "2");
    assert_eq!(Level::Three.as_string(), "3");
}

fn account() -> APIKeyData {
    APIKeyData { key: "k".to_string(), secret: "a2V5".to_string(), passphrase: "p".to_string() }
}

#[test]
fn mocked_api_get_product_path_check() {
    let requests = EndpointRequests::new(reqwest::Client::new(), "Rust".to_string());
    let prepared = requests.get_product("MyProduct".to_string()).prepare().unwrap();
    assert!(prepared.url.contains("/MyProduct"));
    assert_eq!(prepared.url, "https://api.exchange.coinbase.com/products/MyProduct");
}

#[test]
fn mocked_api_get_all_products_json_header() {
    let requests = EndpointRequests::new(reqwest::Client::new(), "Rust".to_string());
    let prepared = requests.get_all_products().prepare().unwrap();
    let content_type: Vec<_> = prepared.headers.iter().filter(|(k, v)| k == "Content-Type" && v == "application/json").collect();
    assert_eq!(content_type.len(), 1);
}

#[test]
fn endpoint_paths_and_queries() {
    let requests = EndpointRequests::new(reqwest::Client::new(), "Rust".to_string());
    let book = requests.get_product_book("ETH-USD".to_string(), Some(Level::Two)).prepare().unwrap();
    assert!(book.url.ends_with("/products/ETH-USD/book"));
    assert_eq!(book.query, vec![("level".to_string(), "2".to_string())]);
    let book = requests.get_product_book("ETH-USD".to_string(), None).prepare().unwrap();
    assert!(book.query.is_empty());

    let fills = requests.get_fills(account(), None, Some("ETH-USD".to_string()), Some("p1".to_string()));
    let page = fills.prepare_page(Some("cursor".to_string())).unwrap();
    assert!(page.url.ends_with("/fills"));
    assert_eq!(
        page.query,
        vec![
            ("product_id".to_string(), "ETH-USD".to_string()),
            ("profile_id".to_string(), "p1".to_string()),
            ("after".to_string(), "cursor".to_string()),
        ]
    );
    assert_eq!(page.headers.len(), 6);

    let conversion = requests.get_conversion(account(), "c1", "p1").prepare().unwrap();
    assert!(conversion.url.ends_with("/conversions/c1"));
    assert_eq!(conversion.query, vec![("profile_id".to_string(), "p1".to_string())]);

    let order = requests.create_order(account(), "{}".to_string()).prepare().unwrap();
    assert_eq!(order.method, RequestMethod::POST);
    assert_eq!(order.body, Some("{}".to_string()));

    assert!(requests.get_account_ledger(account(), "a1").prepare().unwrap().url.ends_with("/accounts/a1/ledger"));
    assert!(requests.get_account_holds(account(), "a1").prepare().unwrap().url.ends_with("/accounts/a1/holds"));
    assert!(requests.get_account_transfers(account(), "a1").prepare().unwrap().url.ends_with("/accounts/a1/transfers"));
    assert!(requests.get_all_wallets(account()).prepare().unwrap().url.ends_with("/coinbase-accounts"));
    assert!(requests.get_currency("BTC".to_string()).prepare().unwrap().url.ends_with("/currencies/BTC"));
    assert!(requests.get_single_order(account(), "o1".to_string()).prepare().unwrap().url.ends_with("/orders/o1"));
    let unsigned = requests.get_currencies().prepare().unwrap();
    assert_eq!(unsigned.headers.len(), 2);
    let signed = requests.get_fees(account()).prepare().unwrap();
    assert_eq!(signed.headers.len(), 6);
}

#[test]
fn limit_order_options() {
    let order = LimitOrder::new("ETH-USD".to_string(), Side::SELL, 3115.19f64.to_bits(), 0.005f64.to_bits())
        .set_post_only(true)
        .set_profile_id(Some("p".to_string()))
        .set_time_in_force(Some(TimeInForce::GTT(CancelAfter::Hour)))
        .set_stop(Some(Stop::Loss(3000.0f64.to_bits())))
        .set_self_trade_prevention(Some(SelfTradePrevention::CancelOldest));
    assert!(*order.post_only());
    assert_eq!(order.profile_id(), &Some("p".to_string()));
    assert_eq!(order.time_in_force(), &Some(TimeInForce::GTT(CancelAfter::Hour)));
    assert_eq!(order.stop(), &Some(Stop::Loss(3000.0f64.to_bits())));
    assert_eq!(order.self_trade_prevention(), &Some(SelfTradePrevention::CancelOldest));
    assert_eq!(f64::from_bits(order.price()), 3115.19);
    assert_eq!(order.side(), Side::SELL);
    let plain = LimitOrder::new("ETH-USD".to_string(), Side::BUY, 1, 2);
    assert!(!*plain.post_only());
    assert_eq!(plain.stop(), &None);
    assert!(not(&false));
    assert!(!not(&true));
    let market = MarketOrder::new("ETH-USD".to_string(), Side::BUY, MarketOrderValue::Funds(10.0f64.to_bits()));
    assert_eq!(market.side, Side::BUY);
    assert!(market.profile_id.is_none());
    assert_eq!(Side::default(), Side::BUY);
}

#[test]
fn ledger_detail_names() {
    let detail = LedgerDetail::Match(MatchDetail {
        order_id: "o".to_string(),
        product_id: "p".to_string(),
        trade_id: "t".to_string(),
    });
    assert_eq!(detail.variant_name(), "match");
    assert_eq!(LedgerDetail::Fee(serde_json::Value::Null).variant_name(), "fee");
    assert_eq!(LedgerDetail::Rebate(serde_json::Value::Null).variant_name(), "rebate");
    assert_eq!(LedgerDetail::Conversion(serde_json::Value::Null).variant_name(), "conversion");
}

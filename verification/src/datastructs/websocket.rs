//! Websocket subscription requests and channels.
use vstd::prelude::*;

verus! {

/// A channel of the websocket feed and the products it is asked for.
#[derive(Debug)]
pub enum Channel {
    Heartbeat(HeartbeatChannel),
    Status(StatusChannel),
    Ticker(TickerChannel),
    Level2(Level2Channel),
    Full(FullChannel),
}

/// A channel as a plain value: its kind and the products it is asked for.
pub ghost enum ChannelView {
    Heartbeat(Seq<String>),
    Ticker(Seq<String>),
    Level2(Seq<String>),
    Full(Seq<String>),
    Status,
}

/// The plain value of a channel.
pub open spec fn channel_view(c: Channel) -> ChannelView {
    match c {
        Channel::Heartbeat(h) => ChannelView::Heartbeat(h.product_ids@),
        Channel::Ticker(t) => ChannelView::Ticker(t.product_ids@),
        Channel::Level2(l) => ChannelView::Level2(l.product_ids@),
        Channel::Full(f) => ChannelView::Full(f.product_ids@),
        Channel::Status(_) => ChannelView::Status,
    }
}

/// A request to subscribe to channels.
#[derive(Debug)]
pub struct SubscribeRequest {
    pub channels: Vec<Channel>,
}

/// The channels a connection is subscribed to.
#[derive(Debug)]
pub struct SubscriptionsMessage {
    pub channels: Vec<Channel>,
}

/// Heartbeats for products.
#[derive(Debug)]
pub struct HeartbeatChannel {
    pub product_ids: Vec<String>,
}

/// Level-2 book updates for products.
#[derive(Debug)]
pub struct Level2Channel {
    pub product_ids: Vec<String>,
}

/// Ticker updates for products.
#[derive(Debug)]
pub struct TickerChannel {
    pub product_ids: Vec<String>,
}

/// Every order event for products.
#[derive(Debug)]
pub struct FullChannel {
    pub product_ids: Vec<String>,
}

/// The status of all products and currencies.
#[derive(Debug)]
pub struct StatusChannel {}

/// Details of a fiat currency.
#[derive(Debug)]
pub struct FiatDetails {
    pub symbol: String,
    pub network_confirmations: u64,
    pub sort_order: u64,
    pub crypto_address_link: String,
    pub crypto_transaction_link: String,
    pub push_payment_methods: Vec<String>,
    pub group_types: Vec<String>,
    pub display_name: Option<String>,
}

/// One change of a level-2 update: the side ("buy" or "sell") and the price
/// and size of the level, each held by its IEEE-754 binary64 bit pattern.
#[derive(Debug)]
pub struct Level2Change {
    pub side: String,
    pub price: u64,
    pub size: u64,
}

/// A price level of a snapshot, its price and size each held by its
/// IEEE-754 binary64 bit pattern.
#[derive(Debug)]
pub struct Quote {
    pub price: u64,
    pub size: u64,
}

/// The whole level-2 book of a product at one time.
#[derive(Debug)]
pub struct Level2Snapshot {
    pub product_id: String,
    pub bids: Vec<Quote>,
    pub asks: Vec<Quote>,
}

} // verus!

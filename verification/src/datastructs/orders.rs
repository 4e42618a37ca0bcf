//! Orders and their options.
use vstd::prelude::*;

verus! {

/// How long an order stays on the book.
#[derive(Clone, Copy, PartialEq, Eq, Structural, Debug)]
pub enum TimeInForce {
    /// Good till canceled.
    GTC,
    /// Good till a time.
    GTT(CancelAfter),
    /// Immediate or cancel.
    IOC,
    /// Fill or kill.
    FOK,
}

/// The time in force as the exchange reports it back.
#[derive(Clone, Copy, PartialEq, Eq, Structural, Debug)]
pub enum TimeInForceResponse {
    GTC,
    GTT,
    IOC,
    FOK,
}

/// The side of an order or of a book.
#[derive(Clone, Copy, PartialEq, Eq, Structural, Debug)]
pub enum Side {
    BUY,
    SELL,
}

impl Default for Side {
    fn default() -> (s: Self)
        ensures
            s == Side::BUY,
    {
        Side::BUY
    }
}

/// What happens when an order would trade against the same user.
#[derive(Clone, Copy, PartialEq, Eq, Structural, Debug)]
pub enum SelfTradePrevention {
    DecreaseAndCancel,
    CancelOldest,
    CancelNewest,
    CancelBoth,
}

/// When a good-till-time order is canceled.
#[derive(Clone, Copy, PartialEq, Eq, Structural, Debug)]
pub enum CancelAfter {
    Min,
    Hour,
    Day,
}

/// The orders that can be placed.
pub trait CoinbaseOrder {}

/// How much a market order buys or sells: a size in the base currency or
/// funds in the quote currency, each held by its IEEE-754 binary64 bit
/// pattern.
#[derive(Clone, Copy, PartialEq, Eq, Structural, Debug)]
pub enum MarketOrderValue {
    Size(u64),
    Funds(u64),
}

/// A stop on a limit order, its price held by its IEEE-754 binary64 bit
/// pattern.
#[derive(Clone, Copy, PartialEq, Eq, Structural, Debug)]
pub enum Stop {
    Loss(u64),
    Entry(u64),
}

/// An order at the best price available.
#[derive(Debug)]
pub struct MarketOrder {
    pub product_id: String,
    pub side: Side,
    pub market_order_details: MarketOrderValue,
    pub profile_id: Option<String>,
    pub self_trade_prevention: Option<SelfTradePrevention>,
    pub client_oid: Option<String>,
}

impl CoinbaseOrder for MarketOrder {}

impl MarketOrder {
    /// A market order with no options set.
    pub fn new(product_id: String, side: Side, value: MarketOrderValue) -> (o: Self)
        ensures
            o.product_id == product_id,
            o.side == side,
            o.market_order_details == value,
            o.profile_id is None,
            o.self_trade_prevention is None,
            o.client_oid is None,
    {
        MarketOrder {
            product_id,
            side,
            market_order_details: value,
            profile_id: None,
            self_trade_prevention: None,
            client_oid: None,
        }
    }
}

/// A limit order as plain values; price and size are bit patterns.
pub ghost struct LimitOrderView {
    pub product_id: String,
    pub side: Side,
    pub price: u64,
    pub size: u64,
    pub profile_id: Option<String>,
    pub self_trade_prevention: Option<SelfTradePrevention>,
    pub client_oid: Option<String>,
    pub time_in_force: Option<TimeInForce>,
    pub stop: Option<Stop>,
    pub post_only: bool,
}

/// An order at a given price or better. Price and size are held by their
/// IEEE-754 binary64 bit patterns.
#[derive(Debug)]
pub struct LimitOrder {
    product_id: String,
    side: Side,
    price: u64,
    size: u64,
    profile_id: Option<String>,
    self_trade_prevention: Option<SelfTradePrevention>,
    client_oid: Option<String>,
    time_in_force: Option<TimeInForce>,
    stop: Option<Stop>,
    post_only: bool,
}

impl View for LimitOrder {
    type V = LimitOrderView;

    closed spec fn view(&self) -> LimitOrderView {
        LimitOrderView {
            product_id: self.product_id,
            side: self.side,
            price: self.price,
            size: self.size,
            profile_id: self.profile_id,
            self_trade_prevention: self.self_trade_prevention,
            client_oid: self.client_oid,
            time_in_force: self.time_in_force,
            stop: self.stop,
            post_only: self.post_only,
        }
    }
}

impl CoinbaseOrder for LimitOrder {}

impl LimitOrder {
    /// A limit order with no options set.
    pub fn new(product_id: String, side: Side, price: u64, size: u64) -> (o: Self)
        ensures
            o@ == (LimitOrderView {
                product_id,
                side,
                price,
                size,
                profile_id: None,
                self_trade_prevention: None,
                client_oid: None,
                time_in_force: None,
                stop: None,
                post_only: false,
            }),
    {
        LimitOrder {
            product_id,
            side,
            price,
            size,
            profile_id: None,
            self_trade_prevention: None,
            client_oid: None,
            time_in_force: None,
            stop: None,
            post_only: false,
        }
    }

    /// Sets the profile the order is placed from.
    pub fn set_profile_id(self, profile_id: Option<String>) -> (o: Self)
        ensures
            o@ == (LimitOrderView { profile_id, ..self@ }),
    {
        let mut o = self;
        o.profile_id = profile_id;
        o
    }

    /// The profile the order is placed from.
    pub fn profile_id(&self) -> (res: &Option<String>)
        ensures
            *res == self@.profile_id,
    {
        &self.profile_id
    }

    /// Sets the self-trade prevention.
    pub fn set_self_trade_prevention(self, self_trade_prevention: Option<SelfTradePrevention>) -> (o: Self)
        ensures
            o@ == (LimitOrderView { self_trade_prevention, ..self@ }),
    {
        let mut o = self;
        o.self_trade_prevention = self_trade_prevention;
        o
    }

    /// The self-trade prevention.
    pub fn self_trade_prevention(&self) -> (res: &Option<SelfTradePrevention>)
        ensures
            *res == self@.self_trade_prevention,
    {
        &self.self_trade_prevention
    }

    /// Sets whether the order may only add liquidity.
    pub fn set_post_only(self, post_only: bool) -> (o: Self)
        ensures
            o@ == (LimitOrderView { post_only, ..self@ }),
    {
        let mut o = self;
        o.post_only = post_only;
        o
    }

    /// Whether the order may only add liquidity.
    pub fn post_only(&self) -> (res: &bool)
        ensures
            *res == self@.post_only,
    {
        &self.post_only
    }

    /// Sets the time in force.
    pub fn set_time_in_force(self, time_in_force: Option<TimeInForce>) -> (o: Self)
        ensures
            o@ == (LimitOrderView { time_in_force, ..self@ }),
    {
        let mut o = self;
        o.time_in_force = time_in_force;
        o
    }

    /// The time in force.
    pub fn time_in_force(&self) -> (res: &Option<TimeInForce>)
        ensures
            *res == self@.time_in_force,
    {
        &self.time_in_force
    }

    /// Sets the stop.
    pub fn set_stop(self, stop: Option<Stop>) -> (o: Self)
        ensures
            o@ == (LimitOrderView { stop, ..self@ }),
    {
        let mut o = self;
        o.stop = stop;
        o
    }

    /// The stop.
    pub fn stop(&self) -> (res: &Option<Stop>)
        ensures
            *res == self@.stop,
    {
        &self.stop
    }

    /// The product the order is for.
    pub fn product_id(&self) -> (res: &String)
        ensures
            *res == self@.product_id,
    {
        &self.product_id
    }

    /// The side of the order.
    pub fn side(&self) -> (res: Side)
        ensures
            res == self@.side,
    {
        self.side
    }

    /// The price's bit pattern.
    pub fn price(&self) -> (res: u64)
        ensures
            res == self@.price,
    {
        self.price
    }

    /// The size's bit pattern.
    pub fn size(&self) -> (res: u64)
        ensures
            res == self@.size,
    {
        self.size
    }

    /// The client's own id for the order.
    pub fn client_oid(&self) -> (res: &Option<String>)
        ensures
            *res == self@.client_oid,
    {
        &self.client_oid
    }
}

/// The negation of a flag; an unset flag is left out when an order is
/// serialized.
pub fn not(value: &bool) -> (res: bool)
    ensures
        res == !*value,
{
    !*value
}

} // verus!

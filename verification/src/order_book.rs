//! A level-2 order book: bids ordered from the lowest price to the highest,
//! asks from the highest to the lowest, so that the best price of each side
//! is its last entry.
//!
//! Prices and sizes are finite binary64 floating-point numbers held by their
//! bit patterns. They are compared through `price_key`, which maps the bit
//! patterns of finite numbers to integers in the order of the numbers, with
//! +0 and -0 on the same integer; two finite numbers are equal, or one is
//! below the other, exactly when their keys are.
use vstd::arithmetic::mul::{lemma_mul_inequality, lemma_mul_strict_inequality};
use vstd::arithmetic::power2::{lemma_pow2_pos, lemma_pow2_unfold, pow2};
use vstd::prelude::*;

use crate::datastructs::orders::Side;
use crate::datastructs::websocket::{Level2Change, Level2Snapshot, Quote};

verus! {

/// The sign bit of a binary64 number.
pub const SIGN_BIT: u64 = 0x8000_0000_0000_0000u64;

/// The exponent field is all ones: the pattern is an infinity or a NaN.
pub open spec fn exponent_all_ones(bits: u64) -> bool {
    (bits >> 52u64) & 0x7ffu64 == 0x7ffu64
}

/// The integer that orders a finite binary64 number among the others.
pub open spec fn price_key(bits: u64) -> u64 {
    if bits == SIGN_BIT {
        SIGN_BIT
    } else if bits & SIGN_BIT != 0 {
        !bits
    } else {
        bits | SIGN_BIT
    }
}

/// The pattern stands for zero (+0 or -0).
pub open spec fn is_zero_bits(bits: u64) -> bool {
    price_key(bits) == SIGN_BIT
}

/// One unit of the fraction field: 2^52.
pub open spec fn fraction_unit() -> nat {
    0x10_0000_0000_0000
}

/// The exponent field of a binary64 number: bits 52 to 62.
pub open spec fn float_exponent(bits: u64) -> nat {
    ((bits as nat) % 0x8000_0000_0000_0000) / fraction_unit()
}

/// The fraction field of a binary64 number: bits 0 to 51.
pub open spec fn float_fraction(bits: u64) -> nat {
    (bits as nat) % fraction_unit()
}

/// The magnitude of a number with this exponent and fraction field, times
/// 2^1074 so that it is a whole number: a subnormal number (exponent 0) is
/// fraction * 2^-1074, a normal one (1 + fraction / 2^52) * 2^(exponent - 1023).
pub open spec fn scaled_magnitude(exponent: nat, fraction: nat) -> nat {
    if exponent == 0 {
        fraction
    } else {
        (fraction_unit() + fraction) * pow2((exponent - 1) as nat)
    }
}

/// The value of a finite binary64 number, times 2^1074: its magnitude, negated
/// where the sign bit is set.
pub open spec fn float_value(bits: u64) -> int {
    let m = scaled_magnitude(float_exponent(bits), float_fraction(bits));
    if bits >= SIGN_BIT { -(m as int) } else { m as int }
}

proof fn lemma_magnitude_below_next_exponent(e: nat, f: nat)
    requires
        f < fraction_unit(),
    ensures
        scaled_magnitude(e, f) < scaled_magnitude(e + 1, 0),
{
    if e == 0 {
        assert(pow2(0) == 1) by {
            vstd::arithmetic::power2::lemma2_to64();
        }
        assert(scaled_magnitude(1, 0) == (fraction_unit() + 0) * pow2(0));
    } else {
        lemma_pow2_unfold(e);
        lemma_pow2_pos((e - 1) as nat);
        let x = pow2((e - 1) as nat) as int;
        lemma_mul_strict_inequality((fraction_unit() + f) as int, (2 * fraction_unit()) as int, x);
        assert((2 * fraction_unit()) * x == fraction_unit() * (2 * x)) by (nonlinear_arith);
        assert(((e + 1) - 1) as nat == e);
        assert(scaled_magnitude(e + 1, 0) == (fraction_unit() + 0) * pow2(e));
        assert(pow2(e) == 2 * x);
    }
}

proof fn lemma_magnitude_grows_with_exponent(e1: nat, e2: nat)
    requires
        e1 <= e2,
    ensures
        scaled_magnitude(e1, 0) <= scaled_magnitude(e2, 0),
    decreases e2 - e1,
{
    if e1 < e2 {
        lemma_magnitude_below_next_exponent(e1, 0);
        lemma_magnitude_grows_with_exponent(e1 + 1, e2);
    }
}

proof fn lemma_magnitude_at_least_base(e: nat, f: nat)
    ensures
        scaled_magnitude(e, 0) <= scaled_magnitude(e, f),
{
    if e > 0 {
        lemma_pow2_pos((e - 1) as nat);
        lemma_mul_inequality(fraction_unit() as int, (fraction_unit() + f) as int, pow2((e - 1) as nat) as int);
    }
}

/// The magnitude grows strictly with the exponent and fraction fields taken
/// together as one number.
proof fn lemma_magnitude_strictly_increases(u1: nat, u2: nat)
    requires
        u1 < u2,
    ensures
        scaled_magnitude(u1 / fraction_unit(), u1 % fraction_unit())
            < scaled_magnitude(u2 / fraction_unit(), u2 % fraction_unit()),
{
    let p = fraction_unit() as int;
    let e1 = u1 / fraction_unit();
    let f1 = u1 % fraction_unit();
    let e2 = u2 / fraction_unit();
    let f2 = u2 % fraction_unit();
    let (i1, i2, j1, j2, w1, w2) = (e1 as int, e2 as int, f1 as int, f2 as int, u1 as int, u2 as int);
    assert(w1 == i1 * p + j1 && w2 == i2 * p + j2 && j1 < p && j2 < p) by (nonlinear_arith)
        requires
            p == 0x10_0000_0000_0000,
            i1 == w1 / p,
            j1 == w1 % p,
            i2 == w2 / p,
            j2 == w2 % p,
    ;
    assert(i1 <= i2) by (nonlinear_arith)
        requires
            w1 < w2,
            w1 == i1 * p + j1,
            w2 == i2 * p + j2,
            0 <= j1 < p,
            0 <= j2 < p,
            i1 >= 0,
            i2 >= 0,
    ;
    if e1 == e2 {
        assert(j1 < j2) by (nonlinear_arith)
            requires
                w1 < w2,
                w1 == i1 * p + j1,
                w2 == i2 * p + j2,
                i1 == i2,
        ;
        if e1 > 0 {
            lemma_pow2_pos((e1 - 1) as nat);
            lemma_mul_strict_inequality((fraction_unit() + f1) as int, (fraction_unit() + f2) as int, pow2((e1 - 1) as nat) as int);
        }
    } else {
        lemma_magnitude_below_next_exponent(e1, f1);
        lemma_magnitude_grows_with_exponent(e1 + 1, e2);
        lemma_magnitude_at_least_base(e2, f2);
    }
}

/// `price_key` orders finite numbers as their values: for finite `a` and
/// `b`, the key of `a` is below that of `b` exactly when `a` is the smaller
/// number, and the keys are equal exactly when the numbers are (so +0 and -0
/// share a key, and any two different prices get different keys); a
/// pattern stands for zero exactly when its value is zero.
pub proof fn lemma_price_key_orders_values(a: u64, b: u64)
    requires
        !exponent_all_ones(a),
        !exponent_all_ones(b),
    ensures
        (price_key(a) < price_key(b)) == (float_value(a) < float_value(b)),
        (price_key(a) == price_key(b)) == (float_value(a) == float_value(b)),
        is_zero_bits(a) == (float_value(a) == 0),
{
    assert(!exponent_all_ones(0u64)) by (bit_vector);
    lemma_price_key_compare(a, b);
    lemma_price_key_compare(a, 0);
    assert(float_value(0) == 0) by {
        assert(float_exponent(0) == 0 && float_fraction(0) == 0);
    }
    assert(price_key(0) == SIGN_BIT) by (bit_vector);
}

/// The key of a finite pattern from its magnitude bits.
proof fn lemma_price_key_by_magnitude(a: u64)
    requires
        !exponent_all_ones(a),
    ensures
        ({
            let u = (a as nat) % 0x8000_0000_0000_0000;
            &&& u < 0x7ff0_0000_0000_0000
            &&& a < SIGN_BIT ==> u == a && price_key(a) == a + SIGN_BIT
            &&& a >= SIGN_BIT ==> u == a - SIGN_BIT
            &&& a >= SIGN_BIT && u == 0 ==> price_key(a) == SIGN_BIT
            &&& a >= SIGN_BIT && u > 0 ==> price_key(a) == SIGN_BIT - 1 - u
            &&& float_exponent(a) == u / fraction_unit()
            &&& float_fraction(a) == u % fraction_unit()
        }),
{
    let u = (a as nat) % 0x8000_0000_0000_0000;
    assert(((a >> 52u64) & 0x7ffu64 != 0x7ffu64) ==> a % 0x8000_0000_0000_0000u64 < 0x7ff0_0000_0000_0000u64)
        by (bit_vector);
    assert(a < 0x8000_0000_0000_0000u64 ==> (a | 0x8000_0000_0000_0000u64) == a + 0x8000_0000_0000_0000u64)
        by (bit_vector);
    assert(a >= 0x8000_0000_0000_0000u64 ==> !a == 0xffff_ffff_ffff_ffffu64 - a) by (bit_vector);
    assert((a & 0x8000_0000_0000_0000u64 != 0) == (a >= 0x8000_0000_0000_0000u64)) by (bit_vector);
    assert((a % 0x8000_0000_0000_0000u64) % 0x10_0000_0000_0000u64 == a % 0x10_0000_0000_0000u64) by (bit_vector);
    assert(a >= 0x8000_0000_0000_0000u64 ==> a % 0x8000_0000_0000_0000u64 == a - 0x8000_0000_0000_0000u64)
        by (bit_vector);
    assert(a < 0x8000_0000_0000_0000u64 ==> a % 0x8000_0000_0000_0000u64 == a) by (bit_vector);
}

proof fn lemma_price_key_compare(a: u64, b: u64)
    requires
        !exponent_all_ones(a),
        !exponent_all_ones(b),
    ensures
        (price_key(a) < price_key(b)) == (float_value(a) < float_value(b)),
        (price_key(a) == price_key(b)) == (float_value(a) == float_value(b)),
{
    lemma_price_key_by_magnitude(a);
    lemma_price_key_by_magnitude(b);
    let ua = (a as nat) % 0x8000_0000_0000_0000;
    let ub = (b as nat) % 0x8000_0000_0000_0000;
    let ma = scaled_magnitude(ua / fraction_unit(), ua % fraction_unit());
    let mb = scaled_magnitude(ub / fraction_unit(), ub % fraction_unit());
    let m0 = scaled_magnitude(0nat / fraction_unit(), 0nat % fraction_unit());
    assert(m0 == 0);
    if ua < ub {
        lemma_magnitude_strictly_increases(ua, ub);
    } else if ub < ua {
        lemma_magnitude_strictly_increases(ub, ua);
    }
    if ua > 0 {
        lemma_magnitude_strictly_increases(0, ua);
    }
    if ub > 0 {
        lemma_magnitude_strictly_increases(0, ub);
    }
}

/// A number that is not finite.
#[derive(Debug)]
pub struct InvalidFloat {}

/// A finite floating-point number, held by its binary64 bit pattern.
#[derive(Debug)]
pub struct RealFloat {
    bits: u64,
}

impl View for RealFloat {
    type V = u64;

    closed spec fn view(&self) -> u64 {
        self.bits
    }
}

impl RealFloat {
    #[verifier::type_invariant]
    spec fn finite(self) -> bool {
        !exponent_all_ones(self.bits)
    }

    /// The number with these bits, unless they stand for an infinity or a NaN.
    pub fn try_from_bits(bits: u64) -> (res: Result<RealFloat, InvalidFloat>)
        ensures
            res is Ok <==> !exponent_all_ones(bits),
            res matches Ok(f) ==> f@ == bits,
    {
        if (bits >> 52) & 0x7ff == 0x7ff {
            Err(InvalidFloat {})
        } else {
            Ok(RealFloat { bits })
        }
    }

    /// The bit pattern.
    pub fn to_bits(&self) -> (bits: u64)
        ensures
            bits == self@,
            !exponent_all_ones(bits),
    {
        proof {
            use_type_invariant(self);
        }
        self.bits
    }

    /// The order key of the number.
    pub fn key(&self) -> (k: u64)
        ensures
            k == price_key(self@),
    {
        if self.bits == SIGN_BIT {
            SIGN_BIT
        } else if self.bits & SIGN_BIT != 0 {
            !self.bits
        } else {
            self.bits | SIGN_BIT
        }
    }

    /// Whether the number is zero.
    pub fn is_zero(&self) -> (res: bool)
        ensures
            res == is_zero_bits(self@),
    {
        self.key() == SIGN_BIT
    }

    /// Zero.
    pub fn zero() -> (z: RealFloat)
        ensures
            z@ == 0,
    {
        assert(!exponent_all_ones(0u64)) by (bit_vector);
        RealFloat { bits: 0 }
    }
}

impl Clone for RealFloat {
    fn clone(&self) -> (c: Self)
        ensures
            c@ == self@,
    {
        proof {
            use_type_invariant(self);
        }
        RealFloat { bits: self.bits }
    }
}

/// A price level: its price and the size offered at it.
#[derive(Debug)]
pub struct OrderBookEntry {
    pub(crate) price: RealFloat,
    pub(crate) size: RealFloat,
}

impl View for OrderBookEntry {
    type V = (u64, u64);

    closed spec fn view(&self) -> (u64, u64) {
        (self.price@, self.size@)
    }
}

impl OrderBookEntry {
    /// The level with this price and size, unless one of them is not finite.
    pub fn try_from_bits(price: u64, size: u64) -> (res: Result<OrderBookEntry, InvalidFloat>)
        ensures
            res is Ok <==> !exponent_all_ones(price) && !exponent_all_ones(size),
            res matches Ok(e) ==> e@ == (price, size),
    {
        let price = RealFloat::try_from_bits(price)?;
        let size = RealFloat::try_from_bits(size)?;
        Ok(OrderBookEntry { price, size })
    }

    /// The level a change names. Its price and size must be finite.
    pub fn from_level2_change(change: &Level2Change) -> (e: OrderBookEntry)
        requires
            !exponent_all_ones(change.price),
            !exponent_all_ones(change.size),
        ensures
            e@ == (change.price, change.size),
    {
        OrderBookEntry {
            price: RealFloat { bits: change.price },
            size: RealFloat { bits: change.size },
        }
    }

    /// The level a quote names, unless its price or size is not finite.
    pub fn try_from_quote(quote: &Quote) -> (res: Result<OrderBookEntry, InvalidFloat>)
        ensures
            res is Ok <==> finite_level((quote.price, quote.size)),
            res matches Ok(e) ==> e@ == (quote.price, quote.size),
    {
        Self::try_from_bits(quote.price, quote.size)
    }

    /// The price.
    pub fn price(&self) -> (p: RealFloat)
        ensures
            p@ == self@.0,
    {
        self.price.clone()
    }

    /// The size.
    pub fn size(&self) -> (s: RealFloat)
        ensures
            s@ == self@.1,
    {
        self.size.clone()
    }
}

impl Clone for OrderBookEntry {
    fn clone(&self) -> (c: Self)
        ensures
            c@ == self@,
    {
        OrderBookEntry { price: self.price.clone(), size: self.size.clone() }
    }
}

/// Both the price and the size of a level are finite.
pub open spec fn finite_level(level: (u64, u64)) -> bool {
    !exponent_all_ones(level.0) && !exponent_all_ones(level.1)
}

/// The order keys of the prices of some levels.
pub open spec fn price_keys(levels: Seq<(u64, u64)>) -> Seq<u64> {
    levels.map_values(|l: (u64, u64)| price_key(l.0))
}

/// `a` comes strictly before `b` on a side: lower for bids, higher for asks.
pub open spec fn before(ascending: bool, a: u64, b: u64) -> bool {
    if ascending { a < b } else { a > b }
}

/// The keys are in the order of a side (not strictly).
pub open spec fn sorted_keys(ascending: bool, keys: Seq<u64>) -> bool {
    forall|i: int, j: int| 0 <= i < j < keys.len() ==> !before(ascending, keys[j], keys[i])
}

/// The keys are in the order of a side, with no price twice.
pub open spec fn strictly_sorted_keys(ascending: bool, keys: Seq<u64>) -> bool {
    forall|i: int, j: int| 0 <= i < j < keys.len() ==> before(ascending, keys[i], keys[j])
}

/// Where a level with key `k` goes on a side, scanning from the best price:
/// at the last level with the same key, else just above the first level met
/// that comes before it, else at the bottom.
pub open spec fn spec_find_index(ascending: bool, keys: Seq<u64>, k: u64) -> int
    decreases keys.len(),
{
    if keys.len() == 0 {
        0
    } else if keys.last() == k {
        keys.len() - 1
    } else if before(ascending, keys.last(), k) {
        keys.len() as int
    } else {
        spec_find_index(ascending, keys.drop_last(), k)
    }
}

/// A change applied to one side: the new levels, and whether the book counts
/// as updated. A change at a new lowest position is inserted whatever its
/// size; otherwise a zero size removes the level found, a known price gets
/// the new size, and a new price is inserted.
pub open spec fn spec_apply_change(ascending: bool, levels: Seq<(u64, u64)>, entry: (u64, u64)) -> (Seq<(u64, u64)>, bool) {
    let idx = spec_find_index(ascending, price_keys(levels), price_key(entry.0));
    if idx == levels.len() {
        (levels.insert(idx, entry), true)
    } else if is_zero_bits(entry.1) {
        (levels.remove(idx), false)
    } else if price_key(levels[idx].0) == price_key(entry.0) {
        (levels.update(idx, (levels[idx].0, entry.1)), true)
    } else {
        (levels.insert(idx, entry), true)
    }
}

/// Puts a level after every level whose price is not above its own, and
/// before the others.
pub open spec fn insert_by_price(levels: Seq<(u64, u64)>, level: (u64, u64)) -> Seq<(u64, u64)>
    decreases levels.len(),
{
    if levels.len() == 0 {
        seq![level]
    } else if price_key(levels.last().0) <= price_key(level.0) {
        levels.push(level)
    } else {
        insert_by_price(levels.drop_last(), level).push(levels.last())
    }
}

/// The finite quotes of a snapshot side, from the lowest price to the
/// highest; quotes at one price stay in the order they came in.
pub open spec fn sorted_levels(quotes: Seq<(u64, u64)>) -> Seq<(u64, u64)>
    decreases quotes.len(),
{
    if quotes.len() == 0 {
        Seq::empty()
    } else if finite_level(quotes.last()) {
        insert_by_price(sorted_levels(quotes.drop_last()), quotes.last())
    } else {
        sorted_levels(quotes.drop_last())
    }
}

/// The quotes as plain values.
pub open spec fn quote_levels(quotes: Seq<Quote>) -> Seq<(u64, u64)> {
    quotes.map_values(|q: Quote| (q.price, q.size))
}

/// The side of the book a change names: `Some(true)` for "buy" (the bids),
/// `Some(false)` for "sell" (the asks), `None` for anything else.
pub open spec fn change_side(side: Seq<char>) -> Option<bool> {
    if side == "buy"@ {
        Some(true)
    } else if side == "sell"@ {
        Some(false)
    } else {
        None
    }
}

/// A change as plain values: side, price bits, size bits.
pub open spec fn change_view(change: Level2Change) -> (Seq<char>, u64, u64) {
    (change.side@, change.price, change.size)
}

/// The changes as plain values.
pub open spec fn change_views(changes: Seq<Level2Change>) -> Seq<(Seq<char>, u64, u64)> {
    changes.map_values(|c: Level2Change| change_view(c))
}

/// The changes are applied in order, up to the first whose side is neither
/// "buy" nor "sell"; gives the new bids and asks and whether the book
/// counts as updated.
pub open spec fn spec_apply_changes(
    bids: Seq<(u64, u64)>,
    asks: Seq<(u64, u64)>,
    changes: Seq<(Seq<char>, u64, u64)>,
) -> (Seq<(u64, u64)>, Seq<(u64, u64)>, bool)
    decreases changes.len(),
{
    if changes.len() == 0 {
        (bids, asks, false)
    } else {
        let c = changes[0];
        match change_side(c.0) {
            Some(true) => {
                let (b, u) = spec_apply_change(true, bids, (c.1, c.2));
                let r = spec_apply_changes(b, asks, changes.drop_first());
                (r.0, r.1, u || r.2)
            },
            Some(false) => {
                let (a, u) = spec_apply_change(false, asks, (c.1, c.2));
                let r = spec_apply_changes(bids, a, changes.drop_first());
                (r.0, r.1, u || r.2)
            },
            None => (bids, asks, false),
        }
    }
}

/// Every change that gets applied has a finite price and size.
pub open spec fn applied_changes_finite(changes: Seq<(Seq<char>, u64, u64)>) -> bool
    decreases changes.len(),
{
    if changes.len() == 0 {
        true
    } else if change_side(changes[0].0) is Some {
        finite_level((changes[0].1, changes[0].2)) && applied_changes_finite(changes.drop_first())
    } else {
        true
    }
}

/// The order book.
#[derive(Debug)]
pub struct OrderBook {
    pub(crate) bids: Vec<OrderBookEntry>,
    pub(crate) asks: Vec<OrderBookEntry>,
}

/// The levels of a side as plain values.
pub open spec fn levels_of(v: Seq<OrderBookEntry>) -> Seq<(u64, u64)> {
    v.map_values(|e: OrderBookEntry| e@)
}


impl OrderBook {
    /// The bids, from the lowest price to the highest.
    pub closed spec fn bid_levels(&self) -> Seq<(u64, u64)> {
        levels_of(self.bids@)
    }

    /// The asks, from the highest price to the lowest.
    pub closed spec fn ask_levels(&self) -> Seq<(u64, u64)> {
        levels_of(self.asks@)
    }

    /// The book a snapshot gives: quotes whose price or size is not finite
    /// are left out; bids go from the lowest price to the highest, asks from
    /// the highest to the lowest.
    pub fn from_snapshot(snap: Level2Snapshot) -> (book: OrderBook)
        ensures
            book.bid_levels() == sorted_levels(quote_levels(snap.bids@)),
            book.ask_levels() == sorted_levels(quote_levels(snap.asks@)).reverse(),
    {
        let bids = Self::sort_quotes(&snap.bids);
        let asks_ascending = Self::sort_quotes(&snap.asks);
        let mut asks: Vec<OrderBookEntry> = Vec::new();
        let mut i = asks_ascending.len();
        while i > 0
            invariant
                i <= asks_ascending.len(),
                levels_of(asks@) == levels_of(asks_ascending@).skip(i as int).reverse(),
            decreases i,
        {
            i = i - 1;
            let ghost before_push = levels_of(asks@);
            let level = asks_ascending[i].clone();
            asks.push(level);
            assert(levels_of(asks@) =~= before_push.push(levels_of(asks_ascending@)[i as int]));
            assert(levels_of(asks@) =~= levels_of(asks_ascending@).skip(i as int).reverse());
        }
        assert(levels_of(asks_ascending@).skip(0) =~= levels_of(asks_ascending@));
        OrderBook { bids, asks }
    }

    /// The finite quotes, from the lowest price to the highest.
    fn sort_quotes(quotes: &Vec<Quote>) -> (sorted: Vec<OrderBookEntry>)
        ensures
            levels_of(sorted@) == sorted_levels(quote_levels(quotes@)),
    {
        let ghost all = quote_levels(quotes@);
        let mut sorted: Vec<OrderBookEntry> = Vec::new();
        let mut i: usize = 0;
        while i < quotes.len()
            invariant
                i <= quotes.len(),
                all == quote_levels(quotes@),
                levels_of(sorted@) == sorted_levels(all.take(i as int)),
            decreases quotes.len() - i,
        {
            assert(all.take(i + 1).drop_last() =~= all.take(i as int));
            match OrderBookEntry::try_from_quote(&quotes[i]) {
                Ok(entry) => {
                    Self::insert_sorted(&mut sorted, entry);
                },
                Err(_) => {},
            }
            i = i + 1;
        }
        assert(all.take(quotes.len() as int) =~= all);
        sorted
    }

    /// Inserts a level after every level whose price is not above its own.
    fn insert_sorted(levels: &mut Vec<OrderBookEntry>, entry: OrderBookEntry)
        ensures
            levels_of(final(levels)@) == insert_by_price(levels_of(old(levels)@), entry@),
    {
        let ghost s = levels_of(levels@);
        let ghost e = entry@;
        let k = entry.price.key();
        let mut pos = levels.len();
        assert(s.take(pos as int) =~= s);
        assert(s.skip(pos as int) =~= Seq::<(u64, u64)>::empty());
        assert(insert_by_price(s, e) =~= insert_by_price(s.take(pos as int), e) + s.skip(pos as int));
        while pos > 0 && levels[pos - 1].price.key() > k
            invariant
                pos <= levels.len(),
                s == levels_of(levels@),
                e == entry@,
                k == price_key(e.0),
                insert_by_price(s, e) == insert_by_price(s.take(pos as int), e) + s.skip(pos as int),
            decreases pos,
        {
            assert(s.take(pos as int).drop_last() =~= s.take(pos - 1));
            assert(s.take(pos as int).last() == s[pos - 1]);
            assert(insert_by_price(s.take(pos - 1), e).push(s[pos - 1]) + s.skip(pos as int)
                =~= insert_by_price(s.take(pos - 1), e) + s.skip(pos - 1));
            pos = pos - 1;
        }
        levels.insert(pos, entry);
        assert(insert_by_price(s.take(pos as int), e) =~= s.take(pos as int).push(e));
        assert(levels_of(levels@) =~= s.take(pos as int).push(e) + s.skip(pos as int));
    }

    /// The bids, from the lowest price to the highest.
    pub fn bids(&self) -> (res: &Vec<OrderBookEntry>)
        ensures
            levels_of(res@) == self.bid_levels(),
    {
        &self.bids
    }

    /// The asks, from the highest price to the lowest.
    pub fn asks(&self) -> (res: &Vec<OrderBookEntry>)
        ensures
            levels_of(res@) == self.ask_levels(),
    {
        &self.asks
    }

    /// The best bid: the last one, or zero when there is none.
    pub fn best_bid(&self) -> (p: RealFloat)
        ensures
            p@ == (if self.bid_levels().len() == 0 { 0 } else { self.bid_levels().last().0 }),
    {
        if self.bids.len() == 0 {
            RealFloat::zero()
        } else {
            self.bids[self.bids.len() - 1].price.clone()
        }
    }

    /// The best ask: the last one, or zero when there is none.
    pub fn best_ask(&self) -> (p: RealFloat)
        ensures
            p@ == (if self.ask_levels().len() == 0 { 0 } else { self.ask_levels().last().0 }),
    {
        if self.asks.len() == 0 {
            RealFloat::zero()
        } else {
            self.asks[self.asks.len() - 1].price.clone()
        }
    }

    /// Which side a change names.
    fn side_of(side: &String) -> (res: Option<Side>)
        ensures
            res == (match change_side(side@) {
                Some(true) => Some(Side::BUY),
                Some(false) => Some(Side::SELL),
                None => None::<Side>,
            }),
    {
        let buy = String::from_str("buy");
        let sell = String::from_str("sell");
        if *side == buy {
            Some(Side::BUY)
        } else if *side == sell {
            Some(Side::SELL)
        } else {
            None
        }
    }

    /// Applies a level-2 change to the side it names; a change that names
    /// neither side leaves the book as it is.
    pub fn apply_change_l2_change(&mut self, change: Level2Change) -> (updated: bool)
        requires
            change_side(change.side@) is Some ==> finite_level((change.price, change.size)),
        ensures
            ({
                let r = spec_apply_changes(old(self).bid_levels(), old(self).ask_levels(), seq![change_view(change)]);
                final(self).bid_levels() == r.0 && final(self).ask_levels() == r.1 && updated == r.2
            }),
    {
        let ghost cs = seq![change_view(change)];
        assert(cs.drop_first() =~= Seq::<(Seq<char>, u64, u64)>::empty());
        assert(cs[0] == change_view(change));
        let side = match Self::side_of(&change.side) {
            Some(side) => side,
            None => {
                return false;
            },
        };
        let entry = OrderBookEntry::from_level2_change(&change);
        let updated = self.apply_change(side, entry);
        assert(spec_apply_changes(self.bid_levels(), self.ask_levels(), cs.drop_first())
            == (self.bid_levels(), self.ask_levels(), false));
        updated
    }

    /// Applies level-2 changes in order, up to the first that names neither
    /// side; tells whether the book counts as updated.
    pub fn apply_change_l2_changes(&mut self, changes: Vec<Level2Change>) -> (updated: bool)
        requires
            applied_changes_finite(change_views(changes@)),
        ensures
            ({
                let r = spec_apply_changes(old(self).bid_levels(), old(self).ask_levels(), change_views(changes@));
                final(self).bid_levels() == r.0 && final(self).ask_levels() == r.1 && updated == r.2
            }),
    {
        let ghost all = change_views(changes@);
        let ghost goal = spec_apply_changes(self.bid_levels(), self.ask_levels(), all);
        let mut updated = false;
        let mut i: usize = 0;
        assert(all.skip(0) =~= all);
        while i < changes.len()
            invariant
                i <= changes.len(),
                all == change_views(changes@),
                applied_changes_finite(all.skip(i as int)),
                goal == spec_apply_changes(old(self).bid_levels(), old(self).ask_levels(), all),
                goal == ({
                    let r = spec_apply_changes(self.bid_levels(), self.ask_levels(), all.skip(i as int));
                    (r.0, r.1, updated || r.2)
                }),
            decreases changes.len() - i,
        {
            let ghost rest = all.skip(i as int);
            assert(rest.len() > 0);
            assert(rest[0] == change_view(changes@[i as int]));
            assert(rest.drop_first() =~= all.skip(i + 1));
            let side = match Self::side_of(&changes[i].side) {
                Some(side) => side,
                None => {
                    assert(change_side(rest[0].0) is None);
                    assert(spec_apply_changes(self.bid_levels(), self.ask_levels(), rest)
                        == (self.bid_levels(), self.ask_levels(), false));
                    return updated;
                },
            };
            let entry = OrderBookEntry::from_level2_change(&changes[i]);
            let u = self.apply_change(side, entry);
            updated = updated || u;
            i = i + 1;
        }
        assert(all.skip(i as int) =~= Seq::<(Seq<char>, u64, u64)>::empty());
        updated
    }

    /// Where a bid goes: see `spec_find_index`.
    pub fn find_bid_index(vec: &Vec<OrderBookEntry>, entry: &OrderBookEntry) -> (idx: usize)
        ensures
            idx == spec_find_index(true, price_keys(levels_of(vec@)), price_key(entry@.0)),
    {
        Self::find_index(true, vec, entry)
    }

    /// Where an ask goes: see `spec_find_index`.
    pub fn find_ask_index(vec: &Vec<OrderBookEntry>, entry: &OrderBookEntry) -> (idx: usize)
        ensures
            idx == spec_find_index(false, price_keys(levels_of(vec@)), price_key(entry@.0)),
    {
        Self::find_index(false, vec, entry)
    }

    fn find_index(ascending: bool, vec: &Vec<OrderBookEntry>, entry: &OrderBookEntry) -> (idx: usize)
        ensures
            idx == spec_find_index(ascending, price_keys(levels_of(vec@)), price_key(entry@.0)),
    {
        let ghost keys = price_keys(levels_of(vec@));
        let k = entry.price.key();
        let mut i = vec.len();
        assert(keys.take(i as int) =~= keys);
        while i > 0
            invariant
                i <= vec.len(),
                keys == price_keys(levels_of(vec@)),
                k == price_key(entry@.0),
                spec_find_index(ascending, keys, k) == spec_find_index(ascending, keys.take(i as int), k),
            decreases i,
        {
            let key = vec[i - 1].price.key();
            assert(keys.take(i as int).last() == key);
            assert(keys.take(i as int).drop_last() =~= keys.take(i - 1));
            if key == k {
                return i - 1;
            }
            if ascending {
                if key < k {
                    return i;
                }
            } else {
                if key > k {
                    return i;
                }
            }
            i = i - 1;
        }
        0
    }

    /// Applies a change to one side of the book; tells whether the book
    /// counts as updated.
    pub fn apply_change_with_lock(side: Side, entry: OrderBookEntry, lock: &mut Vec<OrderBookEntry>) -> (updated: bool)
        ensures
            (levels_of(final(lock)@), updated) == spec_apply_change(side == Side::BUY, levels_of(old(lock)@), entry@),
    {
        let ghost levels = levels_of(lock@);
        let ghost e = entry@;
        let idx = match side {
            Side::BUY => Self::find_bid_index(lock, &entry),
            Side::SELL => Self::find_ask_index(lock, &entry),
        };
        proof {
            lemma_find_index_bounds(side == Side::BUY, price_keys(levels), price_key(e.0));
        }
        if idx == lock.len() {
            lock.insert(idx, entry);
            assert(levels_of(lock@) =~= levels.insert(idx as int, e));
            return true;
        }
        if entry.size.is_zero() {
            lock.remove(idx);
            assert(levels_of(lock@) =~= levels.remove(idx as int));
            return false;
        }
        if lock[idx].price.key() == entry.price.key() {
            let price = lock[idx].price.clone();
            lock.set(idx, OrderBookEntry { price, size: entry.size });
            assert(levels_of(lock@) =~= levels.update(idx as int, (levels[idx as int].0, e.1)));
            return true;
        }
        lock.insert(idx, entry);
        assert(levels_of(lock@) =~= levels.insert(idx as int, e));
        true
    }

    /// Applies a change to the side it names; tells whether the book counts
    /// as updated.
    pub fn apply_change(&mut self, side: Side, entry: OrderBookEntry) -> (updated: bool)
        ensures
            side == Side::BUY ==> {
                &&& (final(self).bid_levels(), updated) == spec_apply_change(true, old(self).bid_levels(), entry@)
                &&& final(self).ask_levels() == old(self).ask_levels()
            },
            side == Side::SELL ==> {
                &&& (final(self).ask_levels(), updated) == spec_apply_change(false, old(self).ask_levels(), entry@)
                &&& final(self).bid_levels() == old(self).bid_levels()
            },
    {
        match side {
            Side::BUY => Self::apply_change_with_lock(side, entry, &mut self.bids),
            Side::SELL => Self::apply_change_with_lock(side, entry, &mut self.asks),
        }
    }
}

/// Where a level goes lies between 0 and the number of levels.
pub proof fn lemma_find_index_bounds(ascending: bool, keys: Seq<u64>, k: u64)
    ensures
        0 <= spec_find_index(ascending, keys, k) <= keys.len(),
    decreases keys.len(),
{
    if keys.len() > 0 {
        lemma_find_index_bounds(ascending, keys.drop_last(), k);
    }
}

/// What the scan has passed over: every level above the position found comes
/// after `k`; the level at the position has key `k` or comes after it; and
/// when the position holds another key, the level below it comes before `k`.
pub proof fn lemma_find_index_scan(ascending: bool, keys: Seq<u64>, k: u64)
    ensures
        ({
            let p = spec_find_index(ascending, keys, k);
            &&& 0 <= p <= keys.len()
            &&& forall|j: int| p < j < keys.len() ==> before(ascending, k, #[trigger] keys[j])
            &&& p < keys.len() ==> keys[p] == k || before(ascending, k, keys[p])
            &&& (p > 0 && (p == keys.len() || keys[p] != k)) ==> before(ascending, keys[p - 1], k)
        }),
    decreases keys.len(),
{
    if keys.len() > 0 && keys.last() != k && !before(ascending, keys.last(), k) {
        let rest = keys.drop_last();
        lemma_find_index_scan(ascending, rest, k);
        let p = spec_find_index(ascending, rest, k);
        assert forall|j: int| p < j < keys.len() implies before(ascending, k, #[trigger] keys[j]) by {
            if j < keys.len() - 1 {
                assert(keys[j] == rest[j]);
            }
        }
    }
}

/// Applying a change keeps each side in its order.
pub proof fn lemma_apply_change_keeps_order(ascending: bool, levels: Seq<(u64, u64)>, entry: (u64, u64))
    requires
        sorted_keys(ascending, price_keys(levels)),
    ensures
        sorted_keys(ascending, price_keys(spec_apply_change(ascending, levels, entry).0)),
{
    let keys = price_keys(levels);
    let k = price_key(entry.0);
    let p = spec_find_index(ascending, keys, k);
    lemma_find_index_scan(ascending, keys, k);
    let res = spec_find_index(ascending, keys, k);
    let out = spec_apply_change(ascending, levels, entry).0;
    let new_keys = price_keys(out);
    if p == levels.len() || (!is_zero_bits(entry.1) && price_key(levels[p].0) != k) {
        // inserted at p
        assert(new_keys =~= keys.insert(p, k));
        assert forall|i: int, j: int| 0 <= i < j < new_keys.len() implies !before(ascending, new_keys[j], new_keys[i]) by {
            if j < p {
            } else if j == p {
                if p > 0 {
                    assert(!before(ascending, keys[p - 1], keys[i]) || i == p - 1);
                }
            } else if i == p {
                assert(new_keys[j] == keys[j - 1]);
            } else if i < p {
                assert(new_keys[j] == keys[j - 1]);
                if p < keys.len() {
                    assert(!before(ascending, keys[p], keys[i]));
                }
            } else {
                assert(new_keys[j] == keys[j - 1]);
                assert(new_keys[i] == keys[i - 1]);
            }
        }
    } else if is_zero_bits(entry.1) {
        assert(new_keys =~= keys.remove(p));
        assert forall|i: int, j: int| 0 <= i < j < new_keys.len() implies !before(ascending, new_keys[j], new_keys[i]) by {
            let i0 = if i < p { i } else { i + 1 };
            let j0 = if j < p { j } else { j + 1 };
            assert(new_keys[i] == keys[i0] && new_keys[j] == keys[j0]);
        }
    } else {
        assert(new_keys =~= keys);
    }
}

/// A change with a size other than zero leaves a level at its price with
/// that size.
pub proof fn lemma_apply_change_sets_size(ascending: bool, levels: Seq<(u64, u64)>, entry: (u64, u64))
    requires
        !is_zero_bits(entry.1),
    ensures
        exists|i: int|
            0 <= i < spec_apply_change(ascending, levels, entry).0.len()
            && price_key(#[trigger] spec_apply_change(ascending, levels, entry).0[i].0) == price_key(entry.0)
            && spec_apply_change(ascending, levels, entry).0[i].1 == entry.1,
        spec_apply_change(ascending, levels, entry).1,
{
    let keys = price_keys(levels);
    let p = spec_find_index(ascending, keys, price_key(entry.0));
    lemma_find_index_bounds(ascending, keys, price_key(entry.0));
    let out = spec_apply_change(ascending, levels, entry).0;
    assert(price_key(out[p].0) == price_key(entry.0) && out[p].1 == entry.1);
}

/// On a side with no price twice, a change with size zero at a price the
/// side holds removes that price.
pub proof fn lemma_apply_change_removes_level(ascending: bool, levels: Seq<(u64, u64)>, entry: (u64, u64))
    requires
        strictly_sorted_keys(ascending, price_keys(levels)),
        is_zero_bits(entry.1),
        exists|i: int| 0 <= i < levels.len() && price_key(levels[i].0) == price_key(entry.0),
    ensures
        forall|i: int| 0 <= i < spec_apply_change(ascending, levels, entry).0.len()
            ==> price_key(#[trigger] spec_apply_change(ascending, levels, entry).0[i].0) != price_key(entry.0),
        !spec_apply_change(ascending, levels, entry).1,
{
    let keys = price_keys(levels);
    let k = price_key(entry.0);
    let w = choose|i: int| 0 <= i < levels.len() && price_key(levels[i].0) == k;
    lemma_find_index_scan(ascending, keys, k);
    let p = spec_find_index(ascending, keys, k);
    // The position found holds the price.
    assert(keys[w] == k);
    if p < w {
        assert(before(ascending, k, keys[w]));
    }
    if w < p {
        if p < keys.len() && keys[p] == k {
            assert(before(ascending, keys[w], keys[p]));
        } else {
            assert(before(ascending, keys[p - 1], k));
            if w < p - 1 {
                assert(before(ascending, keys[w], keys[p - 1]));
            }
        }
    }
    assert(p == w);
    let out = spec_apply_change(ascending, levels, entry).0;
    assert(out =~= levels.remove(p));
    assert forall|i: int| 0 <= i < out.len() implies price_key(#[trigger] out[i].0) != k by {
        if i < p {
            assert(out[i] == levels[i]);
            assert(before(ascending, keys[i], keys[p]));
        } else {
            assert(out[i] == levels[i + 1]);
            assert(before(ascending, keys[p], keys[i + 1]));
        }
    }
}

/// Inserting a level into levels ordered by price keeps them ordered, and
/// adds just that level.
pub proof fn lemma_insert_by_price(levels: Seq<(u64, u64)>, level: (u64, u64))
    requires
        sorted_keys(true, price_keys(levels)),
    ensures
        sorted_keys(true, price_keys(insert_by_price(levels, level))),
        insert_by_price(levels, level).to_multiset() == levels.to_multiset().insert(level),
        insert_by_price(levels, level).len() == levels.len() + 1,
    decreases levels.len(),
{
    broadcast use vstd::seq_lib::group_to_multiset_ensures;

    let out = insert_by_price(levels, level);
    if levels.len() == 0 {
        assert(out =~= Seq::<(u64, u64)>::empty().push(level));
    } else if price_key(levels.last().0) <= price_key(level.0) {
        let keys = price_keys(out);
        assert forall|i: int, j: int| 0 <= i < j < keys.len() implies !before(true, keys[j], keys[i]) by {
            assert(out[i] == levels[i]);
            assert(keys[i] == price_keys(levels)[i]);
            if j < levels.len() {
                assert(out[j] == levels[j]);
                assert(keys[j] == price_keys(levels)[j]);
            } else {
                assert(out[j] == level);
                if i < levels.len() - 1 {
                    assert(!before(true, price_keys(levels)[levels.len() - 1], price_keys(levels)[i]));
                }
            }
        }
    } else {
        let rest = levels.drop_last();
        let last = levels.last();
        assert(sorted_keys(true, price_keys(rest))) by {
            assert forall|i: int, j: int| 0 <= i < j < price_keys(rest).len() implies
                !before(true, price_keys(rest)[j], price_keys(rest)[i]) by {
                assert(price_keys(rest)[i] == price_keys(levels)[i]);
                assert(price_keys(rest)[j] == price_keys(levels)[j]);
            }
        }
        lemma_insert_by_price(rest, level);
        let mid = insert_by_price(rest, level);
        // Every level of `mid` is `level` or a level of `rest`, all at most `last`.
        assert forall|i: int| 0 <= i < mid.len() implies price_key(#[trigger] mid[i].0) <= price_key(last.0) by {
            assert(mid.to_multiset().count(mid[i]) > 0);
            assert(rest.to_multiset().insert(level).count(mid[i]) > 0);
            if mid[i] != level {
                assert(rest.to_multiset().count(mid[i]) > 0);
                assert(rest.contains(mid[i]));
                let w = choose|w: int| 0 <= w < rest.len() && rest[w] == mid[i];
                assert(price_keys(levels)[w] == price_key(rest[w].0));
                assert(!before(true, price_keys(levels)[levels.len() - 1], price_keys(levels)[w]));
            }
        }
        let keys = price_keys(out);
        assert forall|i: int, j: int| 0 <= i < j < keys.len() implies !before(true, keys[j], keys[i]) by {
            assert(keys[i] == price_key(out[i].0));
            if j < keys.len() - 1 {
                assert(keys[j] == price_keys(mid)[j]);
                assert(keys[i] == price_keys(mid)[i]);
            } else {
                assert(out[i] == mid[i]);
            }
        }
        assert(levels =~= rest.push(last));
        assert(out.to_multiset() =~= levels.to_multiset().insert(level));
    }
}

/// The levels a snapshot side gives are ordered from the lowest price to the
/// highest, and they are just the finite quotes of the side.
pub proof fn lemma_sorted_levels(quotes: Seq<(u64, u64)>)
    ensures
        sorted_keys(true, price_keys(sorted_levels(quotes))),
        sorted_levels(quotes).to_multiset() == quotes.filter(|l: (u64, u64)| finite_level(l)).to_multiset(),
    decreases quotes.len(),
{
    broadcast use vstd::seq_lib::group_to_multiset_ensures;

    reveal(Seq::filter);
    if quotes.len() == 0 {
        assert(quotes.filter(|l: (u64, u64)| finite_level(l)) =~= Seq::<(u64, u64)>::empty());
        assert(sorted_levels(quotes) =~= Seq::<(u64, u64)>::empty());
    } else {
        lemma_sorted_levels(quotes.drop_last());
        if finite_level(quotes.last()) {
            lemma_insert_by_price(sorted_levels(quotes.drop_last()), quotes.last());
        }
    }
}

/// The asks of a snapshot go from the highest price to the lowest.
pub proof fn lemma_snapshot_asks_ordered(quotes: Seq<(u64, u64)>)
    ensures
        sorted_keys(false, price_keys(sorted_levels(quotes).reverse())),
{
    lemma_sorted_levels(quotes);
    let up = price_keys(sorted_levels(quotes));
    let down = price_keys(sorted_levels(quotes).reverse());
    assert forall|i: int, j: int| 0 <= i < j < down.len() implies !before(false, down[j], down[i]) by {
        let lv = sorted_levels(quotes);
        let n = up.len();
        assert(lv.reverse()[i] == lv[n - 1 - i]);
        assert(lv.reverse()[j] == lv[n - 1 - j]);
        assert(down[i] == up[n - 1 - i]);
        assert(down[j] == up[n - 1 - j]);
        assert(!before(true, up[n - 1 - i], up[n - 1 - j]));
    }
}

/// Applying changes keeps the bids ordered from the lowest price to the
/// highest and the asks from the highest to the lowest.
pub proof fn lemma_apply_changes_keeps_order(
    bids: Seq<(u64, u64)>,
    asks: Seq<(u64, u64)>,
    changes: Seq<(Seq<char>, u64, u64)>,
)
    requires
        sorted_keys(true, price_keys(bids)),
        sorted_keys(false, price_keys(asks)),
    ensures
        sorted_keys(true, price_keys(spec_apply_changes(bids, asks, changes).0)),
        sorted_keys(false, price_keys(spec_apply_changes(bids, asks, changes).1)),
    decreases changes.len(),
{
    if changes.len() > 0 {
        let c = changes[0];
        match change_side(c.0) {
            Some(true) => {
                lemma_apply_change_keeps_order(true, bids, (c.1, c.2));
                let (b, u) = spec_apply_change(true, bids, (c.1, c.2));
                lemma_apply_changes_keeps_order(b, asks, changes.drop_first());
            },
            Some(false) => {
                lemma_apply_change_keeps_order(false, asks, (c.1, c.2));
                let (a, u) = spec_apply_change(false, asks, (c.1, c.2));
                lemma_apply_changes_keeps_order(bids, a, changes.drop_first());
            },
            None => {},
        }
    }
}

/// Applying a change to a side with no price twice leaves no price twice.
pub proof fn lemma_apply_change_keeps_prices_distinct(ascending: bool, levels: Seq<(u64, u64)>, entry: (u64, u64))
    requires
        strictly_sorted_keys(ascending, price_keys(levels)),
    ensures
        strictly_sorted_keys(ascending, price_keys(spec_apply_change(ascending, levels, entry).0)),
{
    let keys = price_keys(levels);
    let k = price_key(entry.0);
    let p = spec_find_index(ascending, keys, k);
    lemma_find_index_scan(ascending, keys, k);
    let out = spec_apply_change(ascending, levels, entry).0;
    let new_keys = price_keys(out);
    if p == levels.len() || (!is_zero_bits(entry.1) && price_key(levels[p].0) != k) {
        assert(new_keys =~= keys.insert(p, k));
        assert forall|i: int, j: int| 0 <= i < j < new_keys.len() implies before(ascending, new_keys[i], new_keys[j]) by {
            if j < p {
            } else if j == p {
                if i < p - 1 {
                    assert(before(ascending, keys[i], keys[p - 1]));
                }
            } else if i == p {
                assert(new_keys[j] == keys[j - 1]);
                if j - 1 > p {
                    assert(before(ascending, keys[p], keys[j - 1]));
                }
            } else if i < p {
                assert(new_keys[j] == keys[j - 1]);
            } else {
                assert(new_keys[j] == keys[j - 1]);
                assert(new_keys[i] == keys[i - 1]);
            }
        }
    } else if is_zero_bits(entry.1) {
        assert(new_keys =~= keys.remove(p));
        assert forall|i: int, j: int| 0 <= i < j < new_keys.len() implies before(ascending, new_keys[i], new_keys[j]) by {
            let i0 = if i < p { i } else { i + 1 };
            let j0 = if j < p { j } else { j + 1 };
            assert(new_keys[i] == keys[i0] && new_keys[j] == keys[j0]);
        }
    } else {
        assert(new_keys =~= keys);
    }
}

/// On a side with no price twice, a change with a size other than zero at
/// a price the side holds sets that level's size and touches nothing else.
pub proof fn lemma_apply_change_updates_in_place(ascending: bool, levels: Seq<(u64, u64)>, entry: (u64, u64), w: int)
    requires
        strictly_sorted_keys(ascending, price_keys(levels)),
        !is_zero_bits(entry.1),
        0 <= w < levels.len(),
        price_key(levels[w].0) == price_key(entry.0),
    ensures
        spec_apply_change(ascending, levels, entry) == (levels.update(w, (levels[w].0, entry.1)), true),
{
    let keys = price_keys(levels);
    let k = price_key(entry.0);
    lemma_find_index_scan(ascending, keys, k);
    let p = spec_find_index(ascending, keys, k);
    assert(keys[w] == k);
    if p < w {
        assert(before(ascending, k, keys[w]));
    }
    if w < p {
        if p < keys.len() && keys[p] == k {
            assert(before(ascending, keys[w], keys[p]));
        } else {
            assert(before(ascending, keys[p - 1], k));
            if w < p - 1 {
                assert(before(ascending, keys[w], keys[p - 1]));
            }
        }
    }
    assert(p == w);
}

/// Applying changes to a book with no price twice on either side leaves no
/// price twice on either side.
pub proof fn lemma_apply_changes_keeps_prices_distinct(
    bids: Seq<(u64, u64)>,
    asks: Seq<(u64, u64)>,
    changes: Seq<(Seq<char>, u64, u64)>,
)
    requires
        strictly_sorted_keys(true, price_keys(bids)),
        strictly_sorted_keys(false, price_keys(asks)),
    ensures
        strictly_sorted_keys(true, price_keys(spec_apply_changes(bids, asks, changes).0)),
        strictly_sorted_keys(false, price_keys(spec_apply_changes(bids, asks, changes).1)),
    decreases changes.len(),
{
    if changes.len() > 0 {
        let c = changes[0];
        match change_side(c.0) {
            Some(true) => {
                lemma_apply_change_keeps_prices_distinct(true, bids, (c.1, c.2));
                let (b, u) = spec_apply_change(true, bids, (c.1, c.2));
                lemma_apply_changes_keeps_prices_distinct(b, asks, changes.drop_first());
            },
            Some(false) => {
                lemma_apply_change_keeps_prices_distinct(false, asks, (c.1, c.2));
                let (a, u) = spec_apply_change(false, asks, (c.1, c.2));
                lemma_apply_changes_keeps_prices_distinct(bids, a, changes.drop_first());
            },
            None => {},
        }
    }
}

} // verus!

//! Box spreads: four legs over two strikes, how they are placed around the spot price,
//! and how liquid they are.
use vstd::prelude::*;
use crate::dates::ExpiryDate;
use crate::market::{OptionChainParams, OptionQuote};
use crate::message::OptionSide;

verus! {

/// One leg of a box spread. Strikes are in cents.
#[derive(Debug, Clone, Copy)]
pub struct BoxSpreadLeg {
    pub strike: u32,
    pub option_side: OptionSide,
    /// Whether the option is in the money.
    pub itm: bool,
    pub quote: Option<OptionQuote>,
    pub liquidity: u32,
    pub ideal: Option<u32>,
}

impl Default for BoxSpreadLeg {
    fn default() -> (leg: Self)
        ensures
            leg == BoxSpreadLeg::plain(0, OptionSide::Call, false),
    {
        BoxSpreadLeg { strike: 0, option_side: OptionSide::Call, itm: false, quote: None, liquidity: 0, ideal: None }
    }
}

/// A box spread: a loan of `intended_loan` cents over four legs expiring on `date`.
#[derive(Debug, Clone, Copy)]
pub struct BoxSpread {
    pub intended_loan: u32,
    pub legs: [BoxSpreadLeg; 4],
    /// When the spread was filled, in seconds since the Unix epoch.
    pub filled: Option<i64>,
    pub date: ExpiryDate,
    pub liquidity: u32,
    /// The absolute difference of the deltas of the two calls, in millionths.
    pub delta: Option<u64>,
    pub worst_price: u32,
    pub best_price: u32,
    pub mid_price: u32,
    pub worst_rate_bps: i64,
    pub mid_rate_bps: i64,
    pub best_rate_bps: i64,
}

// ----------------------------------------------------------------------------
// Liquidity of a leg
// ----------------------------------------------------------------------------

/// Whether the leg's quote gets a liquidity score: both prices, the ask not below the bid,
/// a positive mid price and a positive total size.
pub open spec fn is_scored(leg: BoxSpreadLeg) -> bool {
    match leg.quote {
        Some(q) => match (q.bid, q.ask) {
            (Some(b), Some(a)) => a >= b && (b + a) / 2 > 0 && (q.bid_size + q.ask_size) > 0,
            _ => false,
        },
        None => false,
    }
}

/// Whether the prices of the leg's quote can be added without overflow, where the
/// score computation adds them.
pub open spec fn prices_fit(leg: BoxSpreadLeg) -> bool {
    match leg.quote {
        Some(q) => match (q.bid, q.ask) {
            (Some(b), Some(a)) => a >= b ==> b + a <= u32::MAX,
            _ => true,
        },
        None => true,
    }
}

/// The relative spread of a quote in basis points of its mid price.
pub open spec fn relative_spread_bps(bid: int, ask: int) -> int {
    (ask - bid) * 10000 / ((bid + ask) / 2)
}

/// The liquidity score of a leg: a tight spread and a large size score high; 0 where the
/// quote does not allow a score.
pub open spec fn liquidity_score(leg: BoxSpreadLeg) -> u32 {
    if is_scored(leg) {
        let q = leg.quote->0;
        let b: int = q.bid->0 as int;
        let a: int = q.ask->0 as int;
        let total: int = q.bid_size + q.ask_size;
        let spread_score: int = 10000int / (relative_spread_bps(b, a) + 1);
        let size_score: int = if total < 10000 {
            total
        } else {
            10000
        };
        let product: int = spread_score * size_score;
        if product <= u32::MAX {
            product as u32
        } else {
            u32::MAX
        }
    } else {
        0
    }
}

/// The leg after its score is computed: it records the score where the quote allows one.
pub open spec fn scored_leg(leg: BoxSpreadLeg) -> BoxSpreadLeg {
    if is_scored(leg) {
        BoxSpreadLeg { liquidity: liquidity_score(leg), ..leg }
    } else {
        leg
    }
}

/// The smallest of four numbers.
pub open spec fn min4(a: u32, b: u32, c: u32, d: u32) -> u32 {
    let ab: u32 = if a <= b {
        a
    } else {
        b
    };
    let cd: u32 = if c <= d {
        c
    } else {
        d
    };
    if ab <= cd {
        ab
    } else {
        cd
    }
}

// ----------------------------------------------------------------------------
// Placing the legs
// ----------------------------------------------------------------------------

/// `value` rounded to the nearest multiple of `granularity` (halves round up);
/// `value` itself where the granularity is 0.
pub open spec fn round_to_nearest_spec(value: int, granularity: int) -> int {
    if granularity == 0 {
        value
    } else {
        ((value + granularity / 2) / granularity) * granularity
    }
}

/// The distance of a strike (in cents) from a target in ten-thousandths of a dollar.
pub open spec fn strike_distance(strike: u32, target: int) -> int {
    let scaled: int = strike * 100;
    if scaled >= target {
        scaled - target
    } else {
        target - scaled
    }
}

/// The first strike of `strikes` nearest to `target`, if there is any strike.
pub open spec fn nearest_strike_spec(strikes: Seq<u32>, target: int) -> Option<u32>
    decreases strikes.len(),
{
    if strikes.len() == 0 {
        None
    } else {
        match nearest_strike_spec(strikes.drop_last(), target) {
            None => Some(strikes.last()),
            Some(best) => if strike_distance(strikes.last(), target) < strike_distance(best, target) {
                Some(strikes.last())
            } else {
                Some(best)
            },
        }
    }
}

/// The width of the box in index points: the loan in cents over 10,000.
pub open spec fn width_points(loan: u32) -> int {
    (loan / 10000) as int
}

/// The point value around which the low strike is sought: half the width below spot.
pub open spec fn low_target_points(loan: u32, spot_price: u32) -> int {
    let spot: int = (spot_price / 100) as int;
    let half: int = width_points(loan) / 2;
    if spot >= half {
        spot - half
    } else {
        0
    }
}

/// The point value around which the high strike is sought: half the width above spot.
pub open spec fn high_target_points(loan: u32, spot_price: u32) -> int {
    let spot: int = (spot_price / 100) as int;
    let half: int = width_points(loan) / 2;
    if spot + half <= u32::MAX {
        spot + half
    } else {
        u32::MAX as int
    }
}

/// The rounded low target in points.
pub open spec fn low_round(loan: u32, spot_price: u32) -> int {
    round_to_nearest_spec(low_target_points(loan, spot_price), width_points(loan))
}

/// The rounded high target in points.
pub open spec fn high_round(loan: u32, spot_price: u32) -> int {
    round_to_nearest_spec(high_target_points(loan, spot_price), width_points(loan))
}

/// Whether placing the legs for `loan` and `spot_price` stays within `u32` arithmetic,
/// as the placement computes it.
pub open spec fn placement_fits(loan: u32, spot_price: u32, strikes: Seq<u32>) -> bool {
    &&& width_points(loan) == 0 || low_target_points(loan, spot_price) + width_points(loan) / 2
        <= u32::MAX
    &&& width_points(loan) == 0 || high_target_points(loan, spot_price) + width_points(loan) / 2
        <= u32::MAX
    &&& low_round(loan, spot_price) * 10000 <= u32::MAX
    &&& high_round(loan, spot_price) * 10000 <= u32::MAX
    &&& forall|i: int| 0 <= i < strikes.len() ==> #[trigger] strikes[i] * 100 <= u32::MAX
}

/// The low strike chosen for `loan` and `spot_price`, if there is any strike.
pub open spec fn chosen_low_strike(loan: u32, spot_price: u32, strikes: Seq<u32>) -> Option<u32> {
    nearest_strike_spec(strikes, low_round(loan, spot_price) * 10000)
}

/// The high strike chosen for `loan` and `spot_price`, if there is any strike.
pub open spec fn chosen_high_strike(loan: u32, spot_price: u32, strikes: Seq<u32>) -> Option<u32> {
    nearest_strike_spec(strikes, high_round(loan, spot_price) * 10000)
}

impl BoxSpreadLeg {
    /// A leg of a strike and a right, with no quote yet.
    pub open spec fn plain(strike: u32, option_side: OptionSide, itm: bool) -> BoxSpreadLeg {
        BoxSpreadLeg { strike, option_side, itm, quote: None, liquidity: 0, ideal: None }
    }
}

/// The box with the strikes of its legs moved to `low` (first and last leg) and `high`
/// (middle legs).
pub open spec fn with_strikes(s: BoxSpread, low: u32, high: u32) -> BoxSpread {
    BoxSpread {
        legs: [
            BoxSpreadLeg { strike: low, ..s.legs[0] },
            BoxSpreadLeg { strike: high, ..s.legs[1] },
            BoxSpreadLeg { strike: high, ..s.legs[2] },
            BoxSpreadLeg { strike: low, ..s.legs[3] },
        ],
        ..s
    }
}

/// Whether the legs form a box: calls at the low and the high strike, then puts at the
/// high and the low strike, the low strike not above the high one.
pub open spec fn is_box(s: BoxSpread) -> bool {
    &&& s.legs[0].option_side == OptionSide::Call
    &&& s.legs[1].option_side == OptionSide::Call
    &&& s.legs[2].option_side == OptionSide::Put
    &&& s.legs[3].option_side == OptionSide::Put
    &&& s.legs[0].strike == s.legs[3].strike
    &&& s.legs[1].strike == s.legs[2].strike
    &&& s.legs[0].strike <= s.legs[1].strike
}

/// The width of a box: its high strike less its low strike, in cents.
pub open spec fn box_width(s: BoxSpread) -> int {
    s.legs[1].strike - s.legs[0].strike
}

/// Whether two boxes are placed alike: same loan, same date, and legs of the same strikes
/// and rights (their quotes, scores, liquidity and delta may differ).
pub open spec fn same_placement(a: BoxSpread, b: BoxSpread) -> bool {
    &&& a.intended_loan == b.intended_loan
    &&& a.date == b.date
    &&& forall|i: int|
        0 <= i < 4 ==> (#[trigger] a.legs[i]).strike == b.legs[i].strike && a.legs[i].option_side
            == b.legs[i].option_side
}

/// The call strikes of a box are its low and its high strike.
pub proof fn lemma_box_call_strikes(s: BoxSpread)
    requires
        is_box(s),
    ensures
        call_strikes(s.legs@) == seq![s.legs[0].strike, s.legs[1].strike],
        seq_min(call_strikes(s.legs@)) == s.legs[0].strike,
        seq_max(call_strikes(s.legs@)) == s.legs[1].strike,
{
    let l = s.legs@;
    assert(l.len() == 4);
    assert(l.drop_last().drop_last().drop_last().drop_last() =~= Seq::<BoxSpreadLeg>::empty());
    assert(call_strikes(Seq::<BoxSpreadLeg>::empty()) =~= Seq::<u32>::empty());
    assert(l.drop_last().drop_last().drop_last().last() == l[0]);
    assert(l.drop_last().drop_last().last() == l[1]);
    assert(l.drop_last().last() == l[2]);
    assert(l.last() == l[3]);
    assert(call_strikes(l.drop_last().drop_last().drop_last()) =~= seq![s.legs[0].strike]);
    assert(call_strikes(l.drop_last().drop_last()) =~= seq![s.legs[0].strike, s.legs[1].strike]);
    assert(call_strikes(l.drop_last()) =~= seq![s.legs[0].strike, s.legs[1].strike]);
    assert(call_strikes(l) =~= seq![s.legs[0].strike, s.legs[1].strike]);
    let c = call_strikes(l);
    assert(c.drop_last() =~= seq![s.legs[0].strike]);
    assert(seq_min(c.drop_last()) == s.legs[0].strike);
    assert(seq_max(c.drop_last()) == s.legs[0].strike);
}

/// The four legs of a box between `low` and `high` for the spot price `spot`:
/// call low, call high, put high, put low.
pub open spec fn box_legs(low: u32, high: u32, spot: u32) -> Seq<BoxSpreadLeg> {
    seq![
        BoxSpreadLeg::plain(low, OptionSide::Call, low < spot),
        BoxSpreadLeg::plain(high, OptionSide::Call, high < spot),
        BoxSpreadLeg::plain(high, OptionSide::Put, high > spot),
        BoxSpreadLeg::plain(low, OptionSide::Put, low > spot),
    ]
}

// ----------------------------------------------------------------------------
// Strikes, deltas, completeness
// ----------------------------------------------------------------------------

/// The strikes of the call legs, in order.
pub open spec fn call_strikes(legs: Seq<BoxSpreadLeg>) -> Seq<u32>
    decreases legs.len(),
{
    if legs.len() == 0 {
        Seq::empty()
    } else if legs.last().option_side == OptionSide::Call {
        call_strikes(legs.drop_last()).push(legs.last().strike)
    } else {
        call_strikes(legs.drop_last())
    }
}

/// The deltas of the call legs whose quotes report one, in order.
pub open spec fn call_deltas(legs: Seq<BoxSpreadLeg>) -> Seq<i64>
    decreases legs.len(),
{
    if legs.len() == 0 {
        Seq::empty()
    } else {
        let rest = call_deltas(legs.drop_last());
        let l = legs.last();
        if l.option_side == OptionSide::Call && l.quote is Some && l.quote->0.delta is Some {
            rest.push(l.quote->0.delta->0)
        } else {
            rest
        }
    }
}

/// The smallest element of a non-empty sequence.
pub open spec fn seq_min(s: Seq<u32>) -> u32
    decreases s.len(),
{
    if s.len() <= 1 {
        s[0]
    } else if s.last() < seq_min(s.drop_last()) {
        s.last()
    } else {
        seq_min(s.drop_last())
    }
}

/// The largest element of a non-empty sequence.
pub open spec fn seq_max(s: Seq<u32>) -> u32
    decreases s.len(),
{
    if s.len() <= 1 {
        s[0]
    } else if s.last() > seq_max(s.drop_last()) {
        s.last()
    } else {
        seq_max(s.drop_last())
    }
}

/// Whether the leg holds a complete quote.
pub open spec fn leg_complete(leg: BoxSpreadLeg) -> bool {
    match leg.quote {
        Some(q) => q.is_complete(),
        None => false,
    }
}

/// The quote that `chain` holds for the leg: by its strike in dollars and its right.
pub open spec fn chain_quote(chain: crate::market::ChainView, leg: BoxSpreadLeg) -> Option<OptionQuote> {
    let key = (leg.strike / 100, leg.option_side);
    if chain.quotes.contains_key(key) {
        Some(chain.quotes[key])
    } else {
        None
    }
}

/// Whether `chain` holds a complete quote for the leg.
pub open spec fn chain_quote_complete(chain: crate::market::ChainView, leg: BoxSpreadLeg) -> bool {
    match chain_quote(chain, leg) {
        Some(q) => q.is_complete(),
        None => false,
    }
}

/// Whether every leg of the box holds a complete quote.
pub open spec fn spread_complete(s: BoxSpread) -> bool {
    forall|i: int| 0 <= i < 4 ==> leg_complete(#[trigger] s.legs[i])
}

/// The box whose legs hold the quotes `chain` holds for them.
pub open spec fn filled_spread(s: BoxSpread, chain: crate::market::ChainView) -> BoxSpread {
    BoxSpread {
        legs: [
            BoxSpreadLeg { quote: chain_quote(chain, s.legs[0]), ..s.legs[0] },
            BoxSpreadLeg { quote: chain_quote(chain, s.legs[1]), ..s.legs[1] },
            BoxSpreadLeg { quote: chain_quote(chain, s.legs[2]), ..s.legs[2] },
            BoxSpreadLeg { quote: chain_quote(chain, s.legs[3]), ..s.legs[3] },
        ],
        ..s
    }
}

/// The box with its legs scored and the smallest score as its liquidity.
pub open spec fn scored_spread(s: BoxSpread) -> BoxSpread {
    BoxSpread {
        legs: [scored_leg(s.legs[0]), scored_leg(s.legs[1]), scored_leg(s.legs[2]), scored_leg(s.legs[3])],
        liquidity: min4(
            liquidity_score(s.legs[0]),
            liquidity_score(s.legs[1]),
            liquidity_score(s.legs[2]),
            liquidity_score(s.legs[3]),
        ),
        ..s
    }
}

/// The delta of a box: the gap between the first two call deltas its quotes report.
pub open spec fn spread_delta(legs: Seq<BoxSpreadLeg>) -> Option<u64> {
    if call_deltas(legs).len() >= 2 {
        let a: int = call_deltas(legs)[0] as int;
        let b: int = call_deltas(legs)[1] as int;
        Some((if a >= b {
            a - b
        } else {
            b - a
        }) as u64)
    } else {
        None
    }
}

/// The box with its delta computed.
pub open spec fn with_delta(s: BoxSpread) -> BoxSpread {
    BoxSpread { delta: spread_delta(s.legs@), ..s }
}

// ----------------------------------------------------------------------------
// Price and rate of a box
// ----------------------------------------------------------------------------

/// Whether the leg's quote has both a bid and an ask.
pub open spec fn leg_priced(leg: BoxSpreadLeg) -> bool {
    leg.quote is Some && leg.quote->0.bid is Some && leg.quote->0.ask is Some
}

/// The leg's bid, in cents.
pub open spec fn leg_bid(leg: BoxSpreadLeg) -> int {
    leg.quote->0.bid->0 as int
}

/// The leg's ask, in cents.
pub open spec fn leg_ask(leg: BoxSpreadLeg) -> int {
    leg.quote->0.ask->0 as int
}

/// The best price of the box for the borrower who sells it: the long legs (low call,
/// high put) at their ask, the short legs (high call, low put) at their bid.
pub open spec fn box_best_price(s: BoxSpread) -> int {
    leg_ask(s.legs[0]) - leg_bid(s.legs[1]) + leg_ask(s.legs[2]) - leg_bid(s.legs[3])
}

/// The worst price of the box for the borrower: the long legs at their bid, the short legs
/// at their ask.
pub open spec fn box_worst_price(s: BoxSpread) -> int {
    leg_bid(s.legs[0]) - leg_ask(s.legs[1]) + leg_bid(s.legs[2]) - leg_ask(s.legs[3])
}

/// The middle of the best and the worst price, halves rounded up.
pub open spec fn box_mid_price(s: BoxSpread) -> int {
    (box_best_price(s) + box_worst_price(s) + 1) / 2
}

/// What the box pays at expiry, in cents: the gap between its strikes.
pub open spec fn box_payoff(s: BoxSpread) -> int {
    s.legs[1].strike - s.legs[0].strike
}

/// Integer division that rounds toward zero, as Rust's does.
pub open spec fn div_toward_zero(n: int, d: int) -> int {
    if n >= 0 {
        n / d
    } else {
        -((-n) / d)
    }
}

/// The yearly rate, in basis points, of borrowing `price` now and paying `payoff` back
/// in `days` days: (payoff − price) / price × 365 / days × 10,000, rounded toward zero.
pub open spec fn annual_rate_bps(payoff: int, price: int, days: int) -> int {
    div_toward_zero((payoff - price) * 3_650_000, price * days)
}

/// Whether the box can be priced `days` days before expiry: every leg has a bid and an ask,
/// expiry is ahead, and the prices are positive, in order and within `u32`.
pub open spec fn pricing_possible(s: BoxSpread, days: i64) -> bool {
    &&& forall|i: int| 0 <= i < 4 ==> leg_priced(#[trigger] s.legs[i])
    &&& days > 0
    &&& 0 < box_worst_price(s)
    &&& box_worst_price(s) <= box_best_price(s)
    &&& box_best_price(s) <= u32::MAX
}

/// The box with its prices and their yearly rates for a loan of `days` days.
pub open spec fn priced_spread(s: BoxSpread, days: i64) -> BoxSpread {
    BoxSpread {
        best_price: box_best_price(s) as u32,
        mid_price: box_mid_price(s) as u32,
        worst_price: box_worst_price(s) as u32,
        best_rate_bps: annual_rate_bps(box_payoff(s), box_best_price(s), days as int) as i64,
        mid_rate_bps: annual_rate_bps(box_payoff(s), box_mid_price(s), days as int) as i64,
        worst_rate_bps: annual_rate_bps(box_payoff(s), box_worst_price(s), days as int) as i64,
        ..s
    }
}

impl BoxSpreadLeg {
    /// The leg's bid and ask, where its quote has both.
    pub fn prices(&self) -> (p: Option<(u32, u32)>)
        ensures
            p == (if leg_priced(*self) {
                Some((self.quote->0.bid->0, self.quote->0.ask->0))
            } else {
                None
            }),
    {
        match &self.quote {
            Some(q) => match (q.bid, q.ask) {
                (Some(b), Some(a)) => Some((b, a)),
                _ => None,
            },
            None => None,
        }
    }
}

/// The yearly rate in basis points of borrowing `price` cents for `days` days against a
/// payoff of `payoff` cents.
fn rate_bps(payoff: i64, price: i64, days: i64) -> (r: i64)
    requires
        0 < price <= u32::MAX,
        0 < days,
        -0x1_0000_0000 <= payoff <= 0x1_0000_0000,
    ensures
        r == annual_rate_bps(payoff as int, price as int, days as int),
{
    assert((price as u128) * (days as u128) <= 0x1_0000_0000 * 0x8000_0000_0000_0000) by (nonlinear_arith)
        requires
            0 < price <= 0x1_0000_0000,
            0 < days <= 0x8000_0000_0000_0000,
    ;
    let den: u128 = (price as u128) * (days as u128);
    assert(den == price * days) by (nonlinear_arith)
        requires
            den == (price as u128) * (days as u128),
            price > 0,
            days > 0,
    ;
    assert(den >= 1) by (nonlinear_arith)
        requires
            den == price * days,
            price >= 1,
            days >= 1,
    ;
    let gap: i64 = payoff - price;
    if gap >= 0 {
        let num: u128 = (gap as u128) * 3_650_000;
        let q: u128 = num / den;
        assert(q <= num) by (nonlinear_arith)
            requires
                q == num / den,
                den >= 1,
        ;
        q as i64
    } else {
        let num: u128 = ((-gap) as u128) * 3_650_000;
        let q: u128 = num / den;
        assert(q <= num) by (nonlinear_arith)
            requires
                q == num / den,
                den >= 1,
        ;
        assert((gap * 3_650_000) < 0);
        assert(-(gap * 3_650_000) == num);
        -(q as i64)
    }
}

impl BoxSpreadLeg {
    pub fn complete(&self) -> (c: bool)
        ensures
            c == leg_complete(*self),
    {
        match &self.quote {
            Some(q) => q.complete(),
            None => false,
        }
    }

    /// Scores the liquidity of the leg's quote, records the score on the leg where the quote
    /// allows one, and returns it (0 where it does not).
    fn calculate_liquidity_score(&mut self) -> (score: u32)
        requires
            prices_fit(*old(self)),
        ensures
            score == liquidity_score(*old(self)),
            *final(self) == scored_leg(*old(self)),
    {
        let quote = match &self.quote {
            Some(q) => *q,
            None => return 0,
        };
        let bid: u32 = match quote.bid {
            Some(b) => b,
            None => return 0,
        };
        let ask: u32 = match quote.ask {
            Some(a) => a,
            None => return 0,
        };
        if ask < bid {
            return 0;
        }
        let mid: u32 = (bid + ask) / 2;
        if mid == 0 {
            return 0;
        }
        let spread: u32 = ask - bid;
        let total_size: u64 = quote.bid_size.saturating_add(quote.ask_size);
        if total_size == 0 {
            return 0;
        }
        assert(spread <= 2 * mid + 1);
        let rel_wide: u64 = (spread as u64) * 10000 / (mid as u64);
        assert(rel_wide <= 30000) by (nonlinear_arith)
            requires
                rel_wide as int == (spread as int) * 10000 / (mid as int),
                spread <= 2 * mid + 1,
                mid >= 1,
        ;
        let relative_spread_bps: u32 = rel_wide as u32;
        let spread_score: u32 = 10000u32 / (relative_spread_bps + 1);
        let size_score: u32 = if total_size < 10000 {
            total_size as u32
        } else {
            10000
        };
        assert((spread_score as int) * (size_score as int) <= 100_000_000) by (nonlinear_arith)
            requires
                spread_score <= 10000,
                size_score <= 10000,
        ;
        let product: u64 = (spread_score as u64) * (size_score as u64);
        self.liquidity = product as u32;
        self.liquidity
    }
}

impl Default for BoxSpread {
    fn default() -> (s: Self)
        ensures
            s.intended_loan == 0,
            forall|i: int| 0 <= i < 4 ==> s.legs[i] == BoxSpreadLeg::plain(0, OptionSide::Call, false),
            s.filled is None,
            s.date.y() == 1970 && s.date.m() == 1 && s.date.d() == 1,
            s.liquidity == 0,
            s.delta is None,
            s.worst_price == 0 && s.best_price == 0 && s.mid_price == 0,
            s.worst_rate_bps == 0 && s.mid_rate_bps == 0 && s.best_rate_bps == 0,
    {
        let leg = BoxSpreadLeg::default();
        BoxSpread {
            intended_loan: 0,
            legs: [leg, leg, leg, leg],
            filled: None,
            date: ExpiryDate::epoch(),
            liquidity: 0,
            delta: None,
            worst_price: 0,
            best_price: 0,
            mid_price: 0,
            worst_rate_bps: 0,
            mid_rate_bps: 0,
            best_rate_bps: 0,
        }
    }
}

/// `value` rounded to the nearest multiple of `granularity`.
fn round_to_nearest(value: u32, granularity: u32) -> (r: u32)
    requires
        granularity == 0 || value + granularity / 2 <= u32::MAX,
    ensures
        r == round_to_nearest_spec(value as int, granularity as int),
{
    if granularity == 0 {
        return value;
    }
    let q: u32 = (value + granularity / 2) / granularity;
    assert(q * granularity <= value + granularity / 2) by (nonlinear_arith)
        requires
            q as int == (value as int + granularity / 2) / (granularity as int),
            granularity > 0,
    ;
    q * granularity
}

/// The first of `strikes` nearest to `target` (compared in ten-thousandths of a dollar).
fn nearest_strike(strikes: &[u32], target: u32) -> (best: Option<u32>)
    requires
        forall|i: int| 0 <= i < strikes@.len() ==> #[trigger] strikes@[i] * 100 <= u32::MAX,
    ensures
        best == nearest_strike_spec(strikes@, target as int),
{
    let mut best: Option<u32> = None;
    let mut best_dist: u32 = 0;
    let mut i: usize = 0;
    assert(strikes@.take(0) =~= Seq::<u32>::empty());
    while i < strikes.len()
        invariant
            0 <= i <= strikes@.len(),
            forall|j: int| 0 <= j < strikes@.len() ==> #[trigger] strikes@[j] * 100 <= u32::MAX,
            best == nearest_strike_spec(strikes@.take(i as int), target as int),
            best matches Some(b) ==> best_dist == strike_distance(b, target as int),
        decreases strikes@.len() - i,
    {
        let s: u32 = strikes[i];
        assert(strikes@[i as int] * 100 <= u32::MAX);
        let scaled: u32 = s * 100;
        let d: u32 = if scaled >= target {
            scaled - target
        } else {
            target - scaled
        };
        assert(strikes@.take(i + 1).drop_last() =~= strikes@.take(i as int));
        assert(strikes@.take(i + 1).last() == s);
        match best {
            None => {
                best = Some(s);
                best_dist = d;
            },
            Some(_) => {
                if d < best_dist {
                    best = Some(s);
                    best_dist = d;
                }
            },
        }
        i = i + 1;
    }
    assert(strikes@.take(i as int) =~= strikes@);
    best
}

impl BoxSpread {
    pub fn with_loan(self, loan: u32) -> (s: Self)
        ensures
            s == (BoxSpread { intended_loan: loan, ..self }),
    {
        BoxSpread { intended_loan: loan, ..self }
    }

    pub fn with_date(self, date: ExpiryDate) -> (s: Self)
        ensures
            s == (BoxSpread { date, ..self }),
    {
        BoxSpread { date, ..self }
    }

    /// The strikes of the call legs, in order.
    pub fn strikes(&self) -> (v: Vec<u32>)
        ensures
            v@ == call_strikes(self.legs@),
    {
        let mut v: Vec<u32> = Vec::new();
        let mut i: usize = 0;
        assert(self.legs@.take(0) =~= Seq::<BoxSpreadLeg>::empty());
        while i < 4
            invariant
                0 <= i <= 4,
                v@ == call_strikes(self.legs@.take(i as int)),
            decreases 4 - i,
        {
            let leg = self.legs[i];
            assert(self.legs@.take(i + 1).drop_last() =~= self.legs@.take(i as int));
            assert(self.legs@.take(i + 1).last() == leg);
            if leg.option_side == OptionSide::Call {
                v.push(leg.strike);
            }
            i = i + 1;
        }
        assert(self.legs@.take(4) =~= self.legs@);
        v
    }

    /// The lowest and highest strike of the call legs, if there is a call leg.
    pub fn strike_range(&self) -> (range: Option<(u32, u32)>)
        ensures
            match range {
                Some((lo, hi)) => call_strikes(self.legs@).len() > 0 && lo == seq_min(
                    call_strikes(self.legs@),
                ) && hi == seq_max(call_strikes(self.legs@)),
                None => call_strikes(self.legs@).len() == 0,
            },
    {
        let v = self.strikes();
        if v.len() == 0 {
            return None;
        }
        let mut lo: u32 = v[0];
        let mut hi: u32 = v[0];
        let mut i: usize = 1;
        assert(v@.take(1) =~= seq![v@[0]]);
        while i < v.len()
            invariant
                1 <= i <= v@.len(),
                lo == seq_min(v@.take(i as int)),
                hi == seq_max(v@.take(i as int)),
            decreases v@.len() - i,
        {
            let s: u32 = v[i];
            assert(v@.take(i + 1).drop_last() =~= v@.take(i as int));
            assert(v@.take(i + 1).last() == s);
            if s < lo {
                lo = s;
            }
            if s > hi {
                hi = s;
            }
            i = i + 1;
        }
        assert(v@.take(i as int) =~= v@);
        Some((lo, hi))
    }

    /// Places the four legs around the spot price for the intended loan: the low and high
    /// strikes are the strikes nearest to the spot less and plus half the box width,
    /// rounded to that width. Returns the two strikes, or `[0, 0]` (changing nothing)
    /// where there is no strike.
    pub fn candidate_legs(&mut self, spot_price: u32, strikes: &[u32]) -> (chosen: [u32; 2])
        requires
            placement_fits(old(self).intended_loan, spot_price, strikes@),
        ensures
            match (
                chosen_low_strike(old(self).intended_loan, spot_price, strikes@),
                chosen_high_strike(old(self).intended_loan, spot_price, strikes@),
            ) {
                (Some(lo), Some(hi)) => chosen@ == seq![lo, hi] && *final(self) == (BoxSpread {
                    legs: final(self).legs,
                    ..*old(self)
                }) && final(self).legs@ == box_legs(lo, hi, spot_price) && call_strikes(
                    final(self).legs@,
                ) == seq![lo, hi] && (lo <= hi ==> is_box(*final(self))),
                _ => chosen@ == seq![0u32, 0u32] && *final(self) == *old(self),
            },
    {
        let width_cents: u32 = self.intended_loan;
        let width_points: u32 = width_cents / 10_000;
        let half_width_points: u32 = width_points / 2;
        let spot_points: u32 = spot_price / 100;
        let low_value: u32 = spot_points.saturating_sub(half_width_points);
        let high_value: u32 = spot_points.saturating_add(half_width_points);
        let low_round: u32 = round_to_nearest(low_value, width_points);
        let high_round: u32 = round_to_nearest(high_value, width_points);
        let low_strike = nearest_strike(strikes, low_round * 10_000);
        let high_strike = nearest_strike(strikes, high_round * 10_000);
        let (low_strike, high_strike) = match (low_strike, high_strike) {
            (Some(l), Some(h)) => (l, h),
            _ => {
                let none: [u32; 2] = [0, 0];
                assert(none@ =~= seq![0u32, 0u32]);
                return none;
            },
        };
        let l0 = BoxSpreadLeg {
            strike: low_strike,
            option_side: OptionSide::Call,
            itm: low_strike < spot_price,
            quote: None,
            liquidity: 0,
            ideal: None,
        };
        let l1 = BoxSpreadLeg {
            strike: high_strike,
            option_side: OptionSide::Call,
            itm: high_strike < spot_price,
            quote: None,
            liquidity: 0,
            ideal: None,
        };
        let l2 = BoxSpreadLeg {
            strike: high_strike,
            option_side: OptionSide::Put,
            itm: high_strike > spot_price,
            quote: None,
            liquidity: 0,
            ideal: None,
        };
        let l3 = BoxSpreadLeg {
            strike: low_strike,
            option_side: OptionSide::Put,
            itm: low_strike > spot_price,
            quote: None,
            liquidity: 0,
            ideal: None,
        };
        self.legs = [l0, l1, l2, l3];
        assert(self.legs@ =~= box_legs(low_strike, high_strike, spot_price));
        proof {
            let l = self.legs@;
            assert(l.drop_last().drop_last().drop_last().drop_last() =~= Seq::<BoxSpreadLeg>::empty());
            assert(call_strikes(Seq::<BoxSpreadLeg>::empty()) =~= Seq::<u32>::empty());
            assert(l.drop_last().drop_last().drop_last().last() == l[0]);
            assert(l.drop_last().drop_last().last() == l[1]);
            assert(l.drop_last().last() == l[2]);
            assert(l.last() == l[3]);
            assert(call_strikes(l.drop_last().drop_last().drop_last()) =~= seq![low_strike]);
            assert(call_strikes(l.drop_last().drop_last()) =~= seq![low_strike, high_strike]);
            assert(call_strikes(l.drop_last()) =~= seq![low_strike, high_strike]);
            assert(call_strikes(l) =~= seq![low_strike, high_strike]);
        }
        let chosen: [u32; 2] = [low_strike, high_strike];
        assert(chosen@ =~= seq![low_strike, high_strike]);
        chosen
    }

    /// Scores every leg and takes the smallest score as the spread's liquidity.
    pub fn calculate_spread_liquidity(&mut self) -> (liquidity: u32)
        requires
            forall|i: int| 0 <= i < 4 ==> prices_fit(#[trigger] old(self).legs[i]),
        ensures
            *final(self) == scored_spread(*old(self)),
            forall|i: int| 0 <= i < 4 ==> liquidity <= liquidity_score(#[trigger] old(self).legs[i]),
            liquidity == liquidity_score(old(self).legs[0]) || liquidity == liquidity_score(old(self).legs[1])
                || liquidity == liquidity_score(old(self).legs[2]) || liquidity == liquidity_score(
                old(self).legs[3],
            ),
            liquidity == min4(
                liquidity_score(old(self).legs[0]),
                liquidity_score(old(self).legs[1]),
                liquidity_score(old(self).legs[2]),
                liquidity_score(old(self).legs[3]),
            ),
            final(self).liquidity == liquidity,
            forall|i: int| 0 <= i < 4 ==> #[trigger] final(self).legs[i] == scored_leg(old(self).legs[i]),
            *final(self) == (BoxSpread { legs: final(self).legs, liquidity: final(self).liquidity, ..*old(self) }),
    {
        let mut l0 = self.legs[0];
        let s0: u32 = l0.calculate_liquidity_score();
        let mut l1 = self.legs[1];
        let s1: u32 = l1.calculate_liquidity_score();
        let mut l2 = self.legs[2];
        let s2: u32 = l2.calculate_liquidity_score();
        let mut l3 = self.legs[3];
        let s3: u32 = l3.calculate_liquidity_score();
        self.legs = [l0, l1, l2, l3];
        let ab: u32 = if s0 <= s1 {
            s0
        } else {
            s1
        };
        let cd: u32 = if s2 <= s3 {
            s2
        } else {
            s3
        };
        self.liquidity = if ab <= cd {
            ab
        } else {
            cd
        };
        proof {
            let t = scored_spread(*old(self));
            assert(self.legs[0] == t.legs[0]);
            assert(self.legs[1] == t.legs[1]);
            assert(self.legs[2] == t.legs[2]);
            assert(self.legs[3] == t.legs[3]);
            assert(self.legs =~= t.legs);
        }
        self.liquidity
    }

    /// Whether every leg holds a complete quote. The delta does not count: the gateway
    /// does not report one for the quotes the scanner requests.
    pub fn complete(&self) -> (c: bool)
        ensures
            c == spread_complete(*self),
    {
        let c: bool = self.legs[0].complete() && self.legs[1].complete() && self.legs[2].complete()
            && self.legs[3].complete();
        proof {
            if !c {
                if !leg_complete(self.legs[0]) {
                    assert(!leg_complete(self.legs[0]));
                } else if !leg_complete(self.legs[1]) {
                    assert(!leg_complete(self.legs[1]));
                } else if !leg_complete(self.legs[2]) {
                    assert(!leg_complete(self.legs[2]));
                } else {
                    assert(!leg_complete(self.legs[3]));
                }
            }
        }
        c
    }

    /// One step of the evaluation of a candidate once its quotes are in: the legs take the
    /// quotes `chain` holds for them, get scored, the delta is computed, and the step
    /// reports whether every leg now holds a complete quote (the evaluation is then done).
    pub fn settle_quotes(&mut self, chain: &OptionChainParams) -> (done: bool)
        requires
            forall|i: int| 0 <= i < 4 ==> prices_fit(#[trigger] filled_spread(*old(self), chain@).legs[i]),
        ensures
            *final(self) == with_delta(scored_spread(filled_spread(*old(self), chain@))),
            done == spread_complete(*final(self)),
            done == forall|i: int| 0 <= i < 4 ==> chain_quote_complete(chain@, #[trigger] old(self).legs[i]),
    {
        self.fill_quotes(chain);
        self.calculate_spread_liquidity();
        self.calculate_delta();
        let done = self.complete();
        proof {
            let f = filled_spread(*old(self), chain@);
            assert forall|i: int| 0 <= i < 4 implies leg_complete(#[trigger] self.legs[i]) == chain_quote_complete(chain@, old(self).legs[i]) by {
                assert(self.legs[i].quote == f.legs[i].quote);
            }
            if done {
                assert forall|i: int| 0 <= i < 4 implies chain_quote_complete(chain@, #[trigger] old(self).legs[i]) by {
                    assert(leg_complete(self.legs[i]));
                }
            } else {
                let j: int = choose|j: int| 0 <= j < 4 && !leg_complete(#[trigger] self.legs[j]);
                assert(!chain_quote_complete(chain@, old(self).legs[j]));
            }
        }
        done
    }

    /// Sets the delta to the absolute difference of the first two call deltas that the
    /// legs' quotes report, or to none where there are fewer than two.
    pub fn calculate_delta(&mut self)
        ensures
            *final(self) == with_delta(*old(self)),
            *final(self) == (BoxSpread { delta: final(self).delta, ..*old(self) }),
            final(self).delta == (if call_deltas(old(self).legs@).len() >= 2 {
                let a: int = call_deltas(old(self).legs@)[0] as int;
                let b: int = call_deltas(old(self).legs@)[1] as int;
                Some((if a >= b {
                    a - b
                } else {
                    b - a
                }) as u64)
            } else {
                None
            }),
    {
        let ghost legs = self.legs@;
        let mut deltas: Vec<i64> = Vec::new();
        let mut i: usize = 0;
        assert(legs.take(0) =~= Seq::<BoxSpreadLeg>::empty());
        while i < 4
            invariant
                0 <= i <= 4,
                legs == self.legs@,
                deltas@ == call_deltas(legs.take(i as int)),
            decreases 4 - i,
        {
            let leg = self.legs[i];
            assert(legs.take(i + 1).drop_last() =~= legs.take(i as int));
            assert(legs.take(i + 1).last() == leg);
            if leg.option_side == OptionSide::Call {
                match leg.quote {
                    Some(q) => match q.delta {
                        Some(d) => deltas.push(d),
                        None => {},
                    },
                    None => {},
                }
            }
            i = i + 1;
        }
        assert(legs.take(4) =~= legs);
        if deltas.len() >= 2 {
            let a: i64 = deltas[0];
            let b: i64 = deltas[1];
            let diff: u64 = if a >= b {
                ((a as i128) - (b as i128)) as u64
            } else {
                ((b as i128) - (a as i128)) as u64
            };
            self.delta = Some(diff);
        } else {
            self.delta = None;
        }
    }

    /// Moves the box to the strikes `low` and `high`: the first and last legs take `low`,
    /// the middle legs `high`; nothing else changes.
    pub fn set_strikes(&mut self, low: u32, high: u32)
        ensures
            *final(self) == with_strikes(*old(self), low, high),
    {
        let l0 = BoxSpreadLeg { strike: low, ..self.legs[0] };
        let l1 = BoxSpreadLeg { strike: high, ..self.legs[1] };
        let l2 = BoxSpreadLeg { strike: high, ..self.legs[2] };
        let l3 = BoxSpreadLeg { strike: low, ..self.legs[3] };
        self.legs = [l0, l1, l2, l3];
        proof {
            let target = with_strikes(*old(self), low, high);
            assert(self.legs[0] == target.legs[0]);
            assert(self.legs[1] == target.legs[1]);
            assert(self.legs[2] == target.legs[2]);
            assert(self.legs[3] == target.legs[3]);
            assert(self.legs =~= target.legs);
        }
    }

    /// Whether the legs form a box.
    pub fn forms_box(&self) -> (b: bool)
        ensures
            b == is_box(*self),
    {
        self.legs[0].option_side == OptionSide::Call && self.legs[1].option_side == OptionSide::Call
            && self.legs[2].option_side == OptionSide::Put && self.legs[3].option_side
            == OptionSide::Put && self.legs[0].strike == self.legs[3].strike && self.legs[1].strike
            == self.legs[2].strike && self.legs[0].strike <= self.legs[1].strike
    }

    /// Whether `other` is placed like this box: same loan, date, strikes and rights.
    pub fn placed_like(&self, other: &BoxSpread) -> (b: bool)
        ensures
            b == same_placement(*self, *other),
    {
        let b = self.intended_loan == other.intended_loan && self.date == other.date
            && self.legs[0].strike == other.legs[0].strike && self.legs[0].option_side
            == other.legs[0].option_side && self.legs[1].strike == other.legs[1].strike
            && self.legs[1].option_side == other.legs[1].option_side && self.legs[2].strike
            == other.legs[2].strike && self.legs[2].option_side == other.legs[2].option_side
            && self.legs[3].strike == other.legs[3].strike && self.legs[3].option_side
            == other.legs[3].option_side;
        proof {
            if !b && self.intended_loan == other.intended_loan && self.date == other.date {
                if !(self.legs[0].strike == other.legs[0].strike && self.legs[0].option_side == other.legs[0].option_side) {
                    assert(!same_placement(*self, *other));
                } else if !(self.legs[1].strike == other.legs[1].strike && self.legs[1].option_side == other.legs[1].option_side) {
                    assert(!same_placement(*self, *other));
                } else if !(self.legs[2].strike == other.legs[2].strike && self.legs[2].option_side == other.legs[2].option_side) {
                    assert(!same_placement(*self, *other));
                } else {
                    assert(!same_placement(*self, *other));
                }
            }
        }
        b
    }

    /// Whether `chain` holds a complete quote for every leg.
    pub fn quotes_ready(&self, chain: &OptionChainParams) -> (ready: bool)
        ensures
            ready == forall|i: int| 0 <= i < 4 ==> chain_quote_complete(chain@, #[trigger] self.legs[i]),
    {
        let mut i: usize = 0;
        while i < 4
            invariant
                0 <= i <= 4,
                forall|j: int| 0 <= j < i ==> chain_quote_complete(chain@, #[trigger] self.legs[j]),
            decreases 4 - i,
        {
            let leg = self.legs[i];
            let ok = match chain.quotes.get(leg.strike / 100, leg.option_side) {
                Some(q) => q.complete(),
                None => false,
            };
            if !ok {
                assert(!chain_quote_complete(chain@, self.legs[i as int]));
                return false;
            }
            i = i + 1;
        }
        true
    }

    /// Gives every leg the quote that `chain` holds for it (none where it holds none).
    pub fn fill_quotes(&mut self, chain: &OptionChainParams)
        ensures
            *final(self) == filled_spread(*old(self), chain@),
            *final(self) == (BoxSpread { legs: final(self).legs, ..*old(self) }),
            forall|i: int|
                0 <= i < 4 ==> #[trigger] final(self).legs[i] == (BoxSpreadLeg {
                    quote: chain_quote(chain@, old(self).legs[i]),
                    ..old(self).legs[i]
                }),
    {
        let l0 = BoxSpreadLeg {
            quote: chain.quotes.get(self.legs[0].strike / 100, self.legs[0].option_side),
            ..self.legs[0]
        };
        let l1 = BoxSpreadLeg {
            quote: chain.quotes.get(self.legs[1].strike / 100, self.legs[1].option_side),
            ..self.legs[1]
        };
        let l2 = BoxSpreadLeg {
            quote: chain.quotes.get(self.legs[2].strike / 100, self.legs[2].option_side),
            ..self.legs[2]
        };
        let l3 = BoxSpreadLeg {
            quote: chain.quotes.get(self.legs[3].strike / 100, self.legs[3].option_side),
            ..self.legs[3]
        };
        self.legs = [l0, l1, l2, l3];
        proof {
            let t = filled_spread(*old(self), chain@);
            assert(self.legs[0] == t.legs[0]);
            assert(self.legs[1] == t.legs[1]);
            assert(self.legs[2] == t.legs[2]);
            assert(self.legs[3] == t.legs[3]);
            assert(self.legs =~= t.legs);
        }
    }
}

impl BoxSpread {
    /// Sets the best, mid and worst price of the box and the yearly rate of each for a
    /// loan that runs `days` days, where the box can be priced; otherwise nothing changes.
    pub fn calculate_box_pricing(&mut self, days: i64) -> (priced: bool)
        ensures
            priced == pricing_possible(*old(self), days),
            priced ==> *final(self) == priced_spread(*old(self), days),
            !priced ==> *final(self) == *old(self),
    {
        let p0 = self.legs[0].prices();
        let p1 = self.legs[1].prices();
        let p2 = self.legs[2].prices();
        let p3 = self.legs[3].prices();
        let ghost s = *self;
        match (p0, p1, p2, p3) {
            (Some((b0, a0)), Some((b1, a1)), Some((b2, a2)), Some((b3, a3))) => {
                let best: i64 = a0 as i64 - b1 as i64 + a2 as i64 - b3 as i64;
                let worst: i64 = b0 as i64 - a1 as i64 + b2 as i64 - a3 as i64;
                assert(best == box_best_price(s));
                assert(worst == box_worst_price(s));
                if days <= 0 || worst <= 0 || worst > best || best > 0xffff_ffffi64 {
                    return false;
                }
                let mid: i64 = (best + worst + 1) / 2;
                let payoff: i64 = self.legs[1].strike as i64 - self.legs[0].strike as i64;
                self.best_price = best as u32;
                self.mid_price = mid as u32;
                self.worst_price = worst as u32;
                self.best_rate_bps = rate_bps(payoff, best, days);
                self.mid_rate_bps = rate_bps(payoff, mid, days);
                self.worst_rate_bps = rate_bps(payoff, worst, days);
                true
            },
            _ => {
                proof {
                    if !leg_priced(s.legs[0]) {
                        assert(!leg_priced(s.legs[0]));
                    } else if !leg_priced(s.legs[1]) {
                        assert(!leg_priced(s.legs[1]));
                    } else if !leg_priced(s.legs[2]) {
                        assert(!leg_priced(s.legs[2]));
                    } else {
                        assert(!leg_priced(s.legs[3]));
                    }
                }
                false
            },
        }
    }
}

/// What to do next while waiting for the quotes of a candidate.
#[derive(Debug, Clone, Copy, PartialEq, Eq, Structural)]
pub enum PollAction {
    /// The quotes are not all in: wait a moment and poll again.
    Wait,
    /// The quotes did not come in time: cancel the requests and fail.
    TimeOut,
    /// The candidate is evaluated, with this liquidity: cancel the requests and return it.
    Finish(u32),
}

/// How long the quotes of a candidate may take, in nanoseconds: ten seconds.
pub const QUOTE_TIMEOUT_NS: u64 = 10_000_000_000;

/// Whether `chain` holds a complete quote for every leg of `s`.
pub open spec fn quotes_in(s: BoxSpread, chain: Option<&OptionChainParams>) -> bool {
    match chain {
        Some(c) => forall|i: int| 0 <= i < 4 ==> chain_quote_complete(c@, #[trigger] s.legs[i]),
        None => false,
    }
}

impl BoxSpread {
    /// One poll while waiting for the candidate's quotes, `elapsed_ns` nanoseconds after the
    /// wait started, with the chain as the market data holds it now (none if it holds none).
    /// Past the timeout the wait fails; otherwise, once the chain holds a complete quote for
    /// every leg, the candidate settles and the wait ends with its liquidity; until then it
    /// goes on. Only a finished poll changes the box.
    pub fn poll_quotes(&mut self, chain: Option<&OptionChainParams>, elapsed_ns: u64) -> (action: PollAction)
        requires
            chain matches Some(c) ==> forall|i: int|
                0 <= i < 4 ==> prices_fit(#[trigger] filled_spread(*old(self), c@).legs[i]),
        ensures
            elapsed_ns > QUOTE_TIMEOUT_NS ==> action == PollAction::TimeOut && *final(self) == *old(self),
            elapsed_ns <= QUOTE_TIMEOUT_NS && !quotes_in(*old(self), chain)
                ==> action == PollAction::Wait && *final(self) == *old(self),
            elapsed_ns <= QUOTE_TIMEOUT_NS && quotes_in(*old(self), chain)
                ==> *final(self) == with_delta(scored_spread(filled_spread(*old(self), chain->0@)))
                && action == PollAction::Finish(final(self).liquidity),
    {
        if elapsed_ns > QUOTE_TIMEOUT_NS {
            return PollAction::TimeOut;
        }
        match chain {
            Some(c) => {
                if self.quotes_ready(c) {
                    let done = self.settle_quotes(c);
                    assert(done);
                    PollAction::Finish(self.liquidity)
                } else {
                    PollAction::Wait
                }
            },
            None => PollAction::Wait,
        }
    }
}

/// The four quotes that a box between `low` and `high` (in cents) needs, by strike in
/// dollars and right: low call, low put, high call, high put.
pub fn leg_quote_requests(low: u32, high: u32) -> (reqs: [(u32, OptionSide); 4])
    ensures
        reqs@ == seq![
            (low / 100, OptionSide::Call),
            (low / 100, OptionSide::Put),
            (high / 100, OptionSide::Call),
            (high / 100, OptionSide::Put),
        ],
{
    let reqs = [
        (low / 100, OptionSide::Call),
        (low / 100, OptionSide::Put),
        (high / 100, OptionSide::Call),
        (high / 100, OptionSide::Put),
    ];
    assert(reqs@ =~= seq![
        (low / 100, OptionSide::Call),
        (low / 100, OptionSide::Put),
        (high / 100, OptionSide::Call),
        (high / 100, OptionSide::Put),
    ]);
    reqs
}

} // verus!

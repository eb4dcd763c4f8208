//! Properties of the scanner that span its functions.
use vstd::prelude::*;
use crate::boxspread::{
    chosen_high_strike, chosen_low_strike, high_round, high_target_points, liquidity_score,
    low_round, low_target_points, nearest_strike_spec, round_to_nearest_spec, strike_distance,
    width_points, BoxSpreadLeg,
};
use crate::data::{message_effect, tick_price_kind, DecimalField};
use crate::decimal::{i32_from_text, u32_from_text};
use crate::market::{DataView, OptionQuote};
use crate::requests::PendingView;
use crate::search::{best_of, in_frame, BoxSearch};
use crate::boxspread::{
    chain_quote, chain_quote_complete, filled_spread, leg_complete, scored_spread, spread_complete,
    with_delta, box_width, is_box, BoxSpread,
};
use crate::market::ChainView;
use vstd::string::StringSliceAdditionalSpecFns;
use vstd::utf8::valid_utf8;
use crate::decimal::{all_digits, decimal_text, is_digit, lemma_decimal_text_digits};
use crate::message::{
    all_valid_utf8, encode_fields, law_nonempty_fields_read_back, message_fields, zero_free,
    IBMessage,
};

verus! {

/// A leg's liquidity score is at most 10,000 × 10,000: the spread score and the size score
/// are each at most 10,000.
pub proof fn law_liquidity_score_bounded(leg: BoxSpreadLeg)
    ensures
        liquidity_score(leg) <= 100_000_000,
{
    if crate::boxspread::is_scored(leg) {
        let q = leg.quote->0;
        let b: int = q.bid->0 as int;
        let a: int = q.ask->0 as int;
        let total: int = q.bid_size + q.ask_size;
        let rel: int = crate::boxspread::relative_spread_bps(b, a);
        assert(rel >= 0) by (nonlinear_arith)
            requires
                rel == (a - b) * 10000 / ((b + a) / 2),
                a >= b,
                b >= 0,
                (b + a) / 2 > 0,
        ;
        let spread_score: int = 10000int / (rel + 1);
        assert(0 <= spread_score <= 10000) by (nonlinear_arith)
            requires
                spread_score == 10000int / (rel + 1),
                rel >= 0,
        ;
        let size_score: int = if total < 10000 {
            total as int
        } else {
            10000
        };
        assert(spread_score * size_score <= 100_000_000) by (nonlinear_arith)
            requires
                0 <= spread_score <= 10000,
                0 <= size_score <= 10000,
        ;
    }
}

/// The best box of a search is at least as liquid as the first candidate and as every
/// candidate evaluated, and it is one of them.
pub proof fn law_best_is_most_liquid(initial: BoxSpread, spreads: Seq<BoxSpread>)
    ensures
        best_of(initial, spreads).liquidity >= initial.liquidity,
        forall|i: int| 0 <= i < spreads.len() ==> best_of(initial, spreads).liquidity >= (
        #[trigger] spreads[i]).liquidity,
        best_of(initial, spreads) == initial || spreads.contains(best_of(initial, spreads)),
    decreases spreads.len(),
{
    if spreads.len() > 0 {
        let rest = spreads.drop_last();
        law_best_is_most_liquid(initial, rest);
        assert forall|i: int| 0 <= i < spreads.len() implies best_of(initial, spreads).liquidity >= (
        #[trigger] spreads[i]).liquidity by {
            if i < spreads.len() - 1 {
                assert(spreads[i] == rest[i]);
            }
        }
        if best_of(initial, spreads) != initial {
            if best_of(initial, spreads) == spreads.last() {
                assert(spreads[spreads.len() - 1] == spreads.last());
            } else {
                let j: int = choose|j: int| 0 <= j < rest.len() && rest[j] == best_of(initial, rest);
                assert(spreads[j] == rest[j]);
            }
        }
    }
}

/// The best box of a search state is the most liquid box it has seen.
pub proof fn law_search_best_is_most_liquid(s: BoxSearch)
    requires
        s.wf(),
    ensures
        s.best().liquidity >= s.initial().liquidity,
        forall|i: int| 0 <= i < s.evaluated().len() ==> s.best().liquidity >= (
        #[trigger] s.evaluated()[i]).liquidity,
{
    s.lemma_wf();
    law_best_is_most_liquid(s.initial(), s.evaluated());
}

/// Every box a search deals with is a box of the first candidate's loan, date and strike
/// width: the best box and every candidate evaluated.
pub proof fn law_search_keeps_frame(s: BoxSearch)
    requires
        s.wf(),
    ensures
        is_box(s.best()),
        s.best().intended_loan == s.initial().intended_loan,
        s.best().date == s.initial().date,
        box_width(s.best()) == box_width(s.initial()),
        forall|i: int|
            0 <= i < s.evaluated().len() ==> {
                &&& is_box(#[trigger] s.evaluated()[i])
                &&& s.evaluated()[i].intended_loan == s.initial().intended_loan
                &&& s.evaluated()[i].date == s.initial().date
                &&& box_width(s.evaluated()[i]) == box_width(s.initial())
            },
{
    s.lemma_wf();
    assert forall|i: int| 0 <= i < s.evaluated().len() implies {
        &&& is_box(#[trigger] s.evaluated()[i])
        &&& s.evaluated()[i].intended_loan == s.initial().intended_loan
        &&& s.evaluated()[i].date == s.initial().date
        &&& box_width(s.evaluated()[i]) == box_width(s.initial())
    } by {
        assert(in_frame(s.evaluated()[i], s.initial()));
    }
}

/// A bid tick of a positive price for an awaited quote request, whose chain is known,
/// records that price and size as the bid of the requested option in that chain.
pub proof fn law_bid_tick_reaches_awaited_quote(
    fs: Seq<&str>,
    dec: Seq<Option<DecimalField>>,
    d: DataView,
    awaited: Map<u32, PendingView>,
    id: u32,
    price: DecimalField,
    size: u64,
)
    requires
        fs.len() >= 6,
        dec.len() == fs.len(),
        fs[0].spec_bytes() == tick_price_kind(),
        u32_from_text(fs[2].spec_bytes()) == Some(id),
        i32_from_text(fs[3].spec_bytes()) == Some(1i32),
        dec[4] == Some(price),
        price.positive,
        crate::decimal::u64_from_text(fs[5].spec_bytes()) == Some(size),
        awaited.contains_key(id),
        d.chains.contains_key((awaited[id].exchange, awaited[id].trading_class)),
    ensures
        ({
            let (res, d2) = message_effect(fs, dec, d, awaited);
            let p = awaited[id];
            let q = d2.chains[(p.exchange, p.trading_class)].quotes[(p.strike, p.right)];
            &&& res is Ok
            &&& q.bid == Some(price.cents)
            &&& q.bid_size == size
        }),
{
}

/// A bid tick (type 1, or 66 for delayed data) of a positive price for an awaited quote
/// request, whose chain is known, records that price and size as the bid of the requested
/// option in that chain.
pub proof fn law_any_bid_tick_reaches_awaited_quote(
    fs: Seq<&str>,
    dec: Seq<Option<DecimalField>>,
    d: DataView,
    awaited: Map<u32, PendingView>,
    id: u32,
    tick: i32,
    price: DecimalField,
    size: u64,
)
    requires
        tick == 1 || tick == 66,
        fs.len() >= 6,
        dec.len() == fs.len(),
        fs[0].spec_bytes() == tick_price_kind(),
        u32_from_text(fs[2].spec_bytes()) == Some(id),
        i32_from_text(fs[3].spec_bytes()) == Some(tick),
        dec[4] == Some(price),
        price.positive,
        crate::decimal::u64_from_text(fs[5].spec_bytes()) == Some(size),
        awaited.contains_key(id),
        d.chains.contains_key((awaited[id].exchange, awaited[id].trading_class)),
    ensures
        ({
            let (res, d2) = message_effect(fs, dec, d, awaited);
            let p = awaited[id];
            let q = d2.chains[(p.exchange, p.trading_class)].quotes[(p.strike, p.right)];
            &&& res is Ok
            &&& q.bid == Some(price.cents)
            &&& q.bid_size == size
        }),
{
}

/// A spot price tick (type 75) of a positive price for a request that is not awaited sets
/// the spot price and changes nothing else.
pub proof fn law_spot_tick_sets_spot_price(
    fs: Seq<&str>,
    dec: Seq<Option<DecimalField>>,
    d: DataView,
    awaited: Map<u32, PendingView>,
    id: u32,
    price: DecimalField,
)
    requires
        fs.len() >= 5,
        dec.len() == fs.len(),
        fs[0].spec_bytes() == tick_price_kind(),
        u32_from_text(fs[2].spec_bytes()) == Some(id),
        i32_from_text(fs[3].spec_bytes()) == Some(75i32),
        dec[4] == Some(price),
        price.positive,
        !awaited.contains_key(id),
    ensures
        message_effect(fs, dec, d, awaited) == (
            Ok::<(), crate::data::DataError>(()),
            DataView { spot_price: Some(price.cents), ..d },
        ),
{
}

/// Recording a quote and then reading it gives the recorded quote.
pub proof fn law_quote_read_back(
    m: Map<(u32, crate::message::OptionSide), OptionQuote>,
    strike: u32,
    side: crate::message::OptionSide,
    q: OptionQuote,
)
    ensures
        m.insert((strike, side), q).contains_key((strike, side)),
        m.insert((strike, side), q)[(strike, side)] == q,
{
}

/// The strike that `nearest_strike_spec` picks is the first strike at the smallest distance
/// from the target: there is one exactly when there is a strike, it is one of the strikes,
/// none is nearer, and every strike before it is farther.
pub proof fn lemma_nearest_is_nearest(s: Seq<u32>, t: int)
    ensures
        s.len() > 0 <==> nearest_strike_spec(s, t) is Some,
        nearest_strike_spec(s, t) matches Some(b) ==> s.contains(b) && forall|i: int|
            0 <= i < s.len() ==> strike_distance(b, t) <= strike_distance(#[trigger] s[i], t),
        nearest_strike_spec(s, t) matches Some(b) ==> exists|k: int|
            0 <= k < s.len() && #[trigger] s[k] == b && forall|i: int|
                0 <= i < k ==> strike_distance(b, t) < strike_distance(#[trigger] s[i], t),
    decreases s.len(),
{
    if s.len() > 0 {
        let rest = s.drop_last();
        lemma_nearest_is_nearest(rest, t);
        let b: u32 = nearest_strike_spec(s, t)->0;
        assert forall|i: int| 0 <= i < s.len() implies strike_distance(b, t) <= strike_distance(
            #[trigger] s[i],
            t,
        ) by {
            if i < s.len() - 1 {
                assert(s[i] == rest[i]);
            }
        }
        if nearest_strike_spec(rest, t) is Some && b == nearest_strike_spec(rest, t)->0 {
            let k: int = choose|k: int|
                0 <= k < rest.len() && #[trigger] rest[k] == b && forall|i: int|
                    0 <= i < k ==> strike_distance(b, t) < strike_distance(#[trigger] rest[i], t);
            assert(s[k] == b);
            assert forall|i: int| 0 <= i < k implies strike_distance(b, t) < strike_distance(
                #[trigger] s[i],
                t,
            ) by {
                assert(s[i] == rest[i]);
            }
        } else {
            let k: int = s.len() - 1;
            assert(s[k] == b);
            assert forall|i: int| 0 <= i < k implies strike_distance(b, t) < strike_distance(
                #[trigger] s[i],
                t,
            ) by {
                assert(s[i] == rest[i]);
            }
        }
    }
}

proof fn lemma_nearest_monotone(s: Seq<u32>, t1: int, t2: int)
    requires
        s.len() > 0,
        t1 <= t2,
    ensures
        nearest_strike_spec(s, t1)->0 <= nearest_strike_spec(s, t2)->0,
    decreases s.len(),
{
    if s.len() > 1 {
        let rest = s.drop_last();
        lemma_nearest_monotone(rest, t1, t2);
        lemma_nearest_is_nearest(rest, t1);
        lemma_nearest_is_nearest(rest, t2);
        let b1: u32 = nearest_strike_spec(rest, t1)->0;
        let b2: u32 = nearest_strike_spec(rest, t2)->0;
        let j1: int = choose|j: int| 0 <= j < rest.len() && rest[j] == b1;
        let j2: int = choose|j: int| 0 <= j < rest.len() && rest[j] == b2;
        assert(strike_distance(b1, t1) <= strike_distance(rest[j2], t1));
        assert(strike_distance(b2, t2) <= strike_distance(rest[j1], t2));
        let x: u32 = s.last();
        let n1: u32 = nearest_strike_spec(s, t1)->0;
        let n2: u32 = nearest_strike_spec(s, t2)->0;
        assert(n1 == (if strike_distance(x, t1) < strike_distance(b1, t1) { x } else { b1 }));
        assert(n2 == (if strike_distance(x, t2) < strike_distance(b2, t2) { x } else { b2 }));
    } else {
        assert(nearest_strike_spec(s.drop_last(), t1) is None);
        assert(nearest_strike_spec(s.drop_last(), t2) is None);
    }
}

proof fn lemma_round_monotone(v1: int, v2: int, g: int)
    requires
        0 <= v1 <= v2,
        g >= 0,
    ensures
        round_to_nearest_spec(v1, g) <= round_to_nearest_spec(v2, g),
{
    if g > 0 {
        vstd::arithmetic::div_mod::lemma_div_is_ordered(v1 + g / 2, v2 + g / 2, g);
        vstd::arithmetic::mul::lemma_mul_inequality((v1 + g / 2) / g, (v2 + g / 2) / g, g);
    }
}

/// A box never puts its low strike above its high strike: the strike nearest to the
/// lower target is never above the strike nearest to the higher one.
pub proof fn law_box_low_strike_not_above_high(loan: u32, spot_price: u32, strikes: Seq<u32>)
    requires
        strikes.len() > 0,
    ensures
        chosen_low_strike(loan, spot_price, strikes) is Some,
        chosen_high_strike(loan, spot_price, strikes) is Some,
        chosen_low_strike(loan, spot_price, strikes)->0 <= chosen_high_strike(loan, spot_price, strikes)->0,
{
    assert(low_target_points(loan, spot_price) <= high_target_points(loan, spot_price));
    lemma_round_monotone(
        low_target_points(loan, spot_price),
        high_target_points(loan, spot_price),
        width_points(loan),
    );
    assert(low_round(loan, spot_price) * 10000 <= high_round(loan, spot_price) * 10000);
    lemma_nearest_is_nearest(strikes, low_round(loan, spot_price) * 10000);
    lemma_nearest_is_nearest(strikes, high_round(loan, spot_price) * 10000);
    lemma_nearest_monotone(strikes, low_round(loan, spot_price) * 10000, high_round(loan, spot_price) * 10000);
}

/// The search walks outward in decreasing steps: each step size is smaller than the one
/// before it.
pub proof fn law_step_sizes_decrease(i: int)
    requires
        0 < i < crate::search::step_count(),
    ensures
        crate::search::step_size_spec(i) < crate::search::step_size_spec(i - 1),
{
}

/// A request's bytes read back as its wire fields (the number of its kind, its version
/// if it has one, then its other fields in order), provided no field is empty or holds a
/// zero byte; and those wire fields are all valid text exactly when its own fields are.
pub proof fn law_message_read_back(m: IBMessage)
    requires
        zero_free(m.fields()),
        forall|i: int| 0 <= i < m.fields().len() ==> (#[trigger] m.fields()[i]).len() > 0,
    ensures
        message_fields(encode_fields(m.wire_fields())) == m.wire_fields(),
        all_valid_utf8(m.wire_fields()) <==> all_valid_utf8(m.fields()),
{
    let id_text = decimal_text(m.kind().wire_id() as nat);
    lemma_decimal_text_digits(m.kind().wire_id() as nat);
    let head: Seq<Seq<u8>> = match m.version() {
        Some(v) => {
            lemma_decimal_text_digits(v as nat);
            seq![id_text, decimal_text(v as nat)]
        },
        None => seq![id_text],
    };
    let wf = m.wire_fields();
    assert(wf =~= head + m.fields());
    assert forall|i: int| 0 <= i < head.len() implies {
        &&& (#[trigger] head[i]).len() > 0
        &&& all_digits(head[i])
        &&& valid_utf8(head[i])
    } by {}
    assert forall|i: int| 0 <= i < wf.len() implies (#[trigger] wf[i]).len() > 0 by {
        if i >= head.len() {
            assert(wf[i] == m.fields()[i - head.len()]);
        }
    }
    assert forall|i: int, j: int| 0 <= i < wf.len() && 0 <= j < wf[i].len() implies #[trigger] wf[i][j]
        != 0u8 by {
        if i < head.len() {
            assert(is_digit(head[i][j]));
        } else {
            assert(wf[i] == m.fields()[i - head.len()]);
        }
    }
    law_nonempty_fields_read_back(wf);
    if all_valid_utf8(m.fields()) {
        assert forall|i: int| 0 <= i < wf.len() implies valid_utf8(#[trigger] wf[i]) by {
            if i >= head.len() {
                assert(wf[i] == m.fields()[i - head.len()]);
            }
        }
    }
    if all_valid_utf8(wf) {
        assert forall|i: int| 0 <= i < m.fields().len() implies valid_utf8(#[trigger] m.fields()[i]) by {
            assert(wf[i + head.len()] == m.fields()[i]);
        }
    }
}

/// Once the chain holds a complete quote for every leg of a candidate, settling its quotes
/// finishes it, whatever deltas the quotes report: the evaluation of a ready candidate ends.
pub proof fn law_ready_candidate_settles(s: BoxSpread, chain: ChainView)
    requires
        forall|i: int| 0 <= i < 4 ==> chain_quote_complete(chain, #[trigger] s.legs[i]),
    ensures
        spread_complete(with_delta(scored_spread(filled_spread(s, chain)))),
{
    let f = filled_spread(s, chain);
    let t = with_delta(scored_spread(f));
    assert forall|i: int| 0 <= i < 4 implies leg_complete(#[trigger] t.legs[i]) by {
        assert(chain_quote_complete(chain, s.legs[i]));
        assert(f.legs[i].quote == chain_quote(chain, s.legs[i]));
        assert(t.legs[i].quote == f.legs[i].quote);
    }
}

/// The search moves the box by these steps, in cents and in this order: 1000, 500, 250,
/// 100, 50 and 10 dollars; round `i` moves the best box down and up by the `i`-th of them.
pub proof fn law_step_sizes_are_the_dollar_steps(i: int)
    requires
        0 <= i < 6,
    ensures
        crate::search::step_count() == 6,
        crate::search::step_size_spec(i) == seq![100000u32, 50000u32, 25000u32, 10000u32, 5000u32, 1000u32][i],
{
}

/// A scored leg's liquidity score is its spread score times its size score: 10,000 over
/// one more than the gap between ask and bid in basis points of their (truncated) mean,
/// times the total of bid and ask size capped at 10,000. A leg that cannot be scored
/// scores 0.
pub proof fn law_liquidity_score_formula(leg: BoxSpreadLeg)
    ensures
        !crate::boxspread::is_scored(leg) ==> liquidity_score(leg) == 0,
        crate::boxspread::is_scored(leg) ==> ({
            let q = leg.quote->0;
            let b: int = q.bid->0 as int;
            let a: int = q.ask->0 as int;
            let total: int = q.bid_size as int + q.ask_size as int;
            liquidity_score(leg) as int == (10000int / ((a - b) * 10000 / ((b + a) / 2) + 1)) * (
            if total <= 10000 {
                total
            } else {
                10000int
            })
        }),
{
    if crate::boxspread::is_scored(leg) {
        let q = leg.quote->0;
        let b: int = q.bid->0 as int;
        let a: int = q.ask->0 as int;
        let total: int = q.bid_size as int + q.ask_size as int;
        let rel: int = (a - b) * 10000 / ((b + a) / 2);
        assert(rel >= 0) by (nonlinear_arith)
            requires
                rel == (a - b) * 10000 / ((b + a) / 2),
                a >= b,
                b >= 0,
                (b + a) / 2 > 0,
        ;
        let spread_score: int = 10000int / (rel + 1);
        assert(0 <= spread_score <= 10000) by (nonlinear_arith)
            requires
                spread_score == 10000int / (rel + 1),
                rel >= 0,
        ;
        let size_score: int = if total <= 10000 {
            total
        } else {
            10000int
        };
        assert(spread_score * size_score <= 100_000_000) by (nonlinear_arith)
            requires
                0 <= spread_score <= 10000,
                0 <= size_score <= 10000,
        ;
        assert(0 <= spread_score * size_score) by (nonlinear_arith)
            requires
                0 <= spread_score,
                0 <= size_score,
        ;
    }
}

/// The liquidity of a box is the smallest score of its four legs: no larger than any
/// leg's score, and equal to one of them.
pub proof fn law_box_liquidity_is_smallest_leg_score(s: BoxSpread)
    ensures
        forall|i: int| 0 <= i < 4 ==> scored_spread(s).liquidity <= liquidity_score(#[trigger] s.legs[i]),
        exists|i: int| 0 <= i < 4 && scored_spread(s).liquidity == liquidity_score(#[trigger] s.legs[i]),
{
    let l = scored_spread(s).liquidity;
    assert(l <= liquidity_score(s.legs[0]) && l <= liquidity_score(s.legs[1]) && l <= liquidity_score(
        s.legs[2],
    ) && l <= liquidity_score(s.legs[3]));
    if l == liquidity_score(s.legs[0]) {
        assert(l == liquidity_score(s.legs[0]));
    } else if l == liquidity_score(s.legs[1]) {
        assert(l == liquidity_score(s.legs[1]));
    } else if l == liquidity_score(s.legs[2]) {
        assert(l == liquidity_score(s.legs[2]));
    } else {
        assert(l == liquidity_score(s.legs[3]));
    }
}

/// The first box is sought around the spot price in points (`spot_price / 100`): the low
/// target is at most the spot and the high target at least the spot; where neither bound
/// of `u32` is reached they lie half the box width (`loan / 10000 / 2` points) below and
/// above it, so they are equally far from the spot and a whole width apart, less one point
/// for an odd width; where the half width exceeds the spot the low target is 0.
pub proof fn law_placement_targets_straddle_spot(loan: u32, spot_price: u32)
    ensures
        low_target_points(loan, spot_price) <= (spot_price / 100) as int <= high_target_points(loan, spot_price),
        ({
            let spot: int = (spot_price / 100) as int;
            let width: int = (loan / 10000) as int;
            &&& (width / 2 <= spot && spot + width / 2 <= u32::MAX) ==> {
                &&& spot - low_target_points(loan, spot_price) == width / 2
                &&& high_target_points(loan, spot_price) - spot == width / 2
                &&& high_target_points(loan, spot_price) - low_target_points(loan, spot_price) == width
                    - width % 2
            }
            &&& spot < width / 2 ==> low_target_points(loan, spot_price) == 0
            &&& spot + width / 2 > u32::MAX ==> high_target_points(loan, spot_price) == u32::MAX
        }),
{
}

/// An ask tick (type 2, or 67 for delayed data) of a positive price for an awaited quote
/// request, whose chain is known, records that price and size as the ask of the requested
/// option in that chain.
pub proof fn law_ask_tick_reaches_awaited_quote(
    fs: Seq<&str>,
    dec: Seq<Option<DecimalField>>,
    d: DataView,
    awaited: Map<u32, PendingView>,
    id: u32,
    tick: i32,
    price: DecimalField,
    size: u64,
)
    requires
        tick == 2 || tick == 67,
        fs.len() >= 6,
        dec.len() == fs.len(),
        fs[0].spec_bytes() == tick_price_kind(),
        u32_from_text(fs[2].spec_bytes()) == Some(id),
        i32_from_text(fs[3].spec_bytes()) == Some(tick),
        dec[4] == Some(price),
        price.positive,
        crate::decimal::u64_from_text(fs[5].spec_bytes()) == Some(size),
        awaited.contains_key(id),
        d.chains.contains_key((awaited[id].exchange, awaited[id].trading_class)),
    ensures
        ({
            let (res, d2) = message_effect(fs, dec, d, awaited);
            let p = awaited[id];
            let q = d2.chains[(p.exchange, p.trading_class)].quotes[(p.strike, p.right)];
            &&& res is Ok
            &&& q.ask == Some(price.cents)
            &&& q.ask_size == size
        }),
{
}

/// Rounding to a positive granularity gives a multiple of it, and the value lies in the
/// half-open interval of one granularity around it that takes halves upward: the result
/// is the nearest multiple, the upper one on a tie.
pub proof fn law_round_to_nearest(v: int, g: int)
    requires
        0 <= v,
        0 < g,
    ensures
        round_to_nearest_spec(v, g) % g == 0,
        round_to_nearest_spec(v, g) >= 0,
        round_to_nearest_spec(v, g) - g / 2 <= v < round_to_nearest_spec(v, g) + (g - g / 2),
{
    let h = g / 2;
    let k = (v + h) / g;
    let m = (v + h) % g;
    vstd::arithmetic::div_mod::lemma_fundamental_div_mod(v + h, g);
    vstd::arithmetic::div_mod::lemma_mod_multiples_basic(k, g);
    assert(k >= 0) by {
        vstd::arithmetic::div_mod::lemma_div_pos_is_pos(v + h, g);
    }
    assert(k * g >= 0) by (nonlinear_arith)
        requires
            k >= 0,
            g > 0,
    ;
    assert(round_to_nearest_spec(v, g) == k * g);
    assert(v + h == g * k + m);
    assert(g * k == k * g) by (nonlinear_arith);
}

} // verus!

//! What the API server answers, computed from the market data: the chains by
//! `exchange,trading_class`, their expirations with the days left, and the first
//! candidate box of a request.
use vstd::prelude::*;
use vstd::string::StringExecFns;
use crate::boxspread::{
    box_legs, is_box, chosen_high_strike, chosen_low_strike, high_round, high_target_points, low_round,
    low_target_points, placement_fits, BoxSpread,
};
use crate::dates::{day_number, ExpiryDate};
use crate::market::{ChainEntry, IBData, OptionChainParams, QuoteBook};

verus! {

/// The key text of a chain: its exchange, a comma, its trading class.
pub open spec fn chain_key_text(exchange: Seq<char>, trading_class: Seq<char>) -> Seq<char> {
    exchange + seq![','] + trading_class
}

fn key_text(exchange: &String, trading_class: &String) -> (k: String)
    ensures
        k@ == chain_key_text(exchange@, trading_class@),
{
    let comma = ",";
    proof {
        reveal_strlit(",");
    }
    let mut k = exchange.clone();
    k.append(comma);
    k.append(trading_class.as_str());
    assert(k@ =~= chain_key_text(exchange@, trading_class@));
    k
}

/// A copy of the parameters of a chain.
pub fn copy_params(p: &OptionChainParams) -> (c: OptionChainParams)
    ensures
        c@ == p@,
{
    let mut expirations: Vec<ExpiryDate> = Vec::new();
    let mut i: usize = 0;
    while i < p.expirations.len()
        invariant
            0 <= i <= p.expirations@.len(),
            expirations@ == p.expirations@.take(i as int),
        decreases p.expirations@.len() - i,
    {
        expirations.push(p.expirations[i]);
        i = i + 1;
        assert(expirations@ =~= p.expirations@.take(i as int));
    }
    assert(p.expirations@.take(i as int) =~= p.expirations@);
    let mut strikes: Vec<u32> = Vec::new();
    let mut j: usize = 0;
    while j < p.strikes.len()
        invariant
            0 <= j <= p.strikes@.len(),
            strikes@ == p.strikes@.take(j as int),
        decreases p.strikes@.len() - j,
    {
        strikes.push(p.strikes[j]);
        j = j + 1;
        assert(strikes@ =~= p.strikes@.take(j as int));
    }
    assert(p.strikes@.take(j as int) =~= p.strikes@);
    let mut quotes = QuoteBook::new();
    let es = p.quotes.entries();
    let mut k: usize = 0;
    assert(es@.take(0) =~= Seq::<crate::market::QuoteEntry>::empty());
    while k < es.len()
        invariant
            0 <= k <= es@.len(),
            quotes@ == crate::keyed::keyed_map(
                es@.take(k as int),
                crate::market::quote_key_fn(),
                crate::market::quote_value_fn(),
            ),
        decreases es@.len() - k,
    {
        let e = es[k];
        proof {
            assert(es@.take(k + 1) =~= es@.take(k as int).push(e));
            crate::keyed::lemma_keyed_map_push(
                es@.take(k as int),
                crate::market::quote_key_fn(),
                crate::market::quote_value_fn(),
                e,
            );
        }
        quotes.set(e.strike, e.side, e.quote);
        k = k + 1;
    }
    assert(es@.take(k as int) =~= es@);
    let c = OptionChainParams {
        underlying_con_id: p.underlying_con_id,
        multiplier: p.multiplier,
        expirations,
        strikes,
        quotes,
    };
    assert(c@ =~= p@);
    c
}

/// Every chain under its key text `exchange,trading_class`, one entry per chain of the book.
pub fn chain_listing(data: &IBData) -> (listing: Vec<(String, OptionChainParams)>)
    ensures
        exists|es: Seq<ChainEntry>|
            {
                &&& crate::keyed::keyed_map(es, crate::market::chain_key_fn(), crate::market::chain_value_fn())
                    == data.spx_options_chains@
                &&& crate::market::keys_distinct(es)
                &&& listing@.len() == es.len()
                &&& forall|i: int|
                    0 <= i < es.len() ==> (#[trigger] listing@[i]).0@ == chain_key_text(
                        es[i].exchange@,
                        es[i].trading_class@,
                    ) && listing@[i].1@ == es[i].params@
            },
{
    let es = data.spx_options_chains.entries();
    let mut out: Vec<(String, OptionChainParams)> = Vec::new();
    let mut i: usize = 0;
    while i < es.len()
        invariant
            0 <= i <= es@.len(),
            out@.len() == i,
            forall|j: int|
                0 <= j < i ==> (#[trigger] out@[j]).0@ == chain_key_text(
                    es@[j].exchange@,
                    es@[j].trading_class@,
                ) && out@[j].1@ == es@[j].params@,
        decreases es@.len() - i,
    {
        let e = &es[i];
        let k = key_text(&e.exchange, &e.trading_class);
        let p = copy_params(&e.params);
        out.push((k, p));
        i = i + 1;
    }
    out
}

/// The expirations of a chain, each with the days from `today` to it.
pub open spec fn dated_expirations(expirations: Seq<ExpiryDate>, today: ExpiryDate) -> Seq<(ExpiryDate, i64)> {
    Seq::new(
        expirations.len(),
        |i: int|
            (
                expirations[i],
                (day_number(expirations[i].y(), expirations[i].m(), expirations[i].d()) - day_number(
                    today.y(),
                    today.m(),
                    today.d(),
                )) as i64,
            ),
    )
}

/// Every chain under its key text, one entry per chain of the book, with its expirations
/// and the days from `today` to each.
pub fn available_dates(data: &IBData, today: &ExpiryDate) -> (listing: Vec<(String, Vec<(ExpiryDate, i64)>)>)
    ensures
        exists|es: Seq<ChainEntry>|
            {
                &&& crate::keyed::keyed_map(es, crate::market::chain_key_fn(), crate::market::chain_value_fn())
                    == data.spx_options_chains@
                &&& crate::market::keys_distinct(es)
                &&& listing@.len() == es.len()
                &&& forall|i: int|
                    0 <= i < es.len() ==> (#[trigger] listing@[i]).0@ == chain_key_text(
                        es[i].exchange@,
                        es[i].trading_class@,
                    ) && listing@[i].1@ == dated_expirations(es[i].params.expirations@, *today)
            },
{
    let es = data.spx_options_chains.entries();
    let mut out: Vec<(String, Vec<(ExpiryDate, i64)>)> = Vec::new();
    let mut i: usize = 0;
    while i < es.len()
        invariant
            0 <= i <= es@.len(),
            out@.len() == i,
            forall|j: int|
                0 <= j < i ==> (#[trigger] out@[j]).0@ == chain_key_text(
                    es@[j].exchange@,
                    es@[j].trading_class@,
                ) && out@[j].1@ == dated_expirations(es@[j].params.expirations@, *today),
        decreases es@.len() - i,
    {
        let e = &es[i];
        let k = key_text(&e.exchange, &e.trading_class);
        let mut dates: Vec<(ExpiryDate, i64)> = Vec::new();
        let mut j: usize = 0;
        while j < e.params.expirations.len()
            invariant
                0 <= j <= e.params.expirations@.len(),
                dates@ == dated_expirations(e.params.expirations@, *today).take(j as int),
            decreases e.params.expirations@.len() - j,
        {
            let ex = e.params.expirations[j];
            let days = today.days_until(&ex);
            dates.push((ex, days));
            j = j + 1;
            assert(dates@ =~= dated_expirations(e.params.expirations@, *today).take(j as int));
        }
        assert(dates@ =~= dated_expirations(e.params.expirations@, *today));
        out.push((k, dates));
        i = i + 1;
    }
    out
}

/// Why no box can be placed for a request.
#[derive(Debug, Clone, Copy, PartialEq, Eq, Structural)]
pub enum BoxRequestError {
    /// The spot price of the index is not known yet.
    NoSpotPrice,
    /// There is no chain for the exchange and trading class.
    NoChain,
    /// No strike was found for one side of the box.
    NoStrikes,
    /// Placing the box would leave the range of `u32`.
    PlacementOverflow,
}

/// Whether a box for `loan` and `spot_price` finds a low and a high strike, neither zero.
pub open spec fn strikes_found(loan: u32, spot_price: u32, strikes: Seq<u32>) -> bool {
    match (chosen_low_strike(loan, spot_price, strikes), chosen_high_strike(loan, spot_price, strikes)) {
        (Some(lo), Some(hi)) => lo != 0 && hi != 0,
        _ => false,
    }
}

/// Whether placing a box for `loan` and `spot_price` stays within `u32` arithmetic.
pub fn placement_fits_exec(loan: u32, spot_price: u32, strikes: &[u32]) -> (fits: bool)
    ensures
        fits == placement_fits(loan, spot_price, strikes@),
{
    let width: u64 = (loan / 10000) as u64;
    let half: u64 = width / 2;
    let spot: u64 = (spot_price / 100) as u64;
    let low: u64 = if spot >= half {
        spot - half
    } else {
        0
    };
    let high: u64 = if spot + half <= 0xffff_ffff {
        spot + half
    } else {
        0xffff_ffff
    };
    if width != 0 && (low + half > 0xffff_ffff || high + half > 0xffff_ffff) {
        return false;
    }
    assert(low == low_target_points(loan, spot_price));
    assert(high == high_target_points(loan, spot_price));
    proof {
        if width != 0 {
            let w: int = width as int;
            let l: int = low as int;
            let h: int = high as int;
            assert(((l + w / 2) / w) * w <= l + w / 2) by (nonlinear_arith)
                requires
                    w > 0,
                    l >= 0,
            ;
            assert(((h + w / 2) / w) * w <= h + w / 2) by (nonlinear_arith)
                requires
                    w > 0,
                    h >= 0,
            ;
        }
    }
    let low_r: u64 = if width == 0 {
        low
    } else {
        ((low + width / 2) / width) * width
    };
    let high_r: u64 = if width == 0 {
        high
    } else {
        ((high + width / 2) / width) * width
    };
    assert(low_r == low_round(loan, spot_price));
    assert(high_r == high_round(loan, spot_price));
    if low_r > 429496 || high_r > 429496 {
        return false;
    }
    let mut i: usize = 0;
    while i < strikes.len()
        invariant
            0 <= i <= strikes@.len(),
            forall|j: int| 0 <= j < i ==> #[trigger] strikes@[j] * 100 <= u32::MAX,
        decreases strikes@.len() - i,
    {
        if strikes[i] > 42949672 {
            return false;
        }
        i = i + 1;
    }
    true
}

/// The first candidate box of a request: a loan of `amount` cents expiring on `date`,
/// placed around the spot price in the chain of `exchange` and `trading_class`.
pub fn prepare_box(
    data: &IBData,
    amount: u32,
    date: ExpiryDate,
    exchange: &str,
    trading_class: &str,
) -> (res: Result<BoxSpread, BoxRequestError>)
    ensures
        match res {
            Ok(s) => {
                &&& data.spx_spot_price is Some
                &&& data.spx_options_chains@.contains_key((exchange@, trading_class@))
                &&& {
                    let spot = data.spx_spot_price->0;
                    let strikes = data.spx_options_chains@[(exchange@, trading_class@)].strikes;
                    &&& placement_fits(amount, spot, strikes)
                    &&& chosen_low_strike(amount, spot, strikes) matches Some(lo)
                    &&& chosen_high_strike(amount, spot, strikes) matches Some(hi)
                    &&& lo != 0 && hi != 0
                    &&& s.legs@ == box_legs(lo, hi, spot)
                }
                &&& is_box(s)
                &&& s.intended_loan == amount
                &&& s.date == date
                &&& s.liquidity == 0 && s.delta is None && s.filled is None
                &&& s.worst_price == 0 && s.best_price == 0 && s.mid_price == 0
                &&& s.worst_rate_bps == 0 && s.mid_rate_bps == 0 && s.best_rate_bps == 0
            },
            Err(BoxRequestError::NoSpotPrice) => data.spx_spot_price is None,
            Err(BoxRequestError::NoChain) => data.spx_spot_price is Some
                && !data.spx_options_chains@.contains_key((exchange@, trading_class@)),
            Err(BoxRequestError::PlacementOverflow) => data.spx_spot_price is Some
                && data.spx_options_chains@.contains_key((exchange@, trading_class@))
                && !placement_fits(
                amount,
                data.spx_spot_price->0,
                data.spx_options_chains@[(exchange@, trading_class@)].strikes,
            ),
            Err(BoxRequestError::NoStrikes) => data.spx_spot_price is Some
                && data.spx_options_chains@.contains_key((exchange@, trading_class@)) && {
                let spot = data.spx_spot_price->0;
                let strikes = data.spx_options_chains@[(exchange@, trading_class@)].strikes;
                &&& placement_fits(amount, spot, strikes)
                &&& !strikes_found(amount, spot, strikes)
            },
        },
{
    let mut spread = BoxSpread::default().with_loan(amount).with_date(date);
    let spot = match data.spx_spot_price {
        Some(p) => p,
        None => return Err(BoxRequestError::NoSpotPrice),
    };
    let chain = match data.spx_options_chains.get(exchange, trading_class) {
        Some(c) => c,
        None => return Err(BoxRequestError::NoChain),
    };
    if !placement_fits_exec(amount, spot, chain.strikes.as_slice()) {
        return Err(BoxRequestError::PlacementOverflow);
    }
    let chosen = spread.candidate_legs(spot, chain.strikes.as_slice());
    if chosen[0] == 0 || chosen[1] == 0 {
        return Err(BoxRequestError::NoStrikes);
    }
    proof {
        if chain.strikes@.len() > 0 {
            crate::laws::law_box_low_strike_not_above_high(amount, spot, chain.strikes@);
        }
    }
    Ok(spread)
}

} // verus!

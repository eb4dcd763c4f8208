use boxspread::boxspread::{leg_quote_requests, BoxSpread, BoxSpreadLeg, PollAction};
use boxspread::dates::ExpiryDate;
use boxspread::market::{OptionChainParams, OptionQuote, QuoteBook};
use boxspread::message::OptionSide;

fn quote(bid: u32, ask: u32, bid_size: u64, ask_size: u64) -> OptionQuote {
    OptionQuote { bid: Some(bid), ask: Some(ask), bid_size, ask_size, delta: None }
}

fn leg(strike: u32, side: OptionSide, q: Option<OptionQuote>) -> BoxSpreadLeg {
    BoxSpreadLeg { strike, option_side: side, itm: false, quote: q, liquidity: 0, ideal: None }
}

#[test]
fn default_box_is_empty() {
    let s = BoxSpread::default();
    assert_eq!(s.intended_loan, 0);
    assert_eq!((s.date.year(), s.date.month(), s.date.day()), (1970, 1, 1));
    assert_eq!(s.liquidity, 0);
    assert!(s.delta.is_none());
    assert!(s.legs.iter().all(|l| l.strike == 0 && l.option_side == OptionSide::Call && l.quote.is_none()));
}

#[test]
fn loan_and_date_builders() {
    let d = ExpiryDate::from_ymd(2026, 9, 17).unwrap();
    let s = BoxSpread::default().with_loan(10_000_000).with_date(d);
    assert_eq!(s.intended_loan, 10_000_000);
    assert_eq!(s.date, d);
}

#[test]
fn candidate_legs_around_spot() {
    let mut s = BoxSpread::default().with_loan(10_000_000);
    let strikes = [650000, 700000, 750000, 800000];
    assert_eq!(s.candidate_legs(700_012, &strikes), [700000, 800000]);
    assert_eq!((s.legs[0].strike, s.legs[0].option_side, s.legs[0].itm), (700000, OptionSide::Call, true));
    assert_eq!((s.legs[1].strike, s.legs[1].option_side, s.legs[1].itm), (800000, OptionSide::Call, false));
    assert_eq!((s.legs[2].strike, s.legs[2].option_side, s.legs[2].itm), (800000, OptionSide::Put, true));
    assert_eq!((s.legs[3].strike, s.legs[3].option_side, s.legs[3].itm), (700000, OptionSide::Put, false));
    assert_eq!(s.strikes(), vec![700000, 800000]);
    assert_eq!(s.strike_range(), Some((700000, 800000)));
}

#[test]
fn candidate_legs_without_strikes_changes_nothing() {
    let mut s = BoxSpread::default().with_loan(10_000_000);
    assert_eq!(s.candidate_legs(700_000, &[]), [0, 0]);
    assert!(s.legs.iter().all(|l| l.strike == 0));
}

#[test]
fn nearest_strike_ties_keep_the_first() {
    let mut s = BoxSpread::default().with_loan(10_000_000);
    // targets are 7000 and 8000 points; 690000 and 710000 are equally near 7000
    assert_eq!(s.candidate_legs(700_000, &[710000, 690000, 800000]), [710000, 800000]);
    let mut s = BoxSpread::default().with_loan(10_000_000);
    assert_eq!(s.candidate_legs(700_000, &[690000, 710000, 800000]), [690000, 800000]);
}

#[test]
fn zero_loan_uses_spot_for_both_strikes() {
    let mut s = BoxSpread::default();
    assert_eq!(s.candidate_legs(700_000, &[690000, 700000, 710000]), [700000, 700000]);
}

#[test]
fn liquidity_score_of_legs() {
    let mut s = BoxSpread::default();
    s.legs = [
        leg(700000, OptionSide::Call, Some(quote(100, 110, 5, 5))),
        leg(800000, OptionSide::Call, Some(quote(100, 102, 10000, 10000))),
        leg(800000, OptionSide::Put, Some(quote(100, 110, 5, 5))),
        leg(700000, OptionSide::Put, Some(quote(100, 110, 5, 5))),
    ];
    // mid 105, spread 10: 952 bps, spread score 10000 / 953 = 10, size score 10
    // mid 101, spread 2: 198 bps, spread score 10000 / 199 = 50, size score 10000
    assert_eq!(s.calculate_spread_liquidity(), 100);
    assert_eq!(s.liquidity, 100);
    assert_eq!(s.legs[0].liquidity, 100);
    assert_eq!(s.legs[1].liquidity, 500_000);
}

#[test]
fn unscored_legs_score_zero_and_keep_their_liquidity() {
    let mut s = BoxSpread::default();
    s.legs = [
        BoxSpreadLeg { liquidity: 7, ..leg(1, OptionSide::Call, None) },
        BoxSpreadLeg { liquidity: 7, ..leg(1, OptionSide::Call, Some(quote(110, 100, 1, 1))) },
        BoxSpreadLeg { liquidity: 7, ..leg(1, OptionSide::Put, Some(quote(0, 1, 1, 1))) },
        BoxSpreadLeg { liquidity: 7, ..leg(1, OptionSide::Put, Some(quote(100, 110, 0, 0))) },
    ];
    assert_eq!(s.calculate_spread_liquidity(), 0);
    assert!(s.legs.iter().all(|l| l.liquidity == 7));
}

#[test]
fn delta_is_the_gap_between_the_first_two_call_deltas() {
    let mut s = BoxSpread::default();
    let with_delta = |d: i64| Some(OptionQuote { delta: Some(d), ..quote(1, 2, 1, 1) });
    s.legs = [
        leg(1, OptionSide::Call, with_delta(600_000)),
        leg(2, OptionSide::Put, with_delta(-100_000)),
        leg(3, OptionSide::Call, with_delta(450_000)),
        leg(4, OptionSide::Put, None),
    ];
    s.calculate_delta();
    assert_eq!(s.delta, Some(150_000));
    s.legs[2].quote = None;
    s.calculate_delta();
    assert_eq!(s.delta, None);
}

#[test]
fn completeness_needs_every_quote_but_no_delta() {
    let mut s = BoxSpread::default();
    let q = Some(quote(1, 2, 1, 1));
    s.legs = [leg(1, OptionSide::Call, q), leg(2, OptionSide::Call, q), leg(2, OptionSide::Put, q), leg(1, OptionSide::Put, q)];
    assert!(s.legs.iter().all(|l| l.complete()));
    assert!(s.delta.is_none());
    assert!(s.complete());
    s.legs[3].quote = Some(OptionQuote { ask_size: 0, ..quote(1, 2, 1, 1) });
    assert!(!s.complete());
    s.legs[3].quote = None;
    assert!(!s.complete());
}

fn chain_with(quotes: QuoteBook) -> OptionChainParams {
    OptionChainParams { underlying_con_id: 1, multiplier: 100, expirations: vec![], strikes: vec![], quotes }
}

#[test]
fn settling_a_candidate_fills_scores_and_finishes_it() {
    let mut quotes = QuoteBook::new();
    quotes.set(7000, OptionSide::Call, quote(100, 110, 5, 5));
    quotes.set(8000, OptionSide::Call, quote(100, 102, 10000, 10000));
    quotes.set(8000, OptionSide::Put, quote(100, 110, 5, 5));
    let chain = chain_with(quotes);
    let mut s = BoxSpread::default().with_loan(10_000_000);
    s.candidate_legs(700_012, &[700000, 800000]);
    // the low put has no quote yet: the step is not done, and the delta stays unknown
    assert!(!s.settle_quotes(&chain));
    assert!(s.legs[3].quote.is_none());
    assert_eq!(s.liquidity, 0);
    let mut quotes = QuoteBook::new();
    quotes.set(7000, OptionSide::Call, quote(100, 110, 5, 5));
    quotes.set(8000, OptionSide::Call, quote(100, 102, 10000, 10000));
    quotes.set(8000, OptionSide::Put, quote(100, 110, 5, 5));
    quotes.set(7000, OptionSide::Put, quote(100, 110, 5, 5));
    let chain = chain_with(quotes);
    assert!(s.settle_quotes(&chain));
    assert_eq!(s.liquidity, 100);
    assert_eq!(s.legs[1].liquidity, 500_000);
    assert!(s.delta.is_none());
    assert!(s.complete());
}

#[test]
fn polling_waits_times_out_or_finishes() {
    let mut s = BoxSpread::default().with_loan(10_000_000);
    s.candidate_legs(700_012, &[700000, 800000]);
    let before = s;
    assert_eq!(s.poll_quotes(None, 0), PollAction::Wait);
    let mut quotes = QuoteBook::new();
    quotes.set(7000, OptionSide::Call, quote(100, 110, 5, 5));
    quotes.set(8000, OptionSide::Call, quote(100, 102, 10000, 10000));
    quotes.set(8000, OptionSide::Put, quote(100, 110, 5, 5));
    let partial = chain_with(quotes);
    assert_eq!(s.poll_quotes(Some(&partial), 5_000_000_000), PollAction::Wait);
    assert!(s.placed_like(&before) && s.legs[0].quote.is_none());
    assert_eq!(s.poll_quotes(Some(&partial), 10_000_000_001), PollAction::TimeOut);
    let mut quotes = QuoteBook::new();
    quotes.set(7000, OptionSide::Call, quote(100, 110, 5, 5));
    quotes.set(8000, OptionSide::Call, quote(100, 102, 10000, 10000));
    quotes.set(8000, OptionSide::Put, quote(100, 110, 5, 5));
    quotes.set(7000, OptionSide::Put, quote(100, 110, 5, 5));
    let ready = chain_with(quotes);
    assert_eq!(s.poll_quotes(Some(&ready), 10_000_000_001), PollAction::TimeOut);
    assert_eq!(s.poll_quotes(Some(&ready), 10_000_000_000), PollAction::Finish(100));
    assert_eq!(s.liquidity, 100);
    assert!(s.complete());
}

#[test]
fn boxes_and_their_placement() {
    let mut s = BoxSpread::default().with_loan(10_000_000);
    assert!(!s.forms_box());
    s.candidate_legs(700_012, &[700000, 800000]);
    assert!(s.forms_box());
    let mut other = s;
    other.liquidity = 99;
    other.legs[0].quote = Some(quote(1, 2, 3, 4));
    assert!(s.placed_like(&other));
    other.set_strikes(600000, 700000);
    assert!(!s.placed_like(&other));
    assert!(other.forms_box());
    other.set_strikes(700000, 600000);
    assert!(!other.forms_box());
    let moved = s.with_loan(5);
    assert!(!s.placed_like(&moved));
}

#[test]
fn pricing_of_a_box_from_its_quotes() {
    let mut s = BoxSpread::default().with_loan(10_000_000);
    s.candidate_legs(700_012, &[700000, 800000]);
    s.legs[0].quote = Some(quote(72320, 72420, 2, 2));
    s.legs[1].quote = Some(quote(10000, 10100, 2, 2));
    s.legs[2].quote = Some(quote(37655, 37655, 2, 2));
    s.legs[3].quote = Some(quote(100, 135, 2, 2));
    assert!(s.calculate_box_pricing(10));
    assert_eq!((s.best_price, s.mid_price, s.worst_price), (99975, 99858, 99740));
    assert_eq!((s.best_rate_bps, s.mid_rate_bps, s.worst_rate_bps), (91, 519, 951));
}

#[test]
fn a_box_priced_above_its_payoff_has_a_negative_rate() {
    let mut s = BoxSpread::default().with_loan(10_000_000);
    s.candidate_legs(700_012, &[700000, 800000]);
    s.legs[0].quote = Some(quote(100100, 100100, 1, 1));
    s.legs[1].quote = Some(quote(0, 0, 1, 1));
    s.legs[2].quote = Some(quote(0, 0, 1, 1));
    s.legs[3].quote = Some(quote(0, 0, 1, 1));
    assert!(s.calculate_box_pricing(365));
    assert_eq!(s.best_price, 100100);
    // (100000 - 100100) * 3650000 / (100100 * 365) = -9.99..., toward zero
    assert_eq!(s.best_rate_bps, -9);
}

#[test]
fn pricing_needs_quotes_ordered_prices_and_time() {
    let mut s = BoxSpread::default().with_loan(10_000_000);
    s.candidate_legs(700_012, &[700000, 800000]);
    s.legs[0].quote = Some(quote(72320, 72420, 2, 2));
    s.legs[1].quote = Some(quote(10000, 10100, 2, 2));
    s.legs[2].quote = Some(quote(37655, 37655, 2, 2));
    let before = s;
    assert!(!s.calculate_box_pricing(10));
    s.legs[3].quote = Some(OptionQuote { bid: None, ..quote(100, 135, 2, 2) });
    assert!(!s.calculate_box_pricing(10));
    s.legs[3].quote = Some(quote(100, 135, 2, 2));
    assert!(!s.calculate_box_pricing(0));
    assert!(!s.calculate_box_pricing(-3));
    assert_eq!((s.best_price, s.best_rate_bps), (before.best_price, before.best_rate_bps));
    // crossed quotes put the worst price above the best one
    s.legs[0].quote = Some(quote(72420, 72320, 2, 2));
    s.legs[2].quote = Some(quote(37755, 37655, 2, 2));
    assert!(!s.calculate_box_pricing(10));
    assert_eq!(s.mid_price, 0);
}

#[test]
fn quote_completeness() {
    assert!(quote(1, 2, 1, 1).complete());
    assert!(!quote(1, 2, 0, 1).complete());
    assert!(!OptionQuote::default().complete());
}

#[test]
fn set_strikes_moves_only_strikes() {
    let mut s = BoxSpread::default().with_loan(10_000_000);
    s.candidate_legs(700_012, &[700000, 800000]);
    s.set_strikes(600000, 700000);
    assert_eq!(s.legs.map(|l| l.strike), [600000, 700000, 700000, 600000]);
    assert_eq!(s.legs.map(|l| l.option_side), [OptionSide::Call, OptionSide::Call, OptionSide::Put, OptionSide::Put]);
    assert!(s.legs[0].itm);
}

#[test]
fn legs_take_quotes_from_the_chain() {
    let mut quotes = QuoteBook::new();
    quotes.set(7000, OptionSide::Call, quote(1, 2, 3, 4));
    quotes.set(8000, OptionSide::Call, quote(5, 6, 7, 8));
    quotes.set(8000, OptionSide::Put, quote(1, 2, 3, 4));
    quotes.set(7000, OptionSide::Put, quote(1, 2, 3, 4));
    let chain = OptionChainParams { underlying_con_id: 1, multiplier: 100, expirations: vec![], strikes: vec![], quotes };
    let mut s = BoxSpread::default().with_loan(10_000_000);
    s.candidate_legs(700_012, &[700000, 800000]);
    assert!(s.quotes_ready(&chain));
    s.fill_quotes(&chain);
    assert_eq!(s.legs[1].quote.unwrap().bid, Some(5));
    s.set_strikes(600000, 800000);
    assert!(!s.quotes_ready(&chain));
    s.fill_quotes(&chain);
    assert!(s.legs[0].quote.is_none());
}

#[test]
fn quote_requests_of_a_box() {
    assert_eq!(
        leg_quote_requests(700000, 800000),
        [(7000, OptionSide::Call), (7000, OptionSide::Put), (8000, OptionSide::Call), (8000, OptionSide::Put)]
    );
}

use boxspread::boxspread::BoxSpread;
use boxspread::search::{BoxSearch, SearchAction};

fn start(liquidity: u32) -> BoxSpread {
    let mut s = BoxSpread::default().with_loan(10_000_000);
    s.candidate_legs(700_012, &[700000, 800000]);
    s.liquidity = liquidity;
    s
}

fn evaluated(candidate: SearchAction, liquidity: u32) -> BoxSpread {
    match candidate {
        SearchAction::Evaluate(mut s) => {
            s.liquidity = liquidity;
            s
        }
        other => panic!("expected a candidate, got {other:?}"),
    }
}

fn strikes(a: &SearchAction) -> [u32; 4] {
    match a {
        SearchAction::Evaluate(s) => s.legs.map(|l| l.strike),
        other => panic!("expected a candidate, got {other:?}"),
    }
}

#[test]
fn search_moves_down_then_up_by_the_largest_step() {
    let mut search = BoxSearch::new(start(10));
    let down = search.next_action();
    assert_eq!(strikes(&down), [600000, 700000, 700000, 600000]);
    let up = search.record(evaluated(down, 5), true);
    assert_eq!(strikes(&up), [800000, 900000, 900000, 800000]);
    // neither candidate improves: the next step follows at once
    let next = search.record(evaluated(up, 7), true);
    assert!(matches!(next, SearchAction::Proceed { pause: false }));
    assert_eq!(search.spreads().len(), 2);
    assert_eq!(search.best_spread().liquidity, 10);
    let down = search.next_action();
    assert_eq!(strikes(&down), [650000, 750000, 750000, 650000]);
}

#[test]
fn an_improvement_repeats_the_step_from_the_better_box() {
    let mut search = BoxSearch::new(start(10));
    let down = search.next_action();
    let up = search.record(evaluated(down, 50), true);
    let next = search.record(evaluated(up, 20), true);
    assert!(matches!(next, SearchAction::Proceed { pause: true }));
    assert_eq!(search.best_spread().liquidity, 50);
    assert_eq!(search.best_spread().legs.map(|l| l.strike), [600000, 700000, 700000, 600000]);
    let down = search.next_action();
    assert_eq!(strikes(&down), [500000, 600000, 600000, 500000]);
}

#[test]
fn a_failed_evaluation_ends_the_step() {
    let mut search = BoxSearch::new(start(10));
    let down = search.next_action();
    let next = search.record(evaluated(down, 0), false);
    assert!(matches!(next, SearchAction::Proceed { pause: false }));
    assert!(search.spreads().is_empty());
    let down = search.next_action();
    assert_eq!(strikes(&down), [650000, 750000, 750000, 650000]);
}

#[test]
fn the_search_ends_after_the_smallest_step() {
    let mut search = BoxSearch::new(start(10));
    let mut rounds = 0;
    let mut action = search.next_action();
    loop {
        match action {
            SearchAction::Evaluate(_) => action = search.record(evaluated(action, 1), true),
            SearchAction::Proceed { .. } => {
                rounds += 1;
                action = search.next_action();
            }
            SearchAction::Finish => break,
            SearchAction::StrikeOverflow => panic!("unexpected overflow"),
        }
    }
    assert_eq!(rounds, 6);
    assert_eq!(search.spreads().len(), 12);
    assert_eq!(search.best_spread().liquidity, 10);
    assert!(search.spreads().iter().all(|s| s.liquidity <= search.best_spread().liquidity));
}

#[test]
fn a_step_below_zero_is_an_overflow() {
    let mut s = BoxSpread::default();
    s.candidate_legs(50_000, &[50_000]);
    let mut search = BoxSearch::new(s);
    assert!(matches!(search.next_action(), SearchAction::StrikeOverflow));
}

#[test]
fn a_box_at_strike_zero_overflows() {
    let mut s = BoxSpread::default();
    s.candidate_legs(0, &[0]);
    assert_eq!(s.legs.map(|l| l.strike), [0, 0, 0, 0]);
    let mut search = BoxSearch::new(s);
    assert!(matches!(search.next_action(), SearchAction::StrikeOverflow));
}

#[test]
fn every_candidate_keeps_the_loan_date_and_width() {
    let first = start(10);
    let width = first.legs[1].strike - first.legs[0].strike;
    let mut search = BoxSearch::new(first);
    let mut action = search.next_action();
    loop {
        match action {
            SearchAction::Evaluate(ref s) => {
                assert_eq!(s.intended_loan, first.intended_loan);
                assert_eq!(s.date, first.date);
                assert_eq!(s.legs[1].strike - s.legs[0].strike, width);
                assert!(s.forms_box());
                let liquidity = if s.legs[0].strike == 650000 { 40 } else { 1 };
                action = search.record(evaluated(action, liquidity), true);
            }
            SearchAction::Proceed { .. } => action = search.next_action(),
            SearchAction::Finish => break,
            SearchAction::StrikeOverflow => panic!("unexpected overflow"),
        }
    }
    let best = search.best_spread();
    assert_eq!(best.legs[0].strike, 650000);
    assert!(search.spreads().iter().all(|s| s.liquidity <= best.liquidity));
    // the last two candidates are the best box moved down and up by the finest step
    let n = search.spreads().len();
    assert_eq!(search.spreads()[n - 2].legs[0].strike, 650000 - 1000);
    assert_eq!(search.spreads()[n - 1].legs[0].strike, 650000 + 1000);
}

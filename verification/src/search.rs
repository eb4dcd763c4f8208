//! The search for the most liquid box: from the first candidate, move the box down and up
//! by decreasing steps, keep the most liquid box seen, and repeat a step while it improves.
//! The evaluation of each candidate (market data requests and waiting) is done by the
//! caller; this module decides what to evaluate next.
use vstd::prelude::*;
use crate::boxspread::{with_strikes, call_strikes, is_box, box_width, same_placement, lemma_box_call_strikes, chosen_high_strike, chosen_low_strike, placement_fits, seq_max, seq_min, BoxSpread, BoxSpreadLeg};
use crate::dates::ExpiryDate;
use crate::market::IBData;

verus! {

/// The number of step sizes.
pub open spec fn step_count() -> int {
    6
}

/// The step sizes in cents, largest first: 1000, 500, 250, 100, 50 and 10 dollars.
pub open spec fn step_size_spec(i: int) -> u32 {
    if i == 0 {
        100000
    } else if i == 1 {
        50000
    } else if i == 2 {
        25000
    } else if i == 3 {
        10000
    } else if i == 4 {
        5000
    } else {
        1000
    }
}

fn step_size(i: usize) -> (s: u32)
    requires
        i < 6,
    ensures
        s == step_size_spec(i as int),
{
    if i == 0 {
        100000
    } else if i == 1 {
        50000
    } else if i == 2 {
        25000
    } else if i == 3 {
        10000
    } else if i == 4 {
        5000
    } else {
        1000
    }
}

/// Where the search stands.
#[derive(Debug, Clone, Copy, PartialEq, Eq, Structural)]
pub enum SearchPhase {
    /// Between rounds: the next round moves the best box by the current step.
    Ready,
    /// Waiting for the box moved down from `low`/`high`.
    AwaitDown { low: u32, high: u32 },
    /// Waiting for the box moved up from `low`/`high`.
    AwaitUp { low: u32, high: u32 },
    /// The search is over.
    Finished,
}

/// What the caller does next.
#[derive(Debug, Clone, Copy)]
pub enum SearchAction {
    /// Evaluate this candidate and report it with `record`.
    Evaluate(BoxSpread),
    /// Call `next_action`, after waiting a second where `pause` is set.
    Proceed { pause: bool },
    /// The search is over; `best` and `spreads` hold its result.
    Finish,
    /// A strike would leave the range of `u32`.
    StrikeOverflow,
}

/// The state of a search.
pub struct BoxSearch {
    step_index: usize,
    phase: SearchPhase,
    changed: bool,
    best: BoxSpread,
    spreads: Vec<BoxSpread>,
    current: BoxSpread,
    initial: BoxSpread,
    round_start: Ghost<u32>,
    round_best: Ghost<BoxSpread>,
}

/// The phase between rounds at `step`: ready, or finished once the steps are used up.
pub open spec fn resting_phase(step: int) -> SearchPhase {
    if step == step_count() {
        SearchPhase::Finished
    } else {
        SearchPhase::Ready
    }
}

/// Whether a box keeps the frame of the first candidate: it is a box of the same loan,
/// date and width.
pub open spec fn in_frame(s: BoxSpread, initial: BoxSpread) -> bool {
    &&& is_box(s)
    &&& s.intended_loan == initial.intended_loan
    &&& s.date == initial.date
    &&& box_width(s) == box_width(initial)
}

/// The box after a candidate: the candidate where it is strictly more liquid, else the box.
pub open spec fn better(best: BoxSpread, candidate: BoxSpread) -> BoxSpread {
    if candidate.liquidity > best.liquidity {
        candidate
    } else {
        best
    }
}

/// The most liquid of `initial` and `spreads`, the first one where several are.
pub open spec fn best_of(initial: BoxSpread, spreads: Seq<BoxSpread>) -> BoxSpread
    decreases spreads.len(),
{
    if spreads.len() == 0 {
        initial
    } else {
        better(best_of(initial, spreads.drop_last()), spreads.last())
    }
}

impl BoxSearch {
    pub closed spec fn step(self) -> int {
        self.step_index as int
    }

    pub closed spec fn phase(self) -> SearchPhase {
        self.phase
    }

    pub closed spec fn changed(self) -> bool {
        self.changed
    }

    /// The most liquid box seen so far.
    pub closed spec fn best(self) -> BoxSpread {
        self.best
    }

    /// Every candidate evaluated so far, in order.
    pub closed spec fn evaluated(self) -> Seq<BoxSpread> {
        self.spreads@
    }

    /// The box being moved.
    pub closed spec fn current(self) -> BoxSpread {
        self.current
    }

    /// The first candidate.
    pub closed spec fn initial(self) -> BoxSpread {
        self.initial
    }

    /// The liquidity of the best box when the current round started.
    pub closed spec fn round_start(self) -> u32 {
        self.round_start@
    }

    /// The best box when the current round started.
    pub closed spec fn round_best(self) -> BoxSpread {
        self.round_best@
    }

    closed spec fn round_wf(self, low: u32, high: u32) -> bool {
        let rb = self.round_best@;
        &&& low <= high
        &&& self.step_index < step_count()
        &&& low >= step_size_spec(self.step_index as int)
        &&& rb.legs[0].strike == low
        &&& rb.legs[1].strike == high
        &&& in_frame(rb, self.initial)
        &&& self.round_start@ == rb.liquidity
        &&& self.best.liquidity >= self.round_start@
        &&& (self.changed <==> self.best.liquidity > self.round_start@)
        &&& (!self.changed ==> self.best == rb)
    }

    /// What every state of a search satisfies: the best box is the most liquid of the first
    /// candidate and all candidates evaluated since, and the step stays in range.
    pub closed spec fn wf(self) -> bool {
        &&& self.best == best_of(self.initial, self.spreads@)
        &&& self.step_index <= step_count()
        &&& (self.phase == SearchPhase::Finished <==> self.step_index == step_count())
        &&& is_box(self.initial)
        &&& in_frame(self.best, self.initial)
        &&& in_frame(self.current, self.initial)
        &&& forall|i: int| 0 <= i < self.spreads@.len() ==> in_frame(#[trigger] self.spreads@[i], self.initial)
        &&& match self.phase {
            SearchPhase::AwaitDown { low, high } => {
                let step = step_size_spec(self.step_index as int);
                &&& self.round_wf(low, high)
                &&& same_placement(self.current, with_strikes(self.round_best@, (low - step) as u32, (high - step) as u32))
            },
            SearchPhase::AwaitUp { low, high } => {
                let step = step_size_spec(self.step_index as int);
                &&& self.round_wf(low, high)
                &&& high + step <= u32::MAX
                &&& self.spreads@.len() >= 1
                &&& same_placement(self.spreads@.last(), with_strikes(self.round_best@, (low - step) as u32, (high - step) as u32))
                &&& (!self.changed ==> self.spreads@.last().liquidity <= self.round_best@.liquidity)
                &&& same_placement(self.current, with_strikes(self.round_best@, (low + step) as u32, (high + step) as u32))
            },
            _ => true,
        }
    }

    /// In a well-formed state the best box is the most liquid of what the search has seen,
    /// the step is in range, and the best box and every evaluated box keep the frame of the
    /// first candidate.
    pub proof fn lemma_wf(self)
        requires
            self.wf(),
        ensures
            self.best() == best_of(self.initial(), self.evaluated()),
            0 <= self.step() <= step_count(),
            self.phase() == SearchPhase::Finished <==> self.step() == step_count(),
            is_box(self.initial()),
            in_frame(self.best(), self.initial()),
            forall|i: int| 0 <= i < self.evaluated().len() ==> in_frame(#[trigger] self.evaluated()[i], self.initial()),
    {
    }

    /// A search from a first candidate that is already evaluated; the candidate is a box.
    pub fn new(initial: BoxSpread) -> (s: Self)
        requires
            is_box(initial),
        ensures
            s.wf(),
            s.step() == 0,
            s.phase() == SearchPhase::Ready,
            s.best() == initial,
            s.evaluated() == Seq::<BoxSpread>::empty(),
            s.current() == initial,
            s.initial() == initial,
    {
        let s = BoxSearch {
            step_index: 0,
            phase: SearchPhase::Ready,
            changed: false,
            best: initial,
            spreads: Vec::new(),
            current: initial,
            initial,
            round_start: Ghost(initial.liquidity),
            round_best: Ghost(initial),
        };
        assert(s.spreads@ =~= Seq::<BoxSpread>::empty());
        s
    }

    /// The most liquid box seen so far.
    pub fn best_spread(&self) -> (b: BoxSpread)
        ensures
            b == self.best(),
    {
        self.best
    }

    /// Every candidate evaluated so far.
    pub fn spreads(&self) -> (v: &Vec<BoxSpread>)
        ensures
            v@ == self.evaluated(),
    {
        &self.spreads
    }

    /// Starts the next round: the best box moved down by the current step, or the end of
    /// the search where the steps are used up or the best box has no call leg.
    pub fn next_action(&mut self) -> (action: SearchAction)
        requires
            old(self).wf(),
            old(self).phase() == SearchPhase::Ready || old(self).phase() == SearchPhase::Finished,
        ensures
            final(self).wf(),
            final(self).best() == old(self).best(),
            final(self).evaluated() == old(self).evaluated(),
            final(self).initial() == old(self).initial(),
            ({
                let strikes = call_strikes(old(self).best().legs@);
                if old(self).step() >= step_count() {
                    action is Finish && final(self).phase() == SearchPhase::Finished
                } else if strikes.len() == 0 {
                    action is Finish && final(self).phase() == SearchPhase::Finished
                        && final(self).step() == step_count()
                } else {
                    let lo: u32 = seq_min(strikes);
                    let hi: u32 = seq_max(strikes);
                    let step: u32 = step_size_spec(old(self).step());
                    if lo < step {
                        action is StrikeOverflow && *final(self) == *old(self)
                    } else {
                        let cand = with_strikes(old(self).current(), (lo - step) as u32, (hi - step) as u32);
                        action == SearchAction::Evaluate(cand) && final(self).current() == cand
                            && final(self).step() == old(self).step() && final(self).phase()
                            == (SearchPhase::AwaitDown { low: lo, high: hi }) && !final(self).changed()
                            && final(self).round_start() == old(self).best().liquidity
                    }
                }
            }),
    {
        if self.step_index >= 6 {
            self.phase = SearchPhase::Finished;
            return SearchAction::Finish;
        }
        match self.best.strike_range() {
            None => {
                self.step_index = 6;
                self.phase = SearchPhase::Finished;
                SearchAction::Finish
            },
            Some((lo, hi)) => {
                let step: u32 = step_size(self.step_index);
                if lo < step {
                    return SearchAction::StrikeOverflow;
                }
                proof {
                    crate::search::lemma_min_le_max(call_strikes(self.best.legs@));
                    lemma_box_call_strikes(self.best);
                    lemma_moved_in_frame(
                        self.current,
                        self.best,
                        self.initial,
                        (lo - step) as u32,
                        (hi - step) as u32,
                    );
                }
                self.current.set_strikes(lo - step, hi - step);
                self.phase = SearchPhase::AwaitDown { low: lo, high: hi };
                self.changed = false;
                self.round_start = Ghost(self.best.liquidity);
                self.round_best = Ghost(self.best);
                SearchAction::Evaluate(self.current)
            },
        }
    }

    /// Takes the outcome of the evaluation of the candidate last handed out: the evaluated
    /// box and whether the evaluation succeeded. A failed evaluation ends the rounds of the
    /// current step; a successful one is recorded and may become the best box.
    pub fn record(&mut self, evaluated: BoxSpread, ok: bool) -> (action: SearchAction)
        requires
            old(self).wf(),
            old(self).phase() is AwaitDown || old(self).phase() is AwaitUp,
            same_placement(evaluated, old(self).current()),
        ensures
            final(self).wf(),
            final(self).initial() == old(self).initial(),
            final(self).round_start() == old(self).round_start(),
            action == (SearchAction::Proceed { pause: true }) ==> final(self).best().liquidity > old(
                self,
            ).round_start() && final(self).step() == old(self).step(),
            !ok ==> action == (SearchAction::Proceed { pause: false }) && final(self).phase()
                == resting_phase(old(self).step() + 1) && final(self).step() == old(self).step() + 1
                && final(self).evaluated() == old(self).evaluated() && final(self).best() == old(
                self,
            ).best() && final(self).current() == evaluated,
            ok ==> final(self).evaluated() == old(self).evaluated().push(evaluated) && final(self).best()
                == better(old(self).best(), evaluated),
            ok ==> match old(self).phase() {
                SearchPhase::AwaitDown { low, high } => {
                    let step: u32 = step_size_spec(old(self).step());
                    let changed = old(self).changed() || evaluated.liquidity > old(self).best().liquidity;
                    if high + step > u32::MAX {
                        action is StrikeOverflow
                    } else {
                        let cand = with_strikes(evaluated, (low + step) as u32, (high + step) as u32);
                        action == SearchAction::Evaluate(cand) && final(self).current() == cand
                            && final(self).phase() == (SearchPhase::AwaitUp { low, high })
                            && final(self).step() == old(self).step() && final(self).changed() == changed
                    }
                },
                SearchPhase::AwaitUp { low, high } => {
                    let step: u32 = step_size_spec(old(self).step());
                    let changed = old(self).changed() || evaluated.liquidity > old(self).best().liquidity;
                    let n = final(self).evaluated().len();
                    &&& !changed ==> {
                        &&& n >= 2
                        &&& final(self).best().legs[0].strike == low
                        &&& final(self).best().legs[1].strike == high
                        &&& same_placement(
                            final(self).evaluated()[n - 2],
                            with_strikes(final(self).best(), (low - step) as u32, (high - step) as u32),
                        )
                        &&& same_placement(
                            final(self).evaluated()[n - 1],
                            with_strikes(final(self).best(), (low + step) as u32, (high + step) as u32),
                        )
                        &&& final(self).evaluated()[n - 2].liquidity <= final(self).best().liquidity
                        &&& final(self).evaluated()[n - 1].liquidity <= final(self).best().liquidity
                    }
                    &&& final(self).current() == evaluated && if changed {
                        action == (SearchAction::Proceed { pause: true }) && final(self).step()
                            == old(self).step() && final(self).phase() == SearchPhase::Ready
                    } else {
                        action == (SearchAction::Proceed { pause: false }) && final(self).step()
                            == old(self).step() + 1 && final(self).phase() == resting_phase(
                            old(self).step() + 1,
                        )
                    }
                },
                _ => true,
            },
    {
        self.current = evaluated;
        if !ok {
            self.step_index = self.step_index + 1;
            self.phase = if self.step_index == 6 {
                SearchPhase::Finished
            } else {
                SearchPhase::Ready
            };
            return SearchAction::Proceed { pause: false };
        }
        let ghost old_spreads = self.spreads@;
        self.spreads.push(evaluated);
        assert(self.spreads@.drop_last() =~= old_spreads);
        if evaluated.liquidity > self.best.liquidity {
            self.changed = true;
            self.best = evaluated;
        }
        match self.phase {
            SearchPhase::AwaitDown { low, high } => {
                let step: u32 = step_size(self.step_index);
                if high > u32::MAX - step {
                    return SearchAction::StrikeOverflow;
                }
                self.current.set_strikes(low + step, high + step);
                self.phase = SearchPhase::AwaitUp { low, high };
                SearchAction::Evaluate(self.current)
            },
            _ => {
                if self.changed {
                    self.phase = SearchPhase::Ready;
                    SearchAction::Proceed { pause: true }
                } else {
                    self.step_index = self.step_index + 1;
                    self.phase = if self.step_index == 6 {
                        SearchPhase::Finished
                    } else {
                        SearchPhase::Ready
                    };
                    SearchAction::Proceed { pause: false }
                }
            },
        }
    }
}

/// A box placed like a box of the frame is of the frame too.
proof fn lemma_placement_keeps_frame(a: BoxSpread, b: BoxSpread, initial: BoxSpread)
    requires
        same_placement(a, b),
        in_frame(b, initial),
    ensures
        in_frame(a, initial),
{
    assert(a.legs[0].strike == b.legs[0].strike && a.legs[0].option_side == b.legs[0].option_side);
    assert(a.legs[1].strike == b.legs[1].strike && a.legs[1].option_side == b.legs[1].option_side);
    assert(a.legs[2].strike == b.legs[2].strike && a.legs[2].option_side == b.legs[2].option_side);
    assert(a.legs[3].strike == b.legs[3].strike && a.legs[3].option_side == b.legs[3].option_side);
}

/// Placing alike is transitive.
proof fn lemma_placement_trans(a: BoxSpread, b: BoxSpread, c: BoxSpread)
    requires
        same_placement(a, b),
        same_placement(b, c),
    ensures
        same_placement(a, c),
{
    assert forall|i: int| 0 <= i < 4 implies (#[trigger] a.legs[i]).strike == c.legs[i].strike
        && a.legs[i].option_side == c.legs[i].option_side by {
        assert(b.legs[i].strike == c.legs[i].strike);
    }
}

/// Moving two boxes of the frame to the same strikes places them alike, and keeps the
/// frame where the new strikes keep the width.
proof fn lemma_moved_in_frame(a: BoxSpread, b: BoxSpread, initial: BoxSpread, low: u32, high: u32)
    requires
        in_frame(a, initial),
        in_frame(b, initial),
        low <= high,
        high - low == box_width(initial),
    ensures
        same_placement(with_strikes(a, low, high), with_strikes(b, low, high)),
        in_frame(with_strikes(a, low, high), initial),
{
    let x = with_strikes(a, low, high);
    let y = with_strikes(b, low, high);
    assert forall|i: int| 0 <= i < 4 implies (#[trigger] x.legs[i]).strike == y.legs[i].strike
        && x.legs[i].option_side == y.legs[i].option_side by {
    }
}

pub proof fn lemma_min_le_max(s: Seq<u32>)
    requires
        s.len() > 0,
    ensures
        seq_min(s) <= seq_max(s),
    decreases s.len(),
{
    if s.len() > 1 {
        lemma_min_le_max(s.drop_last());
    }
}

} // verus!

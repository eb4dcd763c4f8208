//! The market data the scanner keeps: option chains of each exchange and trading class,
//! their quotes, and the spot price of the index.
use vstd::prelude::*;
use crate::dates::ExpiryDate;
use crate::keyed::{key_index, lemma_key_index_take, keyed_map, lemma_key_index_bounds, lemma_keyed_map_push, lemma_keyed_map_update};
use crate::message::{text_equal, OptionSide};

verus! {

/// A quote of one option: best bid and ask in cents, their sizes, and the delta
/// (in millionths) where the gateway reports one.
#[derive(Debug, Clone, Copy, PartialEq, Eq)]
pub struct OptionQuote {
    pub bid: Option<u32>,
    pub ask: Option<u32>,
    pub bid_size: u64,
    pub ask_size: u64,
    pub delta: Option<i64>,
}

impl Default for OptionQuote {
    fn default() -> (q: Self)
        ensures
            q == OptionQuote::empty(),
    {
        OptionQuote { bid: None, ask: None, bid_size: 0, ask_size: 0, delta: None }
    }
}

impl OptionQuote {
    /// The quote with no prices and no sizes.
    pub open spec fn empty() -> OptionQuote {
        OptionQuote { bid: None, ask: None, bid_size: 0, ask_size: 0, delta: None }
    }

    /// Whether both sides are quoted, each with a positive size.
    pub open spec fn is_complete(self) -> bool {
        self.bid is Some && self.ask is Some && self.bid_size > 0 && self.ask_size > 0
    }

    pub fn complete(&self) -> (c: bool)
        ensures
            c == self.is_complete(),
    {
        self.bid.is_some() && self.ask.is_some() && self.bid_size > 0 && self.ask_size > 0
    }
}

/// The quote of the option of a strike and a right.
#[derive(Debug, Clone, Copy)]
pub struct QuoteEntry {
    pub strike: u32,
    pub side: OptionSide,
    pub quote: OptionQuote,
}

/// The key of a quote entry.
pub open spec fn quote_key_fn() -> spec_fn(QuoteEntry) -> (u32, OptionSide) {
    |e: QuoteEntry| (e.strike, e.side)
}

/// The value of a quote entry.
pub open spec fn quote_value_fn() -> spec_fn(QuoteEntry) -> OptionQuote {
    |e: QuoteEntry| e.quote
}

/// The quotes of a chain, by strike (in dollars) and right.
#[derive(Debug, Clone)]
pub struct QuoteBook {
    entries: Vec<QuoteEntry>,
}

impl View for QuoteBook {
    type V = Map<(u32, OptionSide), OptionQuote>;

    closed spec fn view(&self) -> Map<(u32, OptionSide), OptionQuote> {
        keyed_map(self.entries@, quote_key_fn(), quote_value_fn())
    }
}

impl QuoteBook {
    pub fn new() -> (b: Self)
        ensures
            b@ == Map::<(u32, OptionSide), OptionQuote>::empty(),
    {
        let b = QuoteBook { entries: Vec::new() };
        assert(b@ =~= Map::<(u32, OptionSide), OptionQuote>::empty());
        b
    }

    /// The entries of the book; the book maps each key to the value of its last entry.
    pub fn entries(&self) -> (es: &[QuoteEntry])
        ensures
            keyed_map(es@, quote_key_fn(), quote_value_fn()) == self@,
    {
        self.entries.as_slice()
    }

    fn position(&self, strike: u32, side: OptionSide) -> (pos: Option<usize>)
        ensures
            match pos {
                Some(i) => key_index(self.entries@, quote_key_fn(), (strike, side)) == Some(i as int)
                    && i < self.entries@.len(),
                None => key_index(self.entries@, quote_key_fn(), (strike, side)) is None,
            },
    {
        let ghost es = self.entries@;
        let ghost k = (strike, side);
        let mut i: usize = self.entries.len();
        assert(es.take(i as int) =~= es);
        while i > 0
            invariant
                0 <= i <= es.len(),
                es == self.entries@,
                k == (strike, side),
                key_index(es, quote_key_fn(), k) == key_index(es.take(i as int), quote_key_fn(), k),
            decreases i,
        {
            let e = self.entries[i - 1];
            proof {
                lemma_key_index_take(es, quote_key_fn(), k, i as int);
                assert(es[i - 1] == e);
                assert((quote_key_fn())(e) == (e.strike, e.side));
            }
            if e.strike == strike && e.side == side {
                return Some(i - 1);
            }
            i = i - 1;
        }
        assert(es.take(0) =~= Seq::<QuoteEntry>::empty());
        None
    }

    /// The quote of the option of `strike` and `side`, if the book holds one.
    pub fn get(&self, strike: u32, side: OptionSide) -> (q: Option<OptionQuote>)
        ensures
            q == (if self@.contains_key((strike, side)) {
                Some(self@[(strike, side)])
            } else {
                None
            }),
    {
        match self.position(strike, side) {
            Some(i) => Some(self.entries[i].quote),
            None => None,
        }
    }

    /// Records `quote` as the quote of the option of `strike` and `side`.
    pub fn set(&mut self, strike: u32, side: OptionSide, quote: OptionQuote)
        ensures
            final(self)@ == old(self)@.insert((strike, side), quote),
    {
        let e = QuoteEntry { strike, side, quote };
        match self.position(strike, side) {
            Some(i) => {
                proof {
                    lemma_keyed_map_update(self.entries@, quote_key_fn(), quote_value_fn(), i as int, e);
                }
                self.entries.set(i, e);
            },
            None => {
                proof {
                    lemma_keyed_map_push(self.entries@, quote_key_fn(), quote_value_fn(), e);
                }
                self.entries.push(e);
            },
        }
    }
}

/// The parameters of the option chain of one exchange and trading class.
#[derive(Debug, Clone)]
pub struct OptionChainParams {
    pub underlying_con_id: u32,
    pub multiplier: u32,
    pub expirations: Vec<ExpiryDate>,
    /// Strikes in cents.
    pub strikes: Vec<u32>,
    pub quotes: QuoteBook,
}

/// What an option chain holds, as values.
#[verifier::ext_equal]
pub struct ChainView {
    pub underlying_con_id: u32,
    pub multiplier: u32,
    pub expirations: Seq<ExpiryDate>,
    pub strikes: Seq<u32>,
    pub quotes: Map<(u32, OptionSide), OptionQuote>,
}

impl View for OptionChainParams {
    type V = ChainView;

    open spec fn view(&self) -> ChainView {
        ChainView {
            underlying_con_id: self.underlying_con_id,
            multiplier: self.multiplier,
            expirations: self.expirations@,
            strikes: self.strikes@,
            quotes: self.quotes@,
        }
    }
}

impl ChainView {
    /// The chain with `quote` recorded for the option of `strike` and `side`.
    pub open spec fn with_quote(self, strike: u32, side: OptionSide, quote: OptionQuote) -> ChainView {
        ChainView { quotes: self.quotes.insert((strike, side), quote), ..self }
    }
}

/// The chain of an exchange and a trading class.
#[derive(Debug, Clone)]
pub struct ChainEntry {
    pub exchange: String,
    pub trading_class: String,
    pub params: OptionChainParams,
}

/// The key of a chain entry: its exchange and trading class.
pub open spec fn chain_key_fn() -> spec_fn(ChainEntry) -> (Seq<char>, Seq<char>) {
    |e: ChainEntry| (e.exchange@, e.trading_class@)
}

/// The value of a chain entry.
pub open spec fn chain_value_fn() -> spec_fn(ChainEntry) -> ChainView {
    |e: ChainEntry| e.params@
}

/// Whether no two entries share an exchange and a trading class.
pub open spec fn keys_distinct(es: Seq<ChainEntry>) -> bool {
    forall|i: int, j: int|
        #![trigger es[i], es[j]]
        0 <= i < j < es.len() ==> (es[i].exchange@, es[i].trading_class@) != (
            es[j].exchange@,
            es[j].trading_class@,
        )
}

/// The option chains, by exchange and trading class.
#[derive(Debug)]
pub struct ChainBook {
    entries: Vec<ChainEntry>,
}

impl View for ChainBook {
    type V = Map<(Seq<char>, Seq<char>), ChainView>;

    closed spec fn view(&self) -> Map<(Seq<char>, Seq<char>), ChainView> {
        keyed_map(self.entries@, chain_key_fn(), chain_value_fn())
    }
}

impl ChainBook {
    /// The book holds one entry per exchange and trading class.
    #[verifier::type_invariant]
    closed spec fn one_entry_per_key(self) -> bool {
        keys_distinct(self.entries@)
    }

    pub fn new() -> (b: Self)
        ensures
            b@ == Map::<(Seq<char>, Seq<char>), ChainView>::empty(),
    {
        let b = ChainBook { entries: Vec::new() };
        assert(b@ =~= Map::<(Seq<char>, Seq<char>), ChainView>::empty());
        b
    }

    /// The entries of the book, one per exchange and trading class; the book maps each key
    /// to the chain of its entry.
    pub fn entries(&self) -> (es: &[ChainEntry])
        ensures
            keyed_map(es@, chain_key_fn(), chain_value_fn()) == self@,
            keys_distinct(es@),
    {
        proof {
            use_type_invariant(self);
        }
        self.entries.as_slice()
    }

    fn position(&self, exchange: &str, trading_class: &str) -> (pos: Option<usize>)
        ensures
            match pos {
                Some(i) => key_index(self.entries@, chain_key_fn(), (exchange@, trading_class@))
                    == Some(i as int) && i < self.entries@.len(),
                None => key_index(self.entries@, chain_key_fn(), (exchange@, trading_class@)) is None,
            },
    {
        let ghost es = self.entries@;
        let ghost k = (exchange@, trading_class@);
        let mut i: usize = self.entries.len();
        assert(es.take(i as int) =~= es);
        while i > 0
            invariant
                0 <= i <= es.len(),
                es == self.entries@,
                k == (exchange@, trading_class@),
                key_index(es, chain_key_fn(), k) == key_index(es.take(i as int), chain_key_fn(), k),
            decreases i,
        {
            let e = &self.entries[i - 1];
            proof {
                lemma_key_index_take(es, chain_key_fn(), k, i as int);
                assert(es[i - 1] == *e);
                assert((chain_key_fn())(*e) == (e.exchange@, e.trading_class@));
            }
            if text_equal(e.exchange.as_str(), exchange) && text_equal(
                e.trading_class.as_str(),
                trading_class,
            ) {
                return Some(i - 1);
            }
            i = i - 1;
        }
        assert(es.take(0) =~= Seq::<ChainEntry>::empty());
        None
    }

    /// The chain of `exchange` and `trading_class`, if the book holds one.
    pub fn get(&self, exchange: &str, trading_class: &str) -> (chain: Option<&OptionChainParams>)
        ensures
            match chain {
                Some(c) => self@.contains_key((exchange@, trading_class@)) && c@ == self@[(
                    exchange@,
                    trading_class@,
                )],
                None => !self@.contains_key((exchange@, trading_class@)),
            },
    {
        match self.position(exchange, trading_class) {
            Some(i) => {
                proof {
                    lemma_key_index_bounds(self.entries@, chain_key_fn(), (exchange@, trading_class@));
                }
                Some(&self.entries[i].params)
            },
            None => None,
        }
    }

    /// Records `params` as the chain of `exchange` and `trading_class`, replacing any earlier one.
    pub fn insert(&mut self, exchange: String, trading_class: String, params: OptionChainParams)
        ensures
            final(self)@ == old(self)@.insert((exchange@, trading_class@), params@),
    {
        proof {
            use_type_invariant(&*self);
        }
        let pos = self.position(exchange.as_str(), trading_class.as_str());
        let e = ChainEntry { exchange, trading_class, params };
        let ghost k = (e.exchange@, e.trading_class@);
        proof {
            lemma_key_index_bounds(self.entries@, chain_key_fn(), k);
        }
        let mut es: Vec<ChainEntry> = Vec::new();
        std::mem::swap(&mut es, &mut self.entries);
        let ghost before = es@;
        match pos {
            Some(i) => {
                proof {
                    lemma_keyed_map_update(before, chain_key_fn(), chain_value_fn(), i as int, e);
                }
                es.set(i, e);
                proof {
                    assert forall|a: int, b: int| 0 <= a < b < es@.len() implies (
                        #[trigger] es@[a].exchange@,
                        es@[a].trading_class@,
                    ) != (#[trigger] es@[b].exchange@, es@[b].trading_class@) by {
                        assert(before[a] == es@[a] || a == i);
                        assert(before[b] == es@[b] || b == i);
                    }
                }
            },
            None => {
                proof {
                    lemma_keyed_map_push(before, chain_key_fn(), chain_value_fn(), e);
                }
                es.push(e);
                proof {
                    assert forall|a: int, b: int| 0 <= a < b < es@.len() implies (
                        #[trigger] es@[a].exchange@,
                        es@[a].trading_class@,
                    ) != (#[trigger] es@[b].exchange@, es@[b].trading_class@) by {
                        assert(es@[a] == before[a]);
                        if b < before.len() {
                            assert(es@[b] == before[b]);
                        } else {
                            assert(es@[b] == e);
                            assert((chain_key_fn())(before[a]) != k);
                        }
                    }
                }
            },
        }
        self.entries = es;
    }

    /// Records `quote` for the option of `strike` and `side` in the chain of `exchange` and
    /// `trading_class`; returns whether the book holds that chain (it changes nothing if not).
    pub fn set_quote(
        &mut self,
        exchange: &str,
        trading_class: &str,
        strike: u32,
        side: OptionSide,
        quote: OptionQuote,
    ) -> (found: bool)
        ensures
            found == old(self)@.contains_key((exchange@, trading_class@)),
            found ==> final(self)@ == old(self)@.insert(
                (exchange@, trading_class@),
                old(self)@[(exchange@, trading_class@)].with_quote(strike, side, quote),
            ),
            !found ==> final(self)@ == old(self)@,
    {
        proof {
            use_type_invariant(&*self);
        }
        match self.position(exchange, trading_class) {
            Some(i) => {
                proof {
                    lemma_key_index_bounds(self.entries@, chain_key_fn(), (exchange@, trading_class@));
                }
                let mut es: Vec<ChainEntry> = Vec::new();
                std::mem::swap(&mut es, &mut self.entries);
                let ghost before = es@;
                let ghost old_entry = before[i as int];
                let mut e = es.remove(i);
                e.params.quotes.set(strike, side, quote);
                assert(e.params@ =~= old_entry.params@.with_quote(strike, side, quote));
                es.insert(i, e);
                proof {
                    assert(es@ =~= before.update(i as int, e));
                    lemma_keyed_map_update(before, chain_key_fn(), chain_value_fn(), i as int, e);
                    assert forall|a: int, b: int| 0 <= a < b < es@.len() implies (
                        #[trigger] es@[a].exchange@,
                        es@[a].trading_class@,
                    ) != (#[trigger] es@[b].exchange@, es@[b].trading_class@) by {
                        assert(before[a] == es@[a] || a == i);
                        assert(before[b] == es@[b] || b == i);
                    }
                }
                self.entries = es;
                true
            },
            None => false,
        }
    }
}

/// Everything the scanner knows from the gateway.
pub struct IBData {
    pub handshake: Option<bool>,
    pub start_api: Option<bool>,
    pub spx_options_chains: ChainBook,
    /// In cents.
    pub spx_spot_price: Option<u32>,
}

impl Default for IBData {
    fn default() -> (d: Self)
        ensures
            d.handshake is None,
            d.start_api is None,
            d.spx_options_chains@ == Map::<(Seq<char>, Seq<char>), ChainView>::empty(),
            d.spx_spot_price is None,
    {
        IBData { handshake: None, start_api: None, spx_options_chains: ChainBook::new(), spx_spot_price: None }
    }
}

/// What the scanner knows from the gateway, as values.
#[verifier::ext_equal]
pub struct DataView {
    pub handshake: Option<bool>,
    pub start_api: Option<bool>,
    pub chains: Map<(Seq<char>, Seq<char>), ChainView>,
    pub spot_price: Option<u32>,
}

impl View for IBData {
    type V = DataView;

    open spec fn view(&self) -> DataView {
        DataView {
            handshake: self.handshake,
            start_api: self.start_api,
            chains: self.spx_options_chains@,
            spot_price: self.spx_spot_price,
        }
    }
}

} // verus!

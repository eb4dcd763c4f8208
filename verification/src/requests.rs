//! The requests the scanner sends: their messages, the numbering of requests,
//! and the quotes still awaited.
use vstd::prelude::*;
use std::collections::HashMap;
use crate::decimal::decimal_text;
use crate::message::{contract_fields, Contract, Currency, IBKRMessageID, IBMessage, OptionSide};

verus! {

broadcast use vstd::std_specs::hash::group_hash_axioms;

/// The contract id of the SPX index, whose option chains are requested.
pub const SPX_CON_ID: u32 = 416904;

/// The bytes of a text given as characters.
pub open spec fn text_bytes_of(chars: Seq<char>) -> Seq<u8> {
    vstd::utf8::encode_utf8(chars)
}

/// The fields of the SPX index contract on CBOE.
pub open spec fn spx_index_contract_fields() -> Seq<Seq<u8>> {
    seq![
        Seq::empty(),
        text_bytes_of(seq!['S', 'P', 'X']),
        text_bytes_of(seq!['I', 'N', 'D']),
        Seq::empty(),
        Seq::empty(),
        Seq::empty(),
        Seq::empty(),
        text_bytes_of(seq!['C', 'B', 'O', 'E']),
        Seq::empty(),
        Currency::USD.code_bytes(),
        Seq::empty(),
        Seq::empty(),
    ]
}

/// The fields of an SPX option contract.
pub open spec fn spx_option_contract_fields(
    strike: u32,
    right: OptionSide,
    expiry: Seq<char>,
    exchange: Seq<char>,
    trading_class: Seq<char>,
) -> Seq<Seq<u8>> {
    seq![
        Seq::empty(),
        text_bytes_of(seq!['S', 'P', 'X']),
        text_bytes_of(seq!['O', 'P', 'T']),
        text_bytes_of(expiry),
        decimal_text(strike as nat),
        right.code_bytes(),
        decimal_text(100),
        text_bytes_of(exchange),
        Seq::empty(),
        Currency::USD.code_bytes(),
        Seq::empty(),
        text_bytes_of(trading_class),
    ]
}

/// The fields after the contract in a market data request: not delta-neutral, no generic
/// ticks, streaming, no regulatory snapshot, no options.
pub open spec fn market_data_tail() -> Seq<Seq<u8>> {
    seq![decimal_text(0), Seq::empty(), decimal_text(0), decimal_text(0), Seq::empty()]
}

/// Whether `m` is a message of `kind`, `version` and `fields`.
pub open spec fn is_message(
    m: IBMessage,
    kind: IBKRMessageID,
    version: Option<u32>,
    fields: Seq<Seq<u8>>,
) -> bool {
    m.kind() == kind && m.version() == version && m.fields() == fields
}

fn market_data_tail_of(m: IBMessage) -> (r: IBMessage)
    ensures
        is_message(r, m.kind(), m.version(), m.fields() + market_data_tail()),
{
    let r = m.number_field(0).empty_field().number_field(0).number_field(0).empty_field();
    assert(r.fields() =~= m.fields() + market_data_tail());
    r
}

/// The request for the market data of the SPX index, numbered `req_id`.
pub fn spx_spot_price_message(req_id: u32) -> (m: IBMessage)
    ensures
        is_message(
            m,
            IBKRMessageID::ReqMktData,
            Some(11),
            seq![decimal_text(req_id as nat)] + spx_index_contract_fields() + market_data_tail(),
        ),
{
    let contract = Contract {
        con_id: None,
        symbol: "SPX".to_owned(),
        sec_type: "IND".to_owned(),
        exchange: "CBOE".to_owned(),
        primary_exchange: None,
        currency: Currency::USD,
        last_trade_date_or_contract_month: "".to_owned(),
        strike: None,
        right: None,
        multiplier: None,
        local_symbol: None,
        trading_class: None,
    };
    proof {
        reveal_strlit("SPX");
        reveal_strlit("IND");
        reveal_strlit("CBOE");
        reveal_strlit("");
        assert(contract.last_trade_date_or_contract_month@ =~= Seq::<char>::empty());
        assert(vstd::utf8::encode_utf8(Seq::<char>::empty()) =~= Seq::<u8>::empty());
        assert(contract.symbol@ == seq!['S', 'P', 'X']);
        assert(contract.sec_type@ == seq!['I', 'N', 'D']);
        assert(contract.exchange@ == seq!['C', 'B', 'O', 'E']);
        assert(contract_fields(contract)[1] == spx_index_contract_fields()[1]);
        assert(contract_fields(contract)[3] == spx_index_contract_fields()[3]);
        assert(contract_fields(contract) =~= spx_index_contract_fields());
    }
    let m = IBMessage::default().with_id(IBKRMessageID::ReqMktData).with_version(11).number_field(
        req_id,
    ).contract(contract);
    let m = market_data_tail_of(m);
    assert(m.fields() =~= seq![decimal_text(req_id as nat)] + spx_index_contract_fields()
        + market_data_tail());
    m
}

/// The request to switch the market data to delayed quotes (type 3).
pub fn delayed_market_data_type_message() -> (m: IBMessage)
    ensures
        is_message(m, IBKRMessageID::ReqMarketDataType, Some(1), seq![decimal_text(3)]),
{
    let m = IBMessage::default().with_id(IBKRMessageID::ReqMarketDataType).with_version(1).number_field(3);
    assert(m.fields() =~= seq![decimal_text(3)]);
    m
}

/// The request for the option chain parameters of the SPX index, numbered `req_id`.
pub fn spx_options_chain_message(req_id: u32) -> (m: IBMessage)
    ensures
        is_message(
            m,
            IBKRMessageID::ReqSecDefOptParams,
            None,
            seq![
                decimal_text(req_id as nat),
                text_bytes_of(seq!['S', 'P', 'X']),
                Seq::empty(),
                text_bytes_of(seq!['I', 'N', 'D']),
                decimal_text(SPX_CON_ID as nat),
            ],
        ),
{
    let spx = "SPX";
    let ind = "IND";
    proof {
        reveal_strlit("SPX");
        reveal_strlit("IND");
        assert(spx@ == seq!['S', 'P', 'X']);
        assert(ind@ == seq!['I', 'N', 'D']);
    }
    let m = IBMessage::default().with_id(IBKRMessageID::ReqSecDefOptParams).number_field(req_id).field(
        spx,
    ).empty_field().field(ind).number_field(SPX_CON_ID);
    assert(m.fields() =~= seq![
        decimal_text(req_id as nat),
        text_bytes_of(seq!['S', 'P', 'X']),
        Seq::empty(),
        text_bytes_of(seq!['I', 'N', 'D']),
        decimal_text(SPX_CON_ID as nat),
    ]);
    m
}

/// The request, numbered `req_id`, for quotes of the SPX option of `strike` (in dollars),
/// `right` and `expiry` (`YYYYMMDD`) on `exchange` in `trading_class`.
pub fn option_quote_message(
    req_id: u32,
    strike: u32,
    right: OptionSide,
    expiry: &str,
    exchange: &str,
    trading_class: &str,
) -> (m: IBMessage)
    ensures
        is_message(
            m,
            IBKRMessageID::ReqMktData,
            Some(11),
            seq![decimal_text(req_id as nat)] + spx_option_contract_fields(
                strike,
                right,
                expiry@,
                exchange@,
                trading_class@,
            ) + market_data_tail(),
        ),
{
    let contract = Contract {
        con_id: None,
        symbol: "SPX".to_owned(),
        sec_type: "OPT".to_owned(),
        exchange: exchange.to_owned(),
        primary_exchange: None,
        currency: Currency::USD,
        last_trade_date_or_contract_month: expiry.to_owned(),
        strike: Some(strike),
        right: Some(right),
        multiplier: Some(100),
        local_symbol: None,
        trading_class: Some(trading_class.to_owned()),
    };
    proof {
        reveal_strlit("SPX");
        reveal_strlit("OPT");
        assert(contract.symbol@ == seq!['S', 'P', 'X']);
        assert(contract.sec_type@ == seq!['O', 'P', 'T']);
        assert(contract.exchange@ == exchange@);
        assert(contract.last_trade_date_or_contract_month@ == expiry@);
        assert(contract.trading_class->0@ == trading_class@);
        assert(contract_fields(contract) =~= spx_option_contract_fields(
            strike,
            right,
            expiry@,
            exchange@,
            trading_class@,
        ));
    }
    let m = IBMessage::default().with_id(IBKRMessageID::ReqMktData).with_version(11).number_field(
        req_id,
    ).contract(contract);
    let m = market_data_tail_of(m);
    assert(m.fields() =~= seq![decimal_text(req_id as nat)] + spx_option_contract_fields(
        strike,
        right,
        expiry@,
        exchange@,
        trading_class@,
    ) + market_data_tail());
    m
}

/// The request to stop the market data of request `req_id`.
pub fn cancel_market_data_message(req_id: u32) -> (m: IBMessage)
    ensures
        is_message(m, IBKRMessageID::CancelMktData, Some(2), seq![decimal_text(req_id as nat)]),
{
    let m = IBMessage::default().with_id(IBKRMessageID::CancelMktData).with_version(2).number_field(req_id);
    assert(m.fields() =~= seq![decimal_text(req_id as nat)]);
    m
}

/// The option a quote request asked for: its strike in dollars, its right, and the
/// exchange and trading class of its chain.
#[derive(Debug, Clone)]
pub struct PendingQuote {
    pub strike: u32,
    pub right: OptionSide,
    pub exchange: String,
    pub trading_class: String,
}

/// What a pending quote request asked for, as values.
pub struct PendingView {
    pub strike: u32,
    pub right: OptionSide,
    pub exchange: Seq<char>,
    pub trading_class: Seq<char>,
}

impl View for PendingQuote {
    type V = PendingView;

    open spec fn view(&self) -> PendingView {
        PendingView {
            strike: self.strike,
            right: self.right,
            exchange: self.exchange@,
            trading_class: self.trading_class@,
        }
    }
}

/// The numbering of requests and the quote requests still awaited, by request id.
pub struct RequestBook {
    next_id: u32,
    pending: HashMap<u32, PendingQuote>,
}

impl RequestBook {
    /// The id the next request gets.
    pub closed spec fn next(self) -> u32 {
        self.next_id
    }

    /// The awaited quote requests.
    pub closed spec fn awaited(self) -> Map<u32, PendingView> {
        self.pending@.map_values(|p: PendingQuote| p@)
    }

    pub fn new() -> (b: Self)
        ensures
            b.next() == 0,
            b.awaited() == Map::<u32, PendingView>::empty(),
    {
        let b = RequestBook { next_id: 0, pending: HashMap::new() };
        assert(b.awaited() =~= Map::<u32, PendingView>::empty());
        b
    }

    /// The id the next request gets.
    pub fn next_id(&self) -> (id: u32)
        ensures
            id == self.next(),
    {
        self.next_id
    }

    /// Takes the next request id.
    pub fn take_id(&mut self) -> (id: u32)
        requires
            old(self).next() < u32::MAX,
        ensures
            id == old(self).next(),
            final(self).next() == old(self).next() + 1,
            final(self).awaited() == old(self).awaited(),
    {
        let id: u32 = self.next_id;
        self.next_id = id + 1;
        id
    }

    /// Takes the next request id for a quote of `strike` (in dollars) and `right` in the
    /// chain of `exchange` and `trading_class`, and records it as awaited.
    pub fn register_quote(
        &mut self,
        strike: u32,
        right: OptionSide,
        exchange: &str,
        trading_class: &str,
    ) -> (id: u32)
        requires
            old(self).next() < u32::MAX,
        ensures
            id == old(self).next(),
            final(self).next() == old(self).next() + 1,
            final(self).awaited() == old(self).awaited().insert(
                id,
                PendingView { strike, right, exchange: exchange@, trading_class: trading_class@ },
            ),
    {
        let id: u32 = self.take_id();
        let p = PendingQuote {
            strike,
            right,
            exchange: exchange.to_owned(),
            trading_class: trading_class.to_owned(),
        };
        self.pending.insert(id, p);
        assert(self.awaited() =~= old(self).awaited().insert(
            id,
            PendingView { strike, right, exchange: exchange@, trading_class: trading_class@ },
        ));
        id
    }

    /// The quote request awaited under `id`, if any.
    pub fn pending_quote(&self, id: u32) -> (p: Option<&PendingQuote>)
        ensures
            match p {
                Some(q) => self.awaited().contains_key(id) && q@ == self.awaited()[id],
                None => !self.awaited().contains_key(id),
            },
    {
        self.pending.get(&id)
    }

    /// No longer awaits the request `id`.
    pub fn remove(&mut self, id: u32)
        ensures
            final(self).next() == old(self).next(),
            final(self).awaited() == old(self).awaited().remove(id),
    {
        self.pending.remove(&id);
        assert(self.awaited() =~= old(self).awaited().remove(id));
    }
}

} // verus!

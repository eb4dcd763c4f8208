//! What the scanner learns from the gateway's messages: price ticks of the awaited quotes
//! and of the index, and the parameters of option chains.
use vstd::prelude::*;
use vstd::utf8::is_char_boundary;
use vstd::string::StringSliceAdditionalSpecFns;
use crate::dates::{calendar_date_exists, ExpiryDate};
use crate::decimal::{i32_from_text, parse_i32, parse_u32, parse_u64, parse_usize, u32_from_text, u64_from_text, usize_from_text};
use crate::market::{ChainView, DataView, IBData, OptionChainParams, OptionQuote, QuoteBook};
use crate::requests::{PendingView, RequestBook};

verus! {

/// A field read as a price in dollars: the price in cents (rounded, and 0 below zero) and
/// whether the price is above zero.
#[derive(Debug, Clone, Copy, PartialEq, Eq, Structural)]
pub struct DecimalField {
    pub cents: u32,
    pub positive: bool,
}

/// What can be wrong with a message from the gateway.
#[derive(Debug, Clone, Copy, PartialEq, Eq, Structural)]
pub enum DataError {
    /// A field that should hold a number does not.
    InvalidNumber,
    /// An expiry names a date that does not exist.
    InvalidExpiryDate,
    /// The message ends before a field it needs, or an expiry is too short to cut.
    MissingField,
}

/// The bytes of the message kind "1", a price tick.
pub open spec fn tick_price_kind() -> Seq<u8> {
    seq![49u8]
}

/// The bytes of the message kind "75", option chain parameters.
pub open spec fn option_params_kind() -> Seq<u8> {
    seq![55u8, 53u8]
}

/// The quote after a price tick: ticks 1 and 66 set the bid, 2 and 67 the ask, with the
/// size; only ticks of a positive price count.
pub open spec fn tick_quote(q: OptionQuote, tick: i32, price: DecimalField, size: u64) -> OptionQuote {
    if price.positive {
        if tick == 1 || tick == 66 {
            OptionQuote { bid: Some(price.cents), bid_size: size, ..q }
        } else if tick == 2 || tick == 67 {
            OptionQuote { ask: Some(price.cents), ask_size: size, ..q }
        } else {
            q
        }
    } else {
        q
    }
}

/// The effect of a price tick whose fields are `fs`, given the prices `dec` that the
/// fields read as.
pub open spec fn tick_effect(
    fs: Seq<&str>,
    dec: Seq<Option<DecimalField>>,
    d: DataView,
    awaited: Map<u32, PendingView>,
) -> (Result<(), DataError>, DataView) {
    if fs.len() < 3 {
        (Err(DataError::MissingField), d)
    } else {
        match u32_from_text(fs[2].spec_bytes()) {
            None => (Err(DataError::InvalidNumber), d),
            Some(req) => if fs.len() < 4 {
                (Err(DataError::MissingField), d)
            } else {
                match i32_from_text(fs[3].spec_bytes()) {
                    None => (Err(DataError::InvalidNumber), d),
                    Some(tick) => if fs.len() < 5 {
                        (Err(DataError::MissingField), d)
                    } else {
                        match dec[4] {
                            None => (Err(DataError::InvalidNumber), d),
                            Some(price) => if awaited.contains_key(req) {
                                let p = awaited[req];
                                let key = (p.exchange, p.trading_class);
                                if d.chains.contains_key(key) {
                                    if fs.len() < 6 {
                                        (Err(DataError::MissingField), d)
                                    } else {
                                        let c = d.chains[key];
                                        let q = if c.quotes.contains_key((p.strike, p.right)) {
                                            c.quotes[(p.strike, p.right)]
                                        } else {
                                            OptionQuote::empty()
                                        };
                                        let size: u64 = match u64_from_text(fs[5].spec_bytes()) {
                                            Some(v) => v,
                                            None => 0,
                                        };
                                        (
                                            Ok(()),
                                            DataView {
                                                chains: d.chains.insert(
                                                    key,
                                                    c.with_quote(
                                                        p.strike,
                                                        p.right,
                                                        tick_quote(q, tick, price, size),
                                                    ),
                                                ),
                                                ..d
                                            },
                                        )
                                    }
                                } else {
                                    (Ok(()), d)
                                }
                            } else if tick == 75 && price.positive {
                                (Ok(()), DataView { spot_price: Some(price.cents), ..d })
                            } else {
                                (Ok(()), d)
                            },
                        }
                    },
                }
            },
        }
    }
}

/// Whether an expiry field can be cut into year (4 bytes), month (2) and day (2).
pub open spec fn expiry_cuttable(s: Seq<u8>) -> bool {
    s.len() >= 8 && is_char_boundary(s, 4) && is_char_boundary(s, 6) && is_char_boundary(s, 8)
}

/// The date an expiry field `YYYYMMDD` names.
pub open spec fn expiry_outcome(s: Seq<u8>) -> Result<ExpiryDate, DataError> {
    if !expiry_cuttable(s) {
        Err(DataError::MissingField)
    } else {
        match i32_from_text(s.subrange(0, 4)) {
            None => Err(DataError::InvalidNumber),
            Some(y) => match u32_from_text(s.subrange(4, 6)) {
                None => Err(DataError::InvalidNumber),
                Some(m) => match u32_from_text(s.subrange(6, 8)) {
                    None => Err(DataError::InvalidNumber),
                    Some(d) => if calendar_date_exists(y as int, m as int, d as int) {
                        Ok(ExpiryDate::of(y, m, d))
                    } else {
                        Err(DataError::InvalidExpiryDate)
                    },
                },
            },
        }
    }
}

/// The dates that expiry fields name, or the first failure among them.
pub open spec fn expiries_outcome(fs: Seq<&str>) -> Result<Seq<ExpiryDate>, DataError>
    decreases fs.len(),
{
    if fs.len() == 0 {
        Ok(Seq::empty())
    } else {
        match expiries_outcome(fs.drop_last()) {
            Err(e) => Err(e),
            Ok(ds) => match expiry_outcome(fs.last().spec_bytes()) {
                Err(e) => Err(e),
                Ok(dt) => Ok(ds.push(dt)),
            },
        }
    }
}

/// The strikes in cents that price fields read as, unless one does not read as a price.
pub open spec fn strikes_outcome(dec: Seq<Option<DecimalField>>) -> Option<Seq<u32>>
    decreases dec.len(),
{
    if dec.len() == 0 {
        Some(Seq::empty())
    } else {
        match (strikes_outcome(dec.drop_last()), dec.last()) {
            (Some(cs), Some(f)) => Some(cs.push(f.cents)),
            _ => None,
        }
    }
}

/// The effect of an option chain parameter message whose fields are `fs`: it replaces the
/// chain of its exchange and trading class with one of no quotes.
pub open spec fn params_effect(fs: Seq<&str>, dec: Seq<Option<DecimalField>>, d: DataView) -> (
    Result<(), DataError>,
    DataView,
) {
    if fs.len() < 4 {
        (Err(DataError::MissingField), d)
    } else {
        match u32_from_text(fs[3].spec_bytes()) {
            None => (Err(DataError::InvalidNumber), d),
            Some(con_id) => if fs.len() < 6 {
                (Err(DataError::MissingField), d)
            } else {
                match u32_from_text(fs[5].spec_bytes()) {
                    None => (Err(DataError::InvalidNumber), d),
                    Some(multiplier) => if fs.len() < 7 {
                        (Err(DataError::MissingField), d)
                    } else {
                        match usize_from_text(fs[6].spec_bytes()) {
                            None => (Err(DataError::InvalidNumber), d),
                            Some(ne) => if ne > fs.len() - 7 {
                                (Err(DataError::MissingField), d)
                            } else {
                                match expiries_outcome(fs.subrange(7, 7 + ne)) {
                                    Err(e) => (Err(e), d),
                                    Ok(dates) => if fs.len() == 7 + ne {
                                        (Err(DataError::MissingField), d)
                                    } else {
                                        match usize_from_text(fs[7 + ne].spec_bytes()) {
                                            None => (Err(DataError::InvalidNumber), d),
                                            Some(ns) => if ns + 1 > fs.len() - 7 - ne {
                                                (Err(DataError::MissingField), d)
                                            } else {
                                                match strikes_outcome(
                                                    dec.subrange(8 + ne, 8 + ne + ns),
                                                ) {
                                                    None => (Err(DataError::InvalidNumber), d),
                                                    Some(strikes) => (
                                                        Ok(()),
                                                        DataView {
                                                            chains: d.chains.insert(
                                                                (fs[2]@, fs[4]@),
                                                                ChainView {
                                                                    underlying_con_id: con_id,
                                                                    multiplier,
                                                                    expirations: dates,
                                                                    strikes,
                                                                    quotes: Map::empty(),
                                                                },
                                                            ),
                                                            ..d
                                                        },
                                                    ),
                                                }
                                            },
                                        }
                                    },
                                }
                            },
                        }
                    },
                }
            },
        }
    }
}

/// The effect of a message whose fields are `fs`: price ticks and chain parameters change
/// the data; other messages, and empty ones, change nothing.
pub open spec fn message_effect(
    fs: Seq<&str>,
    dec: Seq<Option<DecimalField>>,
    d: DataView,
    awaited: Map<u32, PendingView>,
) -> (Result<(), DataError>, DataView) {
    if fs.len() == 0 {
        (Ok(()), d)
    } else if fs[0].spec_bytes() == tick_price_kind() {
        tick_effect(fs, dec, d, awaited)
    } else if fs[0].spec_bytes() == option_params_kind() {
        params_effect(fs, dec, d)
    } else {
        (Ok(()), d)
    }
}

fn field_is(s: &str, kind: &[u8]) -> (eq: bool)
    ensures
        eq == (s.spec_bytes() == kind@),
{
    crate::message::bytes_equal(s.as_bytes(), kind)
}

/// Reads an expiry field `YYYYMMDD` as a date.
pub fn parse_expiry(s: &str) -> (res: Result<ExpiryDate, DataError>)
    ensures
        res == expiry_outcome(s.spec_bytes()),
{
    let b: &[u8] = s.as_bytes();
    if b.len() < 8 || !s.is_char_boundary(4) || !s.is_char_boundary(6) || !s.is_char_boundary(8) {
        return Err(DataError::MissingField);
    }
    let y: i32 = match parse_i32(&b[0..4]) {
        Some(v) => v,
        None => return Err(DataError::InvalidNumber),
    };
    let m: u32 = match parse_u32(&b[4..6]) {
        Some(v) => v,
        None => return Err(DataError::InvalidNumber),
    };
    let d: u32 = match parse_u32(&b[6..8]) {
        Some(v) => v,
        None => return Err(DataError::InvalidNumber),
    };
    match ExpiryDate::from_ymd(y, m, d) {
        Some(dt) => Ok(dt),
        None => Err(DataError::InvalidExpiryDate),
    }
}

fn parse_expiries(fields: &[&str], start: usize, count: usize) -> (res: Result<Vec<ExpiryDate>, DataError>)
    requires
        start + count <= fields@.len(),
    ensures
        match (res, expiries_outcome(fields@.subrange(start as int, start + count))) {
            (Ok(v), Ok(ds)) => v@ == ds,
            (Err(e), Err(f)) => e == f,
            _ => false,
        },
{
    let ghost all = fields@.subrange(start as int, start + count);
    let len: usize = fields.len();
    let mut out: Vec<ExpiryDate> = Vec::new();
    let mut i: usize = 0;
    assert(all.take(0) =~= Seq::<&str>::empty());
    while i < count
        invariant
            start + count <= fields@.len(),
            len == fields@.len(),
            all == fields@.subrange(start as int, start + count),
            0 <= i <= count,
            expiries_outcome(all.take(i as int)) == Ok::<Seq<ExpiryDate>, DataError>(out@),
        decreases count - i,
    {
        assert(all.take(i + 1).drop_last() =~= all.take(i as int));
        assert(all.take(i + 1).last() == fields@[start + i]);
        match parse_expiry(fields[start + i]) {
            Ok(dt) => out.push(dt),
            Err(e) => {
                proof {
                    lemma_expiries_err_extends(all, i + 1);
                }
                return Err(e);
            },
        }
        i = i + 1;
    }
    assert(all.take(count as int) =~= all);
    Ok(out)
}

proof fn lemma_expiries_err_extends(all: Seq<&str>, i: int)
    requires
        0 <= i <= all.len(),
        expiries_outcome(all.take(i)) is Err,
    ensures
        expiries_outcome(all) == expiries_outcome(all.take(i)),
    decreases all.len() - i,
{
    if i < all.len() {
        assert(all.take(i + 1).drop_last() =~= all.take(i));
        lemma_expiries_err_extends(all, i + 1);
    } else {
        assert(all.take(i) =~= all);
    }
}

fn collect_strikes(dec: &[Option<DecimalField>], start: usize, count: usize) -> (res: Option<Vec<u32>>)
    requires
        start + count <= dec@.len(),
    ensures
        match res {
            Some(v) => strikes_outcome(dec@.subrange(start as int, start + count)) == Some(v@),
            None => strikes_outcome(dec@.subrange(start as int, start + count)) is None,
        },
{
    let ghost all = dec@.subrange(start as int, start + count);
    let len: usize = dec.len();
    let mut out: Vec<u32> = Vec::new();
    let mut i: usize = 0;
    assert(all.take(0) =~= Seq::<Option<DecimalField>>::empty());
    while i < count
        invariant
            start + count <= dec@.len(),
            len == dec@.len(),
            all == dec@.subrange(start as int, start + count),
            0 <= i <= count,
            strikes_outcome(all.take(i as int)) == Some(out@),
        decreases count - i,
    {
        assert(all.take(i + 1).drop_last() =~= all.take(i as int));
        assert(all.take(i + 1).last() == dec@[start + i]);
        match dec[start + i] {
            Some(f) => out.push(f.cents),
            None => {
                proof {
                    lemma_strikes_none_extends(all, i + 1);
                }
                return None;
            },
        }
        i = i + 1;
    }
    assert(all.take(count as int) =~= all);
    Some(out)
}

proof fn lemma_strikes_none_extends(all: Seq<Option<DecimalField>>, i: int)
    requires
        0 <= i <= all.len(),
        strikes_outcome(all.take(i)) is None,
    ensures
        strikes_outcome(all) is None,
    decreases all.len() - i,
{
    if i < all.len() {
        assert(all.take(i + 1).drop_last() =~= all.take(i));
        lemma_strikes_none_extends(all, i + 1);
    } else {
        assert(all.take(i) =~= all);
    }
}

fn apply_tick(
    fields: &[&str],
    dec: &[Option<DecimalField>],
    data: &mut IBData,
    book: &RequestBook,
) -> (res: Result<(), DataError>)
    requires
        dec@.len() == fields@.len(),
        fields@.len() > 0,
    ensures
        (res, final(data)@) == tick_effect(fields@, dec@, old(data)@, book.awaited()),
{
    if fields.len() < 3 {
        return Err(DataError::MissingField);
    }
    let req_id: u32 = match parse_u32(fields[2].as_bytes()) {
        Some(v) => v,
        None => return Err(DataError::InvalidNumber),
    };
    if fields.len() < 4 {
        return Err(DataError::MissingField);
    }
    let tick_type: i32 = match parse_i32(fields[3].as_bytes()) {
        Some(v) => v,
        None => return Err(DataError::InvalidNumber),
    };
    if fields.len() < 5 {
        return Err(DataError::MissingField);
    }
    let price = match dec[4] {
        Some(p) => p,
        None => return Err(DataError::InvalidNumber),
    };
    match book.pending_quote(req_id) {
        Some(p) => {
            let found = data.spx_options_chains.get(p.exchange.as_str(), p.trading_class.as_str());
            match found {
                Some(chain) => {
                    if fields.len() < 6 {
                        return Err(DataError::MissingField);
                    }
                    let q0 = match chain.quotes.get(p.strike, p.right) {
                        Some(q) => q,
                        None => OptionQuote::default(),
                    };
                    let size: u64 = match parse_u64(fields[5].as_bytes()) {
                        Some(v) => v,
                        None => 0,
                    };
                    let mut q = q0;
                    if price.positive {
                        if tick_type == 1 || tick_type == 66 {
                            q.bid = Some(price.cents);
                            q.bid_size = size;
                        } else if tick_type == 2 || tick_type == 67 {
                            q.ask = Some(price.cents);
                            q.ask_size = size;
                        }
                    }
                    assert(q == tick_quote(q0, tick_type, price, size));
                    let ex = p.exchange.as_str();
                    let tc = p.trading_class.as_str();
                    data.spx_options_chains.set_quote(ex, tc, p.strike, p.right, q);
                    assert(data@ =~= tick_effect(fields@, dec@, old(data)@, book.awaited()).1);
                },
                None => {},
            }
            return Ok(());
        },
        None => {},
    }
    if tick_type == 75 && price.positive {
        data.spx_spot_price = Some(price.cents);
    }
    assert(data@ =~= tick_effect(fields@, dec@, old(data)@, book.awaited()).1);
    Ok(())
}

fn apply_params(fields: &[&str], dec: &[Option<DecimalField>], data: &mut IBData) -> (res: Result<
    (),
    DataError,
>)
    requires
        dec@.len() == fields@.len(),
        fields@.len() > 0,
    ensures
        (res, final(data)@) == params_effect(fields@, dec@, old(data)@),
{
    let n: usize = fields.len();
    if n < 4 {
        return Err(DataError::MissingField);
    }
    let con_id: u32 = match parse_u32(fields[3].as_bytes()) {
        Some(v) => v,
        None => return Err(DataError::InvalidNumber),
    };
    if n < 6 {
        return Err(DataError::MissingField);
    }
    let multiplier: u32 = match parse_u32(fields[5].as_bytes()) {
        Some(v) => v,
        None => return Err(DataError::InvalidNumber),
    };
    if n < 7 {
        return Err(DataError::MissingField);
    }
    let ne: usize = match parse_usize(fields[6].as_bytes()) {
        Some(v) => v,
        None => return Err(DataError::InvalidNumber),
    };
    if ne > n - 7 {
        return Err(DataError::MissingField);
    }
    let expirations = match parse_expiries(fields, 7, ne) {
        Ok(v) => v,
        Err(e) => return Err(e),
    };
    if n == 7 + ne {
        return Err(DataError::MissingField);
    }
    let ns: usize = match parse_usize(fields[7 + ne].as_bytes()) {
        Some(v) => v,
        None => return Err(DataError::InvalidNumber),
    };
    if ns >= n - 7 - ne {
        return Err(DataError::MissingField);
    }
    let strikes = match collect_strikes(dec, 8 + ne, ns) {
        Some(v) => v,
        None => return Err(DataError::InvalidNumber),
    };
    let params = OptionChainParams {
        underlying_con_id: con_id,
        multiplier,
        expirations,
        strikes,
        quotes: QuoteBook::new(),
    };
    let exchange = fields[2].to_owned();
    let trading_class = fields[4].to_owned();
    data.spx_options_chains.insert(exchange, trading_class, params);
    assert(data@ =~= params_effect(fields@, dec@, old(data)@).1);
    Ok(())
}

/// Applies a message from the gateway, given as its fields and as the prices that its
/// fields read as (`None` for a field that does not read as a price).
pub fn apply_ib_fields(
    fields: &[&str],
    decimals: &[Option<DecimalField>],
    data: &mut IBData,
    book: &RequestBook,
) -> (res: Result<(), DataError>)
    requires
        decimals@.len() == fields@.len(),
    ensures
        (res, final(data)@) == message_effect(fields@, decimals@, old(data)@, book.awaited()),
{
    if fields.len() == 0 {
        return Ok(());
    }
    let tick_kind: [u8; 1] = [49u8];
    let params_kind: [u8; 2] = [55u8, 53u8];
    assert(tick_kind@ =~= tick_price_kind());
    assert(params_kind@ =~= option_params_kind());
    if field_is(fields[0], tick_kind.as_slice()) {
        apply_tick(fields, decimals, data, book)
    } else if field_is(fields[0], params_kind.as_slice()) {
        apply_params(fields, decimals, data)
    } else {
        Ok(())
    }
}

} // verus!

use boxspread::data::{apply_ib_fields, parse_expiry, DataError, DecimalField};
use boxspread::dates::ExpiryDate;
use boxspread::market::{ChainBook, IBData, OptionChainParams, OptionQuote, QuoteBook};
use boxspread::message::OptionSide;
use boxspread::requests::RequestBook;
use boxspread::views::{available_dates, chain_listing, prepare_box, BoxRequestError};

fn price(f: &str) -> Option<DecimalField> {
    let p: f64 = f.parse().ok()?;
    Some(DecimalField { cents: (p * 100.0).round() as u32, positive: p > 0.0 })
}

fn apply(fields: &[&str], data: &mut IBData, book: &RequestBook) -> Result<(), DataError> {
    let dec: Vec<Option<DecimalField>> = fields.iter().map(|f| price(f)).collect();
    apply_ib_fields(fields, &dec, data, book)
}

fn chain_message() -> Vec<&'static str> {
    vec!["75", "1", "CBOE", "416904", "SPX", "100", "2", "20260917", "20261015", "3", "6400", "6500.5", "7000"]
}

#[test]
fn dates_that_exist() {
    assert!(ExpiryDate::from_ymd(2026, 9, 17).is_some());
    assert!(ExpiryDate::from_ymd(2024, 2, 29).is_some());
    assert!(ExpiryDate::from_ymd(2025, 2, 29).is_none());
    assert!(ExpiryDate::from_ymd(1900, 2, 29).is_none());
    assert!(ExpiryDate::from_ymd(2000, 2, 29).is_some());
    assert!(ExpiryDate::from_ymd(2026, 13, 1).is_none());
    assert!(ExpiryDate::from_ymd(2026, 4, 31).is_none());
    assert!(ExpiryDate::from_ymd(-4, 2, 29).is_some());
    assert!(ExpiryDate::from_ymd(400000, 1, 1).is_none());
}

#[test]
fn expiry_code_and_text() {
    let d = ExpiryDate::from_ymd(2026, 9, 7).unwrap();
    assert_eq!(d.to_text(), "2026-09-07");
    assert_eq!(d.expiry_code(), "20260907");
    let d = ExpiryDate::from_ymd(-5, 1, 2).unwrap();
    assert_eq!(d.to_text(), "-0005-01-02");
    assert_eq!(d.expiry_code(), "00050102");
}

#[test]
fn days_between_dates() {
    let a = ExpiryDate::from_ymd(2026, 9, 6).unwrap();
    let b = ExpiryDate::from_ymd(2026, 9, 17).unwrap();
    assert_eq!(a.days_until(&b), 11);
    assert_eq!(b.days_until(&a), -11);
    let c = ExpiryDate::from_ymd(2014, 1, 1).unwrap();
    let d = ExpiryDate::from_ymd(1614, 1, 1).unwrap();
    assert_eq!(d.days_until(&c), 365 * 400 + 97);
}

#[test]
fn expiry_fields_read_as_dates() {
    assert_eq!(parse_expiry("20260917"), Ok(ExpiryDate::from_ymd(2026, 9, 17).unwrap()));
    assert_eq!(parse_expiry("20260917xyz"), Ok(ExpiryDate::from_ymd(2026, 9, 17).unwrap()));
    assert_eq!(parse_expiry("20260231"), Err(DataError::InvalidExpiryDate));
    assert_eq!(parse_expiry("2026a917"), Err(DataError::InvalidNumber));
    assert_eq!(parse_expiry("2026091"), Err(DataError::MissingField));
    assert_eq!(parse_expiry("202é0917"), Err(DataError::MissingField));
    assert_eq!(parse_expiry("2026é917"), Err(DataError::InvalidNumber));
}

#[test]
fn quote_book_read_back() {
    let mut b = QuoteBook::new();
    assert_eq!(b.get(7000, OptionSide::Call), None);
    let q = OptionQuote { bid: Some(1), ..OptionQuote::default() };
    b.set(7000, OptionSide::Call, q);
    assert_eq!(b.get(7000, OptionSide::Call), Some(q));
    assert_eq!(b.get(7000, OptionSide::Put), None);
    let q2 = OptionQuote { ask: Some(3), ..q };
    b.set(7000, OptionSide::Call, q2);
    assert_eq!(b.get(7000, OptionSide::Call), Some(q2));
    assert_eq!(b.entries().len(), 1);
}

#[test]
fn chain_book_replaces_and_sets_quotes() {
    let mut b = ChainBook::new();
    let p = OptionChainParams { underlying_con_id: 1, multiplier: 100, expirations: vec![], strikes: vec![1], quotes: QuoteBook::new() };
    b.insert("CBOE".to_string(), "SPX".to_string(), p);
    assert!(b.set_quote("CBOE", "SPX", 7000, OptionSide::Put, OptionQuote::default()));
    assert!(!b.set_quote("CBOE", "SPXW", 7000, OptionSide::Put, OptionQuote::default()));
    assert!(b.get("CBOE", "SPX").unwrap().quotes.get(7000, OptionSide::Put).is_some());
    let p2 = OptionChainParams { underlying_con_id: 2, multiplier: 100, expirations: vec![], strikes: vec![], quotes: QuoteBook::new() };
    b.insert("CBOE".to_string(), "SPX".to_string(), p2);
    let c = b.get("CBOE", "SPX").unwrap();
    assert_eq!(c.underlying_con_id, 2);
    assert!(c.quotes.get(7000, OptionSide::Put).is_none());
    assert!(b.get("SMART", "SPX").is_none());
}

#[test]
fn option_chain_message_records_a_chain() {
    let mut data = IBData::default();
    let book = RequestBook::new();
    assert_eq!(apply(&chain_message(), &mut data, &book), Ok(()));
    let c = data.spx_options_chains.get("CBOE", "SPX").unwrap();
    assert_eq!(c.underlying_con_id, 416904);
    assert_eq!(c.multiplier, 100);
    assert_eq!(c.expirations, vec![ExpiryDate::from_ymd(2026, 9, 17).unwrap(), ExpiryDate::from_ymd(2026, 10, 15).unwrap()]);
    assert_eq!(c.strikes, vec![640000, 650050, 700000]);
}

#[test]
fn malformed_chain_messages() {
    let book = RequestBook::new();
    let mut data = IBData::default();
    let mut m = chain_message();
    m[3] = "x";
    assert_eq!(apply(&m, &mut data, &book), Err(DataError::InvalidNumber));
    let mut m = chain_message();
    m[7] = "20260230";
    assert_eq!(apply(&m, &mut data, &book), Err(DataError::InvalidExpiryDate));
    let mut m = chain_message();
    m[11] = "abc";
    assert_eq!(apply(&m, &mut data, &book), Err(DataError::InvalidNumber));
    let mut m = chain_message();
    m[9] = "4";
    assert_eq!(apply(&m, &mut data, &book), Err(DataError::MissingField));
    assert_eq!(apply(&["75", "1", "CBOE"], &mut data, &book), Err(DataError::MissingField));
    assert!(data.spx_options_chains.get("CBOE", "SPX").is_none());
}

#[test]
fn ticks_fill_awaited_quotes() {
    let mut data = IBData::default();
    let mut book = RequestBook::new();
    apply(&chain_message(), &mut data, &book).unwrap();
    let id = book.register_quote(7000, OptionSide::Call, "CBOE", "SPX");
    let id_text = id.to_string();
    apply(&["1", "6", &id_text, "1", "12.34", "5"], &mut data, &book).unwrap();
    apply(&["1", "6", &id_text, "67", "12.5", "3"], &mut data, &book).unwrap();
    let q = data.spx_options_chains.get("CBOE", "SPX").unwrap().quotes.get(7000, OptionSide::Call).unwrap();
    assert_eq!((q.bid, q.bid_size, q.ask, q.ask_size), (Some(1234), 5, Some(1250), 3));
    // a tick of a non-positive price records the quote entry but no price
    let id2 = book.register_quote(7000, OptionSide::Put, "CBOE", "SPX");
    apply(&["1", "6", &id2.to_string(), "1", "-1", "5"], &mut data, &book).unwrap();
    let q = data.spx_options_chains.get("CBOE", "SPX").unwrap().quotes.get(7000, OptionSide::Put).unwrap();
    assert_eq!(q, OptionQuote::default());
    // an unreadable size counts as 0
    apply(&["1", "6", &id2.to_string(), "2", "3", "x"], &mut data, &book).unwrap();
    let q = data.spx_options_chains.get("CBOE", "SPX").unwrap().quotes.get(7000, OptionSide::Put).unwrap();
    assert_eq!((q.ask, q.ask_size), (Some(300), 0));
    assert!(data.spx_spot_price.is_none());
}

#[test]
fn spot_ticks_set_the_spot_price() {
    let mut data = IBData::default();
    let book = RequestBook::new();
    apply(&["1", "6", "0", "75", "7000.12"], &mut data, &book).unwrap();
    assert_eq!(data.spx_spot_price, Some(700012));
    apply(&["1", "6", "0", "75", "0"], &mut data, &book).unwrap();
    assert_eq!(data.spx_spot_price, Some(700012));
    apply(&["1", "6", "0", "4", "1"], &mut data, &book).unwrap();
    assert_eq!(data.spx_spot_price, Some(700012));
}

#[test]
fn malformed_ticks() {
    let mut data = IBData::default();
    let book = RequestBook::new();
    assert_eq!(apply(&["1", "6", "x", "75", "1"], &mut data, &book), Err(DataError::InvalidNumber));
    assert_eq!(apply(&["1", "6", "0", "75", "x"], &mut data, &book), Err(DataError::InvalidNumber));
    assert_eq!(apply(&["1", "6", "0"], &mut data, &book), Err(DataError::MissingField));
    assert_eq!(apply(&["1", "6", "x"], &mut data, &book), Err(DataError::InvalidNumber));
    assert_eq!(apply(&[], &mut data, &book), Ok(()));
    assert_eq!(apply(&["4", "2"], &mut data, &book), Ok(()));
    assert!(data.spx_spot_price.is_none());
}

#[test]
fn tick_for_awaited_quote_needs_its_size_field() {
    let mut data = IBData::default();
    let mut book = RequestBook::new();
    apply(&chain_message(), &mut data, &book).unwrap();
    let id = book.register_quote(7000, OptionSide::Call, "CBOE", "SPX");
    assert_eq!(apply(&["1", "6", &id.to_string(), "1", "2"], &mut data, &book), Err(DataError::MissingField));
    let id2 = book.register_quote(7000, OptionSide::Call, "SMART", "SPX");
    assert_eq!(apply(&["1", "6", &id2.to_string(), "1", "2"], &mut data, &book), Ok(()));
}

#[test]
fn listings_by_exchange_and_class() {
    let mut data = IBData::default();
    let book = RequestBook::new();
    apply(&chain_message(), &mut data, &book).unwrap();
    let listing = chain_listing(&data);
    assert_eq!(listing.len(), 1);
    assert_eq!(listing[0].0, "CBOE,SPX");
    assert_eq!(listing[0].1.strikes, vec![640000, 650050, 700000]);
    let today = ExpiryDate::from_ymd(2026, 9, 6).unwrap();
    let dates = available_dates(&data, &today);
    assert_eq!(dates[0].0, "CBOE,SPX");
    assert_eq!(dates[0].1, vec![(ExpiryDate::from_ymd(2026, 9, 17).unwrap(), 11), (ExpiryDate::from_ymd(2026, 10, 15).unwrap(), 39)]);
}

#[test]
fn first_candidate_of_a_request() {
    let mut data = IBData::default();
    let book = RequestBook::new();
    let d = ExpiryDate::from_ymd(2026, 9, 17).unwrap();
    assert_eq!(prepare_box(&data, 10_000_000, d, "CBOE", "SPX").err(), Some(BoxRequestError::NoSpotPrice));
    data.spx_spot_price = Some(700_012);
    assert_eq!(prepare_box(&data, 10_000_000, d, "CBOE", "SPX").err(), Some(BoxRequestError::NoChain));
    apply(&["75", "1", "CBOE", "416904", "SPX", "100", "0", "0"], &mut data, &book).unwrap();
    assert_eq!(prepare_box(&data, 10_000_000, d, "CBOE", "SPX").err(), Some(BoxRequestError::NoStrikes));
    apply(&["75", "1", "CBOE", "416904", "SPX", "100", "0", "2", "7000", "8000"], &mut data, &book).unwrap();
    let s = prepare_box(&data, 10_000_000, d, "CBOE", "SPX").unwrap();
    assert_eq!(s.legs.map(|l| l.strike), [700000, 800000, 800000, 700000]);
    assert_eq!((s.intended_loan, s.date), (10_000_000, d));
    data.spx_spot_price = Some(4_000_000_000);
    assert_eq!(prepare_box(&data, 10_000_000, d, "CBOE", "SPX").err(), Some(BoxRequestError::PlacementOverflow));
}

#[test]
fn request_ids_are_handed_out_in_order() {
    let mut book = RequestBook::new();
    let a = book.register_quote(7000, OptionSide::Call, "CBOE", "SPX");
    let b = book.register_quote(7000, OptionSide::Put, "CBOE", "SPX");
    let c = book.take_id();
    assert_eq!((a, b, c), (0, 1, 2));
    assert_eq!(book.next_id(), 3);
    // the later request does not replace the earlier one
    assert_eq!(book.pending_quote(a).unwrap().right, OptionSide::Call);
    assert_eq!(book.pending_quote(b).unwrap().right, OptionSide::Put);
    assert!(book.pending_quote(c).is_none());
    book.remove(a);
    assert!(book.pending_quote(a).is_none());
    assert!(book.pending_quote(b).is_some());
}

#[test]
fn a_chain_reported_twice_is_listed_once() {
    let mut data = IBData::default();
    let book = RequestBook::new();
    apply(&chain_message(), &mut data, &book).unwrap();
    apply(&chain_message(), &mut data, &book).unwrap();
    assert_eq!(chain_listing(&data).len(), 1);
    let today = ExpiryDate::from_ymd(2026, 9, 6).unwrap();
    assert_eq!(available_dates(&data, &today).len(), 1);
    assert_eq!(data.spx_options_chains.entries().len(), 1);
}

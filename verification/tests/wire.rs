use boxspread::decimal::{decimal_bytes, parse_i32, parse_u32, parse_u64, parse_usize};
use boxspread::message::{
    announced_payload_length, frame_payload, is_start_api_accepted, parse_message, Contract,
    Currency, IBKRMessageID, IBMessage, MessageError, OptionSide,
};
use boxspread::requests::{
    cancel_market_data_message, delayed_market_data_type_message, option_quote_message,
    spx_options_chain_message, spx_spot_price_message, RequestBook,
};

#[test]
fn unsigned_numbers_read_as_rust_reads_them() {
    assert_eq!(parse_u32(b"123"), Some(123));
    assert_eq!(parse_u32(b"+7"), Some(7));
    assert_eq!(parse_u32(b"007"), Some(7));
    assert_eq!(parse_u32(b"4294967295"), Some(u32::MAX));
    assert_eq!(parse_u32(b"4294967296"), None);
    assert_eq!(parse_u32(b"-1"), None);
    assert_eq!(parse_u32(b""), None);
    assert_eq!(parse_u32(b"+"), None);
    assert_eq!(parse_u32(b"12a"), None);
    assert_eq!(parse_u64(b"18446744073709551615"), Some(u64::MAX));
    assert_eq!(parse_usize(b"42"), Some(42));
    for s in ["0", "1", "99", "4294967295", "4294967296", "+3", "-3", "", "x"] {
        assert_eq!(parse_u32(s.as_bytes()), s.parse::<u32>().ok(), "{s}");
    }
}

#[test]
fn signed_numbers_read_as_rust_reads_them() {
    assert_eq!(parse_i32(b"-2147483648"), Some(i32::MIN));
    assert_eq!(parse_i32(b"2147483647"), Some(i32::MAX));
    assert_eq!(parse_i32(b"2147483648"), None);
    assert_eq!(parse_i32(b"-2147483649"), None);
    assert_eq!(parse_i32(b"-0"), Some(0));
    assert_eq!(parse_i32(b"-"), None);
    for s in ["75", "-75", "+75", "2026", "-", "--1", "1-"] {
        assert_eq!(parse_i32(s.as_bytes()), s.parse::<i32>().ok(), "{s}");
    }
}

#[test]
fn decimal_text_of_numbers() {
    assert_eq!(decimal_bytes(0), b"0".to_vec());
    assert_eq!(decimal_bytes(416904), b"416904".to_vec());
    assert_eq!(decimal_bytes(u64::MAX), u64::MAX.to_string().into_bytes());
}

#[test]
fn wire_ids_of_requests() {
    assert_eq!(IBKRMessageID::StartApi.into_wire_id(), 71);
    assert_eq!(IBKRMessageID::ReqMktData.into_wire_id(), 1);
    assert_eq!(IBKRMessageID::CancelMktData.into_wire_id(), 2);
    assert_eq!(IBKRMessageID::ReqMarketDataType.into_wire_id(), 59);
    assert_eq!(IBKRMessageID::ReqSecDefOptParams.into_wire_id(), 78);
}

#[test]
fn handshake_bytes() {
    assert_eq!(IBMessage::handshake(), b"API\0\0\0\0\x09v100..176".to_vec());
}

#[test]
fn start_api_request_bytes() {
    assert_eq!(IBMessage::start_api_bytes(5), b"71\x002\x005\x00\x00".to_vec());
}

#[test]
fn message_bytes_with_and_without_version() {
    let m = IBMessage::default().with_id(IBKRMessageID::CancelMktData).with_version(2).field("7");
    assert_eq!(m.into_bytes(), b"2\x002\x007\x00".to_vec());
    let m = IBMessage::default().with_id(IBKRMessageID::ReqSecDefOptParams).field("a").empty_field();
    assert_eq!(m.into_bytes(), b"78\x00a\x00\x00".to_vec());
    assert_eq!(IBMessage::default().into_bytes(), b"71\x00".to_vec());
}

#[test]
fn contract_fields_in_wire_order() {
    let c = Contract {
        con_id: Some("9".to_string()),
        symbol: "SPX".to_string(),
        sec_type: "OPT".to_string(),
        exchange: "CBOE".to_string(),
        primary_exchange: None,
        currency: Currency::USD,
        last_trade_date_or_contract_month: "20260917".to_string(),
        strike: Some(7000),
        right: Some(OptionSide::Put),
        multiplier: Some(100),
        local_symbol: None,
        trading_class: Some("SPXW".to_string()),
    };
    let bytes = IBMessage::default().with_id(IBKRMessageID::ReqMktData).contract(c).into_bytes();
    assert_eq!(
        bytes,
        b"1\x009\x00SPX\x00OPT\x0020260917\x007000\x00P\x00100\x00CBOE\x00\x00USD\x00\x00SPXW\x00".to_vec()
    );
    let d = Contract::default();
    let bytes = IBMessage::default().contract(d).into_bytes();
    assert_eq!(bytes, b"71\x00\x00\x00\x00\x00\x00\x00\x00\x00\x00USD\x00\x00\x00".to_vec());
}

#[test]
fn codes_of_sides_and_currency() {
    assert_eq!(OptionSide::Call.as_str(), "C");
    assert_eq!(OptionSide::Put.as_str(), "P");
    assert_eq!(Currency::USD.as_str(), "USD");
    assert_eq!(OptionSide::default(), OptionSide::Call);
}

#[test]
fn received_message_splits_into_nonempty_fields() {
    assert_eq!(parse_message(b"\x001\x00\x00abc\x00").unwrap(), vec!["1", "abc"]);
    assert_eq!(parse_message(b"9\x002\x00tail").unwrap(), vec!["9", "2", "tail"]);
    assert!(parse_message(b"").unwrap().is_empty());
    assert!(parse_message(b"\x00\x00").unwrap().is_empty());
}

#[test]
fn invalid_utf8_field_is_an_error() {
    assert_eq!(parse_message(b"1\x00\xff\xfe\x00"), Err(MessageError::InvalidUtf8));
    assert_eq!(parse_message(b"\xc3"), Err(MessageError::InvalidUtf8));
    assert_eq!(parse_message("é\0".as_bytes()).unwrap(), vec!["é"]);
}

#[test]
fn encoded_request_reads_back_as_its_fields() {
    let m = IBMessage::default().with_id(IBKRMessageID::ReqMktData).with_version(11).field("SPX").empty_field().field("x");
    let bytes = m.into_bytes();
    assert_eq!(parse_message(&bytes).unwrap(), vec!["1", "11", "SPX", "x"]);
}

#[test]
fn start_api_acceptance() {
    assert!(is_start_api_accepted(&["9", "1"]));
    assert!(!is_start_api_accepted(&["15", "9"]));
    assert!(!is_start_api_accepted(&[]));
    assert!(!is_start_api_accepted(&["99"]));
}

#[test]
fn frames_carry_their_length() {
    let f = frame_payload(b"abc");
    assert_eq!(f, b"\x00\x00\x00\x03abc".to_vec());
    let mut header = [0u8; 4];
    header.copy_from_slice(&f[..4]);
    assert_eq!(announced_payload_length(&header), 3);
    let big = vec![7u8; 70000];
    let f = frame_payload(&big);
    assert_eq!(&f[..4], &70000u32.to_be_bytes());
    assert_eq!(announced_payload_length(&[0, 1, 0x11, 0x70]), 70000);
}

#[test]
fn negative_frame_length_wraps_as_a_cast_does() {
    assert_eq!(announced_payload_length(&[0xff, 0xff, 0xff, 0xff]), (-1i32) as usize);
    assert_eq!(announced_payload_length(&[0x80, 0, 0, 0]), i32::MIN as usize);
}

#[test]
fn spot_price_request_bytes() {
    let bytes = spx_spot_price_message(3).into_bytes();
    assert_eq!(
        bytes,
        b"1\x0011\x003\x00\x00SPX\x00IND\x00\x00\x00\x00\x00CBOE\x00\x00USD\x00\x00\x000\x00\x000\x000\x00\x00".to_vec()
    );
}

#[test]
fn delayed_data_and_cancel_request_bytes() {
    assert_eq!(delayed_market_data_type_message().into_bytes(), b"59\x001\x003\x00".to_vec());
    assert_eq!(cancel_market_data_message(12).into_bytes(), b"2\x002\x0012\x00".to_vec());
}

#[test]
fn option_chain_request_bytes() {
    assert_eq!(
        spx_options_chain_message(1).into_bytes(),
        b"78\x001\x00SPX\x00\x00IND\x00416904\x00".to_vec()
    );
}

#[test]
fn option_quote_request_bytes() {
    let bytes = option_quote_message(4, 7000, OptionSide::Call, "20260917", "CBOE", "SPX").into_bytes();
    assert_eq!(
        bytes,
        b"1\x0011\x004\x00\x00SPX\x00OPT\x0020260917\x007000\x00C\x00100\x00CBOE\x00\x00USD\x00\x00SPX\x000\x00\x000\x000\x00\x00".to_vec()
    );
}

#[test]
fn request_ids_count_up_and_quotes_are_awaited() {
    let mut book = RequestBook::new();
    assert_eq!(book.next_id(), 0);
    assert_eq!(book.take_id(), 0);
    let id = book.register_quote(7000, OptionSide::Put, "CBOE", "SPX");
    assert_eq!(id, 1);
    assert_eq!(book.next_id(), 2);
    let p = book.pending_quote(1).unwrap();
    assert_eq!((p.strike, p.right, p.exchange.as_str(), p.trading_class.as_str()), (7000, OptionSide::Put, "CBOE", "SPX"));
    assert!(book.pending_quote(0).is_none());
    book.remove(1);
    assert!(book.pending_quote(1).is_none());
    assert_eq!(book.next_id(), 2);
}

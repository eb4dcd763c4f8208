//! The gateway's wire format: requests are null-terminated text fields,
//! and every message travels behind a four-byte big-endian length.
use vstd::prelude::*;
use vstd::utf8::*;
use vstd::string::*;
use crate::decimal::{decimal_bytes, decimal_text};

verus! {

// ----------------------------------------------------------------------------
// Field encoding
// ----------------------------------------------------------------------------

/// The bytes of a list of fields, each followed by a zero byte.
pub open spec fn encode_fields(fs: Seq<Seq<u8>>) -> Seq<u8>
    decreases fs.len(),
{
    if fs.len() == 0 {
        Seq::empty()
    } else {
        encode_fields(fs.drop_last()) + fs.last() + seq![0u8]
    }
}

/// The pieces of `b` between zero bytes, empty pieces included, as `[u8]::split` gives them.
pub open spec fn split_at_zeros(b: Seq<u8>) -> Seq<Seq<u8>>
    decreases b.len(),
{
    if b.len() == 0 {
        seq![Seq::empty()]
    } else {
        let rest = split_at_zeros(b.drop_last());
        if b.last() == 0 {
            rest.push(Seq::empty())
        } else {
            rest.update(rest.len() - 1, rest.last().push(b.last()))
        }
    }
}

/// The fields of a list of pieces that are not empty, in order.
pub open spec fn nonempty_fields(segs: Seq<Seq<u8>>) -> Seq<Seq<u8>>
    decreases segs.len(),
{
    if segs.len() == 0 {
        Seq::empty()
    } else {
        let rest = nonempty_fields(segs.drop_last());
        if segs.last().len() > 0 {
            rest.push(segs.last())
        } else {
            rest
        }
    }
}

/// The fields that a received message holds: its non-empty zero-free pieces.
pub open spec fn message_fields(b: Seq<u8>) -> Seq<Seq<u8>> {
    nonempty_fields(split_at_zeros(b))
}

/// Encoding one more field appends it and its zero byte.
pub proof fn lemma_encode_fields_push(fs: Seq<Seq<u8>>, x: Seq<u8>)
    ensures
        encode_fields(fs.push(x)) == encode_fields(fs) + x + seq![0u8],
{
    assert(fs.push(x).drop_last() =~= fs);
}

/// Whether no field holds a zero byte.
pub open spec fn zero_free(fs: Seq<Seq<u8>>) -> bool {
    forall|i: int, j: int| 0 <= i < fs.len() && 0 <= j < fs[i].len() ==> #[trigger] fs[i][j] != 0u8
}

/// The big-endian bytes of a `u32`.
pub open spec fn be_bytes(n: u32) -> Seq<u8> {
    seq![(n / 0x100_0000) as u8, ((n / 0x1_0000) % 0x100) as u8, ((n / 0x100) % 0x100) as u8, (n % 0x100) as u8]
}

/// The unsigned value of four big-endian bytes.
pub open spec fn be_value(b: Seq<u8>) -> int {
    b[0] * 0x100_0000 + b[1] * 0x1_0000 + b[2] * 0x100 + b[3]
}

/// The length a frame header announces: the bytes read as an `i32`, then taken as a `usize`
/// (a negative length wraps around, as `as usize` does).
pub open spec fn announced_length(b: Seq<u8>) -> int {
    if be_value(b) < 0x8000_0000 {
        be_value(b)
    } else {
        be_value(b) - 0x1_0000_0000 + usize::MAX + 1
    }
}

/// The bytes of the opening handshake: `API\0`, the length of the version range, the range.
pub open spec fn handshake_bytes() -> Seq<u8> {
    seq![65u8, 80u8, 73u8, 0u8, 0u8, 0u8, 0u8, 9u8,
        118u8, 49u8, 48u8, 48u8, 46u8, 46u8, 49u8, 55u8, 54u8]
}

// ----------------------------------------------------------------------------
// Message kinds and their parts
// ----------------------------------------------------------------------------

/// The requests that the scanner sends to the gateway.
#[derive(Debug, Clone, Copy, PartialEq, Eq, Hash, Structural)]
pub enum IBKRMessageID {
    StartApi,
    ReqMktData,
    CancelMktData,
    ReqMarketDataType,
    ReqSecDefOptParams,
}

impl IBKRMessageID {
    /// The number that identifies the request on the wire.
    pub open spec fn wire_id(self) -> u32 {
        match self {
            IBKRMessageID::StartApi => 71,
            IBKRMessageID::ReqMktData => 1,
            IBKRMessageID::CancelMktData => 2,
            IBKRMessageID::ReqMarketDataType => 59,
            IBKRMessageID::ReqSecDefOptParams => 78,
        }
    }

    pub fn into_wire_id(self) -> (id: u32)
        ensures
            id == self.wire_id(),
    {
        match self {
            IBKRMessageID::StartApi => 71,
            IBKRMessageID::ReqMktData => 1,
            IBKRMessageID::CancelMktData => 2,
            IBKRMessageID::ReqMarketDataType => 59,
            IBKRMessageID::ReqSecDefOptParams => 78,
        }
    }
}

impl Default for IBKRMessageID {
    fn default() -> (id: Self)
        ensures
            id == IBKRMessageID::StartApi,
    {
        IBKRMessageID::StartApi
    }
}

/// The right of an option: call or put.
#[derive(Debug, Clone, Copy, PartialEq, Eq, Hash, Structural)]
pub enum OptionSide {
    Call,
    Put,
}

impl OptionSide {
    /// The letter that names the right on the wire.
    pub open spec fn code(self) -> Seq<char> {
        match self {
            OptionSide::Call => seq!['C'],
            OptionSide::Put => seq!['P'],
        }
    }

    /// The byte of that letter.
    pub open spec fn code_bytes(self) -> Seq<u8> {
        match self {
            OptionSide::Call => seq![67u8],
            OptionSide::Put => seq![80u8],
        }
    }

    /// The letter that names the right (`C` or `P`).
    pub fn as_str(&self) -> (s: &'static str)
        ensures
            s@ == self.code(),
    {
        match self {
            OptionSide::Call => {
                let s = "C";
                proof {
                    reveal_strlit("C");
                }
                s
            },
            OptionSide::Put => {
                let s = "P";
                proof {
                    reveal_strlit("P");
                }
                s
            },
        }
    }
}

impl Default for OptionSide {
    fn default() -> (s: Self)
        ensures
            s == OptionSide::Call,
    {
        OptionSide::Call
    }
}

/// The currency of a contract.
#[derive(Debug, Clone, Copy, PartialEq, Eq, Structural)]
pub enum Currency {
    USD,
}

impl Currency {
    /// The code of the currency on the wire.
    pub open spec fn code(self) -> Seq<char> {
        seq!['U', 'S', 'D']
    }

    /// The bytes of that code.
    pub open spec fn code_bytes(self) -> Seq<u8> {
        seq![85u8, 83u8, 68u8]
    }

    /// The code of the currency (`USD`).
    pub fn as_str(&self) -> (s: &'static str)
        ensures
            s@ == self.code(),
    {
        let s = "USD";
        proof {
            reveal_strlit("USD");
        }
        s
    }
}

impl Default for Currency {
    fn default() -> (c: Self)
        ensures
            c == Currency::USD,
    {
        Currency::USD
    }
}

/// The description of an instrument, as a request names it.
#[derive(Debug, Clone)]
pub struct Contract {
    pub con_id: Option<String>,
    pub symbol: String,
    pub sec_type: String,
    pub exchange: String,
    pub primary_exchange: Option<String>,
    pub currency: Currency,
    pub last_trade_date_or_contract_month: String,
    pub strike: Option<u32>,
    pub right: Option<OptionSide>,
    pub multiplier: Option<u32>,
    pub local_symbol: Option<String>,
    pub trading_class: Option<String>,
}

impl Default for Contract {
    fn default() -> (c: Self)
        ensures
            c.con_id is None,
            c.symbol@ == Seq::<char>::empty(),
            c.sec_type@ == Seq::<char>::empty(),
            c.exchange@ == Seq::<char>::empty(),
            c.primary_exchange is None,
            c.currency == Currency::USD,
            c.last_trade_date_or_contract_month@ == Seq::<char>::empty(),
            c.strike is None,
            c.right is None,
            c.multiplier is None,
            c.local_symbol is None,
            c.trading_class is None,
    {
        Contract {
            con_id: None,
            symbol: String::new(),
            sec_type: String::new(),
            exchange: String::new(),
            primary_exchange: None,
            currency: Currency::USD,
            last_trade_date_or_contract_month: String::new(),
            strike: None,
            right: None,
            multiplier: None,
            local_symbol: None,
            trading_class: None,
        }
    }
}

/// The bytes of an optional text, empty where there is none.
pub open spec fn optional_text_bytes(o: Option<String>) -> Seq<u8> {
    match o {
        Some(s) => encode_utf8(s@),
        None => Seq::empty(),
    }
}

/// The bytes of an optional number, empty where there is none.
pub open spec fn optional_number_bytes(o: Option<u32>) -> Seq<u8> {
    match o {
        Some(n) => decimal_text(n as nat),
        None => Seq::empty(),
    }
}

/// The twelve fields that describe a contract in a request, in wire order.
pub open spec fn contract_fields(c: Contract) -> Seq<Seq<u8>> {
    seq![
        optional_text_bytes(c.con_id),
        encode_utf8(c.symbol@),
        encode_utf8(c.sec_type@),
        encode_utf8(c.last_trade_date_or_contract_month@),
        optional_number_bytes(c.strike),
        match c.right {
            Some(r) => r.code_bytes(),
            None => Seq::empty(),
        },
        optional_number_bytes(c.multiplier),
        encode_utf8(c.exchange@),
        optional_text_bytes(c.primary_exchange),
        c.currency.code_bytes(),
        optional_text_bytes(c.local_symbol),
        optional_text_bytes(c.trading_class),
    ]
}

// ----------------------------------------------------------------------------
// Byte helpers
// ----------------------------------------------------------------------------

/// Appends the bytes of `src` to `dst`.
fn append_bytes(dst: &mut Vec<u8>, src: &[u8])
    ensures
        final(dst)@ == old(dst)@ + src@,
{
    let mut i: usize = 0;
    while i < src.len()
        invariant
            0 <= i <= src@.len(),
            dst@ == old(dst)@ + src@.take(i as int),
        decreases src@.len() - i,
    {
        dst.push(src[i]);
        i = i + 1;
        assert(dst@ =~= old(dst)@ + src@.take(i as int));
    }
    assert(src@.take(i as int) =~= src@);
}

/// The bytes of a text.
fn text_bytes(s: &str) -> (v: Vec<u8>)
    ensures
        v@ == s.spec_bytes(),
{
    let mut v: Vec<u8> = Vec::new();
    append_bytes(&mut v, s.as_bytes());
    assert(v@ =~= s.spec_bytes());
    v
}

/// The bytes of an optional text, empty where there is none.
fn optional_text(o: Option<String>) -> (v: Vec<u8>)
    ensures
        v@ == optional_text_bytes(o),
{
    match o {
        Some(s) => text_bytes(s.as_str()),
        None => Vec::new(),
    }
}

/// The decimal text of an optional number, empty where there is none.
fn optional_number(o: Option<u32>) -> (v: Vec<u8>)
    ensures
        v@ == optional_number_bytes(o),
{
    match o {
        Some(n) => decimal_bytes(n as u64),
        None => Vec::new(),
    }
}

/// Whether two byte strings are equal.
pub fn bytes_equal(a: &[u8], b: &[u8]) -> (eq: bool)
    ensures
        eq == (a@ == b@),
{
    if a.len() != b.len() {
        return false;
    }
    let mut i: usize = 0;
    while i < a.len()
        invariant
            a@.len() == b@.len(),
            0 <= i <= a@.len(),
            a@.take(i as int) == b@.take(i as int),
        decreases a@.len() - i,
    {
        if a[i] != b[i] {
            assert(a@[i as int] != b@[i as int]);
            return false;
        }
        i = i + 1;
        assert(a@.take(i as int) =~= b@.take(i as int));
    }
    assert(a@ =~= a@.take(i as int));
    assert(b@ =~= b@.take(i as int));
    true
}

/// Whether two texts are equal.
pub fn text_equal(a: &str, b: &str) -> (eq: bool)
    ensures
        eq == (a@ == b@),
{
    let r = bytes_equal(a.as_bytes(), b.as_bytes());
    proof {
        broadcast use vstd::utf8::encode_utf8_decode_utf8;

        if r {
            assert(decode_utf8(encode_utf8(a@)) == decode_utf8(encode_utf8(b@)));
        }
    }
    r
}

/// Appends a field and its terminating zero byte to `buf`.
fn push_field(buf: &mut Vec<u8>, value: &[u8])
    ensures
        final(buf)@ == old(buf)@ + value@ + seq![0u8],
{
    append_bytes(buf, value);
    buf.push(0);
}

// ----------------------------------------------------------------------------
// Outgoing messages
// ----------------------------------------------------------------------------

/// A request under construction: its kind, its optional version and its other fields.
#[derive(Debug, Clone)]
pub struct IBMessage {
    id: IBKRMessageID,
    version: Option<u32>,
    fields: Vec<Vec<u8>>,
}

impl Default for IBMessage {
    fn default() -> (m: Self)
        ensures
            m.kind() == IBKRMessageID::StartApi,
            m.version() is None,
            m.fields() == Seq::<Seq<u8>>::empty(),
    {
        let m = IBMessage { id: IBKRMessageID::StartApi, version: None, fields: Vec::new() };
        assert(m.fields() =~= Seq::<Seq<u8>>::empty());
        m
    }
}

impl IBMessage {
    /// The kind of request.
    pub closed spec fn kind(self) -> IBKRMessageID {
        self.id
    }

    /// The version field, where the request has one.
    pub closed spec fn version(self) -> Option<u32> {
        self.version
    }

    /// The fields after the kind and the version.
    pub closed spec fn fields(self) -> Seq<Seq<u8>> {
        self.fields@.map_values(|f: Vec<u8>| f@)
    }

    /// All fields as they go on the wire: the kind, the version if any, the others.
    pub open spec fn wire_fields(self) -> Seq<Seq<u8>> {
        seq![decimal_text(self.kind().wire_id() as nat)] + match self.version() {
            Some(v) => seq![decimal_text(v as nat)],
            None => Seq::empty(),
        } + self.fields()
    }

    pub fn with_id(self, id: IBKRMessageID) -> (m: Self)
        ensures
            m.kind() == id,
            m.version() == self.version(),
            m.fields() == self.fields(),
    {
        IBMessage { id, ..self }
    }

    pub fn with_version(self, version: u32) -> (m: Self)
        ensures
            m.kind() == self.kind(),
            m.version() == Some(version),
            m.fields() == self.fields(),
    {
        IBMessage { version: Some(version), ..self }
    }

    /// Appends a text field.
    pub fn field(self, field: &str) -> (m: Self)
        ensures
            m.kind() == self.kind(),
            m.version() == self.version(),
            m.fields() == self.fields().push(field.spec_bytes()),
    {
        self.raw_field(text_bytes(field))
    }

    /// Appends the decimal text of a number as a field.
    pub fn number_field(self, n: u32) -> (m: Self)
        ensures
            m.kind() == self.kind(),
            m.version() == self.version(),
            m.fields() == self.fields().push(decimal_text(n as nat)),
    {
        self.raw_field(decimal_bytes(n as u64))
    }

    /// Appends an empty field.
    pub fn empty_field(self) -> (m: Self)
        ensures
            m.kind() == self.kind(),
            m.version() == self.version(),
            m.fields() == self.fields().push(Seq::empty()),
    {
        let m = self.raw_field(Vec::new());
        assert(m.fields() =~= self.fields().push(Seq::empty()));
        m
    }

    fn raw_field(self, bytes: Vec<u8>) -> (m: Self)
        ensures
            m.kind() == self.kind(),
            m.version() == self.version(),
            m.fields() == self.fields().push(bytes@),
    {
        let mut m = self;
        m.fields.push(bytes);
        assert(m.fields() =~= self.fields().push(bytes@));
        m
    }

    /// Appends the twelve fields that describe `contract`.
    pub fn contract(self, contract: Contract) -> (m: Self)
        ensures
            m.kind() == self.kind(),
            m.version() == self.version(),
            m.fields() == self.fields() + contract_fields(contract),
    {
        let ghost c = contract;
        let right: Vec<u8> = match contract.right {
            Some(OptionSide::Call) => vec![67u8],
            Some(OptionSide::Put) => vec![80u8],
            None => Vec::new(),
        };
        assert(right@ =~= match c.right {
            Some(r) => r.code_bytes(),
            None => Seq::empty(),
        });
        let usd: Vec<u8> = vec![85u8, 83u8, 68u8];
        assert(usd@ =~= c.currency.code_bytes());
        let f0 = optional_text(contract.con_id);
        let f1 = text_bytes(contract.symbol.as_str());
        let f2 = text_bytes(contract.sec_type.as_str());
        let f3 = text_bytes(contract.last_trade_date_or_contract_month.as_str());
        let f4 = optional_number(contract.strike);
        let f6 = optional_number(contract.multiplier);
        let f7 = text_bytes(contract.exchange.as_str());
        let f8 = optional_text(contract.primary_exchange);
        let f10 = optional_text(contract.local_symbol);
        let f11 = optional_text(contract.trading_class);
        let ghost all = seq![f0@, f1@, f2@, f3@, f4@, right@, f6@, f7@, f8@, usd@, f10@, f11@];
        assert(all =~= contract_fields(c));
        let m = self.raw_field(f0).raw_field(f1).raw_field(f2).raw_field(f3).raw_field(f4).raw_field(
            right,
        ).raw_field(f6).raw_field(f7).raw_field(f8).raw_field(usd).raw_field(f10).raw_field(f11);
        assert(m.fields() =~= self.fields() + all);
        m
    }

    /// The bytes of the request: every wire field followed by a zero byte.
    pub fn into_bytes(self) -> (payload: Vec<u8>)
        ensures
            payload@ == encode_fields(self.wire_fields()),
    {
        let ghost wf = self.wire_fields();
        let mut payload: Vec<u8> = Vec::new();
        let id_text = decimal_bytes(self.id.into_wire_id() as u64);
        push_field(&mut payload, id_text.as_slice());
        let ghost mut done: Seq<Seq<u8>> = seq![id_text@];
        proof {
            lemma_encode_fields_push(Seq::empty(), id_text@);
            assert(Seq::<Seq<u8>>::empty().push(id_text@) =~= done);
            assert(encode_fields(Seq::<Seq<u8>>::empty()) =~= Seq::<u8>::empty());
            assert(encode_fields(done) =~= payload@);
        }
        match self.version {
            Some(v) => {
                let v_text = decimal_bytes(v as u64);
                push_field(&mut payload, v_text.as_slice());
                proof {
                    lemma_encode_fields_push(done, v_text@);
                    done = done.push(v_text@);
                }
            },
            None => {},
        }
        let ghost head = done;
        assert(wf =~= head + self.fields());
        let mut i: usize = 0;
        while i < self.fields.len()
            invariant
                0 <= i <= self.fields@.len(),
                wf == head + self.fields(),
                done == head + self.fields().take(i as int),
                payload@ == encode_fields(done),
            decreases self.fields@.len() - i,
        {
            push_field(&mut payload, self.fields[i].as_slice());
            proof {
                lemma_encode_fields_push(done, self.fields@[i as int]@);
                done = done.push(self.fields@[i as int]@);
                assert(done =~= head + self.fields().take(i + 1));
            }
            i = i + 1;
        }
        assert(self.fields().take(i as int) =~= self.fields());
        payload
    }

    /// The request that opens the API session for `client_id`.
    pub fn start_api_bytes(client_id: u16) -> (payload: Vec<u8>)
        ensures
            payload@ == encode_fields(
                seq![decimal_text(71), decimal_text(2), decimal_text(client_id as nat), Seq::empty()],
            ),
    {
        let mut payload: Vec<u8> = Vec::new();
        let a = decimal_bytes(IBKRMessageID::StartApi.into_wire_id() as u64);
        let b = decimal_bytes(2);
        let c = decimal_bytes(client_id as u64);
        let e: Vec<u8> = Vec::new();
        push_field(&mut payload, a.as_slice());
        push_field(&mut payload, b.as_slice());
        push_field(&mut payload, c.as_slice());
        push_field(&mut payload, e.as_slice());
        proof {
            let e0 = Seq::<Seq<u8>>::empty();
            assert(encode_fields(e0) =~= Seq::<u8>::empty());
            lemma_encode_fields_push(e0, a@);
            lemma_encode_fields_push(e0.push(a@), b@);
            lemma_encode_fields_push(e0.push(a@).push(b@), c@);
            lemma_encode_fields_push(e0.push(a@).push(b@).push(c@), e@);
            assert(e0.push(a@).push(b@).push(c@).push(e@) =~= seq![a@, b@, c@, e@]);
            assert(payload@ =~= encode_fields(seq![a@, b@, c@, e@]));
            assert(e@ =~= Seq::<u8>::empty());
        }
        payload
    }

    /// The bytes that open a connection: `API\0`, then the version range behind its length.
    pub fn handshake() -> (msg: Vec<u8>)
        ensures
            msg@ == handshake_bytes(),
    {
        let msg: Vec<u8> = vec![65u8, 80u8, 73u8, 0u8, 0u8, 0u8, 0u8, 9u8,
            118u8, 49u8, 48u8, 48u8, 46u8, 46u8, 49u8, 55u8, 54u8];
        assert(msg@ =~= handshake_bytes());
        msg
    }
}

// ----------------------------------------------------------------------------
// Incoming messages and frames
// ----------------------------------------------------------------------------

/// What can be wrong with a received message.
#[derive(Debug, Clone, Copy, PartialEq, Eq, Structural)]
pub enum MessageError {
    /// A field is not valid UTF-8.
    InvalidUtf8,
}

/// `std::str::from_utf8`: the text that `bytes` encode, where they are valid UTF-8.
#[verifier::external_body]
fn utf8_text(bytes: &[u8]) -> (text: Option<&str>)
    ensures
        match text {
            Some(s) => valid_utf8(bytes@) && s.spec_bytes() == bytes@,
            None => !valid_utf8(bytes@),
        },
{
    std::str::from_utf8(bytes).ok()
}

/// Whether every field is valid UTF-8.
pub open spec fn all_valid_utf8(fs: Seq<Seq<u8>>) -> bool {
    forall|i: int| 0 <= i < fs.len() ==> valid_utf8(#[trigger] fs[i])
}

/// Splits a received message into its non-empty fields between zero bytes, as text.
pub fn parse_message(byte_msg: &[u8]) -> (res: Result<Vec<&str>, MessageError>)
    ensures
        match res {
            Ok(fields) => all_valid_utf8(message_fields(byte_msg@)) && fields@.len()
                == message_fields(byte_msg@).len() && forall|i: int|
                0 <= i < fields@.len() ==> #[trigger] fields@[i].spec_bytes() == message_fields(
                byte_msg@,
            )[i],
            Err(e) => e == MessageError::InvalidUtf8 && !all_valid_utf8(message_fields(byte_msg@)),
        },
{
    let ghost b = byte_msg@;
    let mut out: Vec<&str> = Vec::new();
    let mut bad: bool = false;
    let mut start: usize = 0;
    let mut i: usize = 0;
    assert(b.take(0) =~= Seq::<u8>::empty());
    assert(split_at_zeros(b.take(0)).drop_last() =~= Seq::<Seq<u8>>::empty());
    while i < byte_msg.len()
        invariant
            0 <= start <= i <= b.len(),
            b == byte_msg@,
            split_at_zeros(b.take(i as int)).len() >= 1,
            split_at_zeros(b.take(i as int)).last() == b.subrange(start as int, i as int),
            bad <==> !all_valid_utf8(nonempty_fields(split_at_zeros(b.take(i as int)).drop_last())),
            !bad ==> out@.len() == nonempty_fields(split_at_zeros(b.take(i as int)).drop_last()).len(),
            !bad ==> forall|k: int|
                0 <= k < out@.len() ==> #[trigger] out@[k].spec_bytes() == nonempty_fields(
                    split_at_zeros(b.take(i as int)).drop_last(),
                )[k],
        decreases b.len() - i,
    {
        let ghost segs = split_at_zeros(b.take(i as int));
        let ghost done = nonempty_fields(segs.drop_last());
        assert(b.take(i + 1).drop_last() =~= b.take(i as int));
        assert(b.take(i + 1).last() == b[i as int]);
        if byte_msg[i] == 0 {
            let ghost next = split_at_zeros(b.take(i + 1));
            assert(next == segs.push(Seq::empty()));
            assert(next.drop_last() =~= segs);
            assert(segs =~= segs.drop_last().push(segs.last()));
            proof { lemma_nonempty_fields_push(segs.drop_last(), segs.last()); }
            if start < i {
                let piece = &byte_msg[start..i];
                assert(piece@ == segs.last());
                proof { lemma_all_valid_push(done, segs.last()); }
                match utf8_text(piece) {
                    Some(t) => {
                        if !bad {
                            out.push(t);
                        }
                    },
                    None => {
                        bad = true;
                    },
                }
            } else {
                assert(segs.last().len() == 0);
            }
            start = i + 1;
            assert(next.last() =~= b.subrange(start as int, i + 1));
        } else {
            let ghost next = split_at_zeros(b.take(i + 1));
            assert(next == segs.update(segs.len() - 1, segs.last().push(b[i as int])));
            assert(next.drop_last() =~= segs.drop_last());
            assert(next.last() =~= b.subrange(start as int, i + 1));
        }
        i = i + 1;
    }
    assert(b.take(i as int) =~= b);
    let ghost segs = split_at_zeros(b);
    let ghost done = nonempty_fields(segs.drop_last());
    assert(segs =~= segs.drop_last().push(segs.last()));
    proof { lemma_nonempty_fields_push(segs.drop_last(), segs.last()); }
    if start < i {
        let piece = &byte_msg[start..i];
        assert(piece@ == segs.last());
        proof { lemma_all_valid_push(done, segs.last()); }
        match utf8_text(piece) {
            Some(t) => {
                if !bad {
                    out.push(t);
                }
            },
            None => {
                bad = true;
            },
        }
    }
    if bad {
        Err(MessageError::InvalidUtf8)
    } else {
        Ok(out)
    }
}

proof fn lemma_nonempty_fields_push(segs: Seq<Seq<u8>>, x: Seq<u8>)
    ensures
        nonempty_fields(segs.push(x)) == if x.len() > 0 {
            nonempty_fields(segs).push(x)
        } else {
            nonempty_fields(segs)
        },
{
    assert(segs.push(x).drop_last() =~= segs);
}

proof fn lemma_all_valid_push(fs: Seq<Seq<u8>>, x: Seq<u8>)
    ensures
        all_valid_utf8(fs.push(x)) <==> all_valid_utf8(fs) && valid_utf8(x),
{
    if all_valid_utf8(fs.push(x)) {
        assert forall|i: int| 0 <= i < fs.len() implies valid_utf8(#[trigger] fs[i]) by {
            assert(fs.push(x)[i] == fs[i]);
        }
        assert(fs.push(x)[fs.len() as int] == x);
    }
    if all_valid_utf8(fs) && valid_utf8(x) {
        assert forall|i: int| 0 <= i < fs.push(x).len() implies valid_utf8(#[trigger] fs.push(x)[i]) by {
            if i < fs.len() {
                assert(fs.push(x)[i] == fs[i]);
            }
        }
    }
}

/// Whether the first field of a reply is `9`, the gateway's acceptance of the API session.
pub fn is_start_api_accepted(fields: &[&str]) -> (accepted: bool)
    ensures
        accepted == (fields@.len() > 0 && fields@[0].spec_bytes() == seq![57u8]),
{
    if fields.len() == 0 {
        return false;
    }
    let first: &str = fields[0];
    let expected: [u8; 1] = [57u8];
    let r = bytes_equal(first.as_bytes(), expected.as_slice());
    assert(expected@ =~= seq![57u8]);
    r
}

/// The frame of a payload: its length as four big-endian bytes, then the payload.
pub fn frame_payload(payload: &[u8]) -> (frame: Vec<u8>)
    ensures
        frame@ == be_bytes((payload@.len() % 0x1_0000_0000) as u32) + payload@,
{
    let len: u64 = payload.len() as u64;
    let n: u32 = (len % 0x1_0000_0000) as u32;
    let mut frame: Vec<u8> = Vec::new();
    frame.push((n / 0x100_0000) as u8);
    frame.push(((n / 0x1_0000) % 0x100) as u8);
    frame.push(((n / 0x100) % 0x100) as u8);
    frame.push((n % 0x100) as u8);
    append_bytes(&mut frame, payload);
    assert(frame@ =~= be_bytes(n) + payload@);
    frame
}

/// The payload length that a frame header announces.
pub fn announced_payload_length(header: &[u8; 4]) -> (len: usize)
    ensures
        len as int == announced_length(header@),
{
    let v: u64 = (header[0] as u64) * 0x100_0000 + (header[1] as u64) * 0x1_0000
        + (header[2] as u64) * 0x100 + (header[3] as u64);
    if v < 0x8000_0000 {
        v as usize
    } else {
        let below: u64 = 0x1_0000_0000 - v;
        assert(below <= 0x8000_0000);
        usize::MAX - (below as usize) + 1
    }
}

// ----------------------------------------------------------------------------
// Laws of the wire format
// ----------------------------------------------------------------------------

proof fn lemma_split_extend(e: Seq<u8>, x: Seq<u8>)
    requires
        forall|j: int| 0 <= j < x.len() ==> #[trigger] x[j] != 0u8,
    ensures
        split_at_zeros(e + x) == split_at_zeros(e).update(
            split_at_zeros(e).len() - 1,
            split_at_zeros(e).last() + x,
        ),
        split_at_zeros(e).len() >= 1,
    decreases x.len(),
{
    lemma_split_nonempty(e);
    if x.len() == 0 {
        assert(e + x =~= e);
        assert(split_at_zeros(e).last() + x =~= split_at_zeros(e).last());
        assert(split_at_zeros(e).update(split_at_zeros(e).len() - 1, split_at_zeros(e).last())
            =~= split_at_zeros(e));
    } else {
        let x1 = x.drop_last();
        lemma_split_extend(e, x1);
        assert((e + x).drop_last() =~= e + x1);
        assert((e + x).last() == x.last());
        lemma_split_nonempty(e + x1);
        let s = split_at_zeros(e);
        assert(split_at_zeros(e).last() + x =~= (split_at_zeros(e).last() + x1).push(x.last()));
        assert(split_at_zeros(e + x) =~= s.update(s.len() - 1, s.last() + x));
    }
}

proof fn lemma_split_nonempty(b: Seq<u8>)
    ensures
        split_at_zeros(b).len() >= 1,
    decreases b.len(),
{
    if b.len() > 0 {
        lemma_split_nonempty(b.drop_last());
    }
}

proof fn lemma_split_encoded(fs: Seq<Seq<u8>>)
    requires
        zero_free(fs),
    ensures
        split_at_zeros(encode_fields(fs)) == fs.push(Seq::empty()),
    decreases fs.len(),
{
    if fs.len() == 0 {
        assert(split_at_zeros(Seq::<u8>::empty()) =~= seq![Seq::<u8>::empty()]);
        assert(fs.push(Seq::empty()) =~= seq![Seq::<u8>::empty()]);
    } else {
        let f1 = fs.drop_last();
        let x = fs.last();
        assert(zero_free(f1)) by {
            assert forall|i: int, j: int| 0 <= i < f1.len() && 0 <= j < f1[i].len() implies #[trigger] f1[i][j]
                != 0u8 by {
                assert(f1[i] == fs[i]);
            }
        }
        lemma_split_encoded(f1);
        let e = encode_fields(f1);
        assert forall|j: int| 0 <= j < x.len() implies #[trigger] x[j] != 0u8 by {
            assert(fs[fs.len() - 1][j] != 0u8);
        }
        lemma_split_extend(e, x);
        let ex = e + x;
        assert(encode_fields(fs) =~= ex.push(0u8));
        assert(ex.push(0u8).drop_last() =~= ex);
        assert(Seq::<u8>::empty() + x =~= x);
        assert(split_at_zeros(ex) =~= f1.push(x));
        assert(f1.push(x) =~= fs);
    }
}

proof fn lemma_nonempty_fields_all(fs: Seq<Seq<u8>>)
    requires
        forall|i: int| 0 <= i < fs.len() ==> (#[trigger] fs[i]).len() > 0,
    ensures
        nonempty_fields(fs) == fs,
    decreases fs.len(),
{
    if fs.len() > 0 {
        lemma_nonempty_fields_all(fs.drop_last());
        assert(fs.drop_last().push(fs.last()) =~= fs);
    }
}

/// Reading back the bytes of a list of fields gives the fields, less the empty ones,
/// provided that no field holds a zero byte.
pub proof fn law_encoded_fields_read_back(fs: Seq<Seq<u8>>)
    requires
        zero_free(fs),
    ensures
        message_fields(encode_fields(fs)) == nonempty_fields(fs),
{
    lemma_split_encoded(fs);
    lemma_nonempty_fields_push(fs, Seq::empty());
}

/// Where no field is empty, reading back the bytes of the fields gives exactly the fields.
pub proof fn law_nonempty_fields_read_back(fs: Seq<Seq<u8>>)
    requires
        zero_free(fs),
        forall|i: int| 0 <= i < fs.len() ==> (#[trigger] fs[i]).len() > 0,
    ensures
        message_fields(encode_fields(fs)) == fs,
{
    law_encoded_fields_read_back(fs);
    lemma_nonempty_fields_all(fs);
}

/// The header of a frame announces the payload's length, for any payload shorter than 2^31 bytes.
pub proof fn law_frame_length_read_back(len: nat)
    requires
        len < 0x8000_0000,
    ensures
        announced_length(be_bytes((len % 0x1_0000_0000) as u32)) == len,
{
    let n: u32 = (len % 0x1_0000_0000) as u32;
    assert(n == len);
    let b = be_bytes(n);
    assert(b[0] * 0x100_0000 + b[1] * 0x1_0000 + b[2] * 0x100 + b[3] == n) by (nonlinear_arith)
        requires
            b[0] == (n / 0x100_0000) as u8,
            b[1] == ((n / 0x1_0000) % 0x100) as u8,
            b[2] == ((n / 0x100) % 0x100) as u8,
            b[3] == (n % 0x100) as u8,
            n < 0x8000_0000,
    ;
}

} // verus!

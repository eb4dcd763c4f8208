//! Decimal text of integers, as the wire protocol writes and reads it.
use vstd::prelude::*;
use vstd::utf8::{pop_first_scalar, valid_utf8, valid_utf8_concat};

verus! {

/// The byte of the ASCII digit for `d` (0..=9).
pub open spec fn digit_byte(d: nat) -> u8
    recommends
        d < 10,
{
    (48 + d) as u8
}

/// Whether `b` is an ASCII digit.
pub open spec fn is_digit(b: u8) -> bool {
    48 <= b <= 57
}

/// Whether every byte of `s` is an ASCII digit.
pub open spec fn all_digits(s: Seq<u8>) -> bool {
    forall|i: int| 0 <= i < s.len() ==> is_digit(#[trigger] s[i])
}

/// The value of a run of ASCII digits, most significant first.
pub open spec fn digits_value(s: Seq<u8>) -> nat
    decreases s.len(),
{
    if s.len() == 0 {
        0
    } else {
        digits_value(s.drop_last()) * 10 + (s.last() - 48) as nat
    }
}

/// The shortest decimal text of `n` (no sign, no leading zeros, "0" for zero).
pub open spec fn decimal_text(n: nat) -> Seq<u8>
    decreases n,
{
    if n < 10 {
        seq![digit_byte(n)]
    } else {
        decimal_text(n / 10).push(digit_byte(n % 10))
    }
}

/// The decimal text of a number is a non-empty run of ASCII digits, and so valid UTF-8.
pub proof fn lemma_decimal_text_digits(n: nat)
    ensures
        decimal_text(n).len() > 0,
        all_digits(decimal_text(n)),
        valid_utf8(decimal_text(n)),
    decreases n,
{
    let d = digit_byte(n % 10);
    assert(valid_utf8(seq![d])) by {
        reveal_with_fuel(valid_utf8, 2);
        assert(pop_first_scalar(seq![d]) =~= Seq::<u8>::empty());
    }
    if n >= 10 {
        lemma_decimal_text_digits(n / 10);
        let head = decimal_text(n / 10);
        assert(decimal_text(n) =~= head + seq![d]);
        valid_utf8_concat(head, seq![d]);
    }
}

/// The unsigned value that Rust's `FromStr` for unsigned integers reads from `s`,
/// before the range check: an optional `+`, then at least one digit and nothing else.
pub open spec fn unsigned_text_value(s: Seq<u8>) -> Option<nat> {
    let body = if s.len() > 0 && s[0] == 43u8 {
        s.drop_first()
    } else {
        s
    };
    if body.len() > 0 && all_digits(body) {
        Some(digits_value(body))
    } else {
        None
    }
}

/// The signed value that Rust's `FromStr` for signed integers reads from `s`,
/// before the range check: an optional `+` or `-`, then at least one digit and nothing else.
pub open spec fn signed_text_value(s: Seq<u8>) -> Option<int> {
    if s.len() > 0 && s[0] == 45u8 {
        let body = s.drop_first();
        if body.len() > 0 && all_digits(body) {
            Some(-(digits_value(body) as int))
        } else {
            None
        }
    } else {
        match unsigned_text_value(s) {
            Some(v) => Some(v as int),
            None => None,
        }
    }
}

/// The `u32` that `str::parse::<u32>` yields for the text `s`, if any.
pub open spec fn u32_from_text(s: Seq<u8>) -> Option<u32> {
    match unsigned_text_value(s) {
        Some(v) => if v <= u32::MAX {
            Some(v as u32)
        } else {
            None
        },
        None => None,
    }
}

/// The `u64` that `str::parse::<u64>` yields for the text `s`, if any.
pub open spec fn u64_from_text(s: Seq<u8>) -> Option<u64> {
    match unsigned_text_value(s) {
        Some(v) => if v <= u64::MAX {
            Some(v as u64)
        } else {
            None
        },
        None => None,
    }
}

/// The `usize` that `str::parse::<usize>` yields for the text `s`, if any.
pub open spec fn usize_from_text(s: Seq<u8>) -> Option<usize> {
    match unsigned_text_value(s) {
        Some(v) => if v <= usize::MAX {
            Some(v as usize)
        } else {
            None
        },
        None => None,
    }
}

/// The `i32` that `str::parse::<i32>` yields for the text `s`, if any.
pub open spec fn i32_from_text(s: Seq<u8>) -> Option<i32> {
    match signed_text_value(s) {
        Some(v) => if i32::MIN <= v <= i32::MAX {
            Some(v as i32)
        } else {
            None
        },
        None => None,
    }
}

proof fn lemma_digits_value_prefix(s: Seq<u8>, i: int)
    requires
        0 <= i <= s.len(),
        all_digits(s),
    ensures
        digits_value(s.take(i)) <= digits_value(s),
    decreases s.len() - i,
{
    if i < s.len() {
        lemma_digits_value_prefix(s, i + 1);
        assert(s.take(i + 1).drop_last() =~= s.take(i));
        assert(is_digit(s[i]));
    } else {
        assert(s.take(i) =~= s);
    }
}

proof fn lemma_digits_value_step(s: Seq<u8>, i: int)
    requires
        0 <= i < s.len(),
    ensures
        digits_value(s.take(i + 1)) == digits_value(s.take(i)) * 10 + (s[i] - 48) as nat,
{
    assert(s.take(i + 1).drop_last() =~= s.take(i));
}

/// Reads the digits `s[start..]` as a number; `None` unless they are all digits,
/// there is at least one, and the value is at most `limit`.
fn read_digits(s: &[u8], start: usize, limit: u64) -> (res: Option<u64>)
    requires
        start <= s@.len(),
    ensures
        ({
            let body = s@.subrange(start as int, s@.len() as int);
            match res {
                Some(v) => body.len() > 0 && all_digits(body) && v == digits_value(body)
                    && v <= limit,
                None => !(body.len() > 0 && all_digits(body) && digits_value(body) <= limit),
            }
        }),
{
    let ghost body = s@.subrange(start as int, s@.len() as int);
    if start == s.len() {
        return None;
    }
    let mut acc: u64 = 0;
    let mut i: usize = start;
    while i < s.len()
        invariant
            start <= i <= s@.len(),
            body == s@.subrange(start as int, s@.len() as int),
            all_digits(body.take(i - start)),
            acc == digits_value(body.take(i - start)),
            acc <= limit,
        decreases s@.len() - i,
    {
        let b: u8 = s[i];
        proof {
            lemma_digits_value_step(body, i - start);
        }
        if b < 48 || b > 57 {
            assert(!is_digit(body[i - start]));
            return None;
        }
        let d: u64 = (b - 48) as u64;
        if d > limit {
            proof {
                assert(all_digits(body.take(i - start + 1)));
                if all_digits(body) {
                    lemma_digits_value_prefix(body, i - start + 1);
                }
            }
            return None;
        }
        if acc > (limit - d) / 10 {
            proof {
                assert(all_digits(body.take(i - start + 1)));
                assert(acc * 10 + d > limit) by (nonlinear_arith)
                    requires
                        acc > (limit - d) / 10,
                        d <= limit,
                ;
                if all_digits(body) {
                    lemma_digits_value_prefix(body, i - start + 1);
                }
            }
            return None;
        }
        assert(acc * 10 + d <= limit) by (nonlinear_arith)
            requires
                acc <= (limit - d) / 10,
                d <= limit,
        ;
        acc = acc * 10 + d;
        i = i + 1;
        assert(all_digits(body.take(i - start)));
    }
    assert(body.take(i - start) =~= body);
    Some(acc)
}

/// Reads an unsigned number as Rust's `FromStr` does (optional `+`), at most `limit`.
fn read_unsigned(s: &[u8], limit: u64) -> (res: Option<u64>)
    ensures
        match res {
            Some(v) => unsigned_text_value(s@) == Some(v as nat) && v <= limit,
            None => match unsigned_text_value(s@) {
                Some(v) => v > limit,
                None => true,
            },
        },
{
    let start: usize = if s.len() > 0 && s[0] == 43u8 {
        1
    } else {
        0
    };
    assert(s@.subrange(start as int, s@.len() as int) =~= (if s@.len() > 0 && s@[0] == 43u8 {
        s@.drop_first()
    } else {
        s@
    }));
    read_digits(s, start, limit)
}

/// `str::parse::<u32>` on the bytes of a text.
pub fn parse_u32(s: &[u8]) -> (res: Option<u32>)
    ensures
        res == u32_from_text(s@),
{
    match read_unsigned(s, 0xffff_ffffu64) {
        Some(v) => Some(v as u32),
        None => None,
    }
}

/// `str::parse::<u64>` on the bytes of a text.
pub fn parse_u64(s: &[u8]) -> (res: Option<u64>)
    ensures
        res == u64_from_text(s@),
{
    read_unsigned(s, u64::MAX)
}

/// `str::parse::<usize>` on the bytes of a text.
pub fn parse_usize(s: &[u8]) -> (res: Option<usize>)
    ensures
        res == usize_from_text(s@),
{
    match read_unsigned(s, usize::MAX as u64) {
        Some(v) => Some(v as usize),
        None => None,
    }
}

/// `str::parse::<i32>` on the bytes of a text.
pub fn parse_i32(s: &[u8]) -> (res: Option<i32>)
    ensures
        res == i32_from_text(s@),
{
    if s.len() > 0 && s[0] == 45u8 {
        assert(s@.subrange(1, s@.len() as int) =~= s@.drop_first());
        match read_digits(s, 1, 0x8000_0000u64) {
            Some(v) => {
                let r: i64 = 0i64 - (v as i64);
                Some(r as i32)
            },
            None => None,
        }
    } else {
        match read_unsigned(s, 0x7fff_ffffu64) {
            Some(v) => Some(v as i32),
            None => None,
        }
    }
}

/// Appends the decimal text of `n` to `buf`.
pub fn push_decimal(buf: &mut Vec<u8>, n: u64)
    ensures
        final(buf)@ == old(buf)@ + decimal_text(n as nat),
    decreases n,
{
    if n >= 10 {
        push_decimal(buf, n / 10);
    }
    let d: u8 = (n % 10) as u8 + 48;
    buf.push(d);
    proof {
        if n < 10 {
            assert(decimal_text(n as nat) == seq![digit_byte(n as nat)]);
        }
        assert(buf@ =~= old(buf)@ + decimal_text(n as nat));
    }
}

/// The decimal text of `n` as bytes.
pub fn decimal_bytes(n: u64) -> (res: Vec<u8>)
    ensures
        res@ == decimal_text(n as nat),
{
    let mut v: Vec<u8> = Vec::new();
    push_decimal(&mut v, n);
    assert(v@ =~= decimal_text(n as nat));
    v
}

} // verus!

//! Hexadecimal text and the clock.
use vstd::prelude::*;

use crate::error::Error;
use crate::text::chars_of;

verus! {

/// The digit of a value below sixteen.
pub open spec fn hex_digit(n: int) -> char {
    if n < 10 {
        (48 + n) as char
    } else {
        (87 + n) as char
    }
}

/// The lowercase hexadecimal text of a byte string, two digits for each byte.
pub open spec fn hex_text(b: Seq<u8>) -> Seq<char> {
    Seq::new(
        2 * b.len(),
        |i: int|
            if i % 2 == 0 {
                hex_digit(b[i / 2] as int / 16)
            } else {
                hex_digit(b[i / 2] as int % 16)
            },
    )
}

/// A lowercase hexadecimal digit.
pub open spec fn is_lower_hex(c: char) -> bool {
    '0' <= c <= '9' || 'a' <= c <= 'f'
}

/// A hexadecimal digit of either case.
pub open spec fn is_hex(c: char) -> bool {
    is_lower_hex(c) || 'A' <= c <= 'F'
}

/// The value of a hexadecimal digit.
pub open spec fn hex_value(c: char) -> int {
    if '0' <= c <= '9' {
        c as int - 48
    } else if 'a' <= c <= 'f' {
        c as int - 87
    } else {
        c as int - 55
    }
}

/// The bytes that pairs of digits stand for.
pub open spec fn hex_bytes(s: Seq<char>) -> Seq<u8> {
    Seq::new(
        (s.len() / 2) as nat,
        |i: int| (16 * hex_value(s[2 * i]) + hex_value(s[2 * i + 1])) as u8,
    )
}

/// The error of `hex::decode`.
#[verifier::external_type_specification]
#[verifier::external_body]
pub struct ExFromHexError(hex::FromHexError);

/// `hex::encode`: two lowercase digits for each byte, high half first.
#[verifier::external_body]
fn encode_hex(bytes: &[u8]) -> (r: String)
    ensures
        r@ == hex_text(bytes@),
{
    hex::encode(bytes)
}

/// `hex::decode`: digits of either case, an even number of them, or an error.
#[verifier::external_body]
fn hex_decode(s: &str) -> (r: Result<Vec<u8>, hex::FromHexError>)
    ensures
        r is Ok <==> s@.len() % 2 == 0 && forall|i: int| 0 <= i < s@.len() ==> is_hex(s@[i]),
        r matches Ok(v) ==> v@ == hex_bytes(s@),
{
    hex::decode(s)
}

/// Text of pairs of hexadecimal digits of either case.
pub open spec fn is_hex_text(s: Seq<char>) -> bool {
    s.len() % 2 == 0 && forall|i: int| 0 <= i < s.len() ==> is_hex(s[i])
}

/// The bytes of hexadecimal text; nothing where it is not such text.
pub fn hex_bytes_of(s: &str) -> (r: Option<Vec<u8>>)
    ensures
        r is Some <==> is_hex_text(s@),
        r matches Some(v) ==> v@ == hex_bytes(s@),
{
    match hex_decode(s) {
        Ok(v) => Some(v),
        Err(_) => None,
    }
}

/// Lowercase hexadecimal text.
pub fn hex_encode(bytes: &[u8]) -> (r: String)
    ensures
        r@ == hex_text(bytes@),
{
    encode_hex(bytes)
}

/// Every character is a lowercase hexadecimal digit.
pub open spec fn all_lower_hex(s: Seq<char>) -> bool {
    forall|i: int| 0 <= i < s.len() ==> is_lower_hex(s[i])
}

/// What `hex_decode_fixed` makes of a text.
pub open spec fn fixed_hex(s: Seq<char>, n: nat, kind: &'static str) -> Result<Seq<u8>, Error> {
    if !all_lower_hex(s) {
        Err(Error::Encoding { kind, detail: "expected lowercase hex" })
    } else if s.len() % 2 != 0 {
        Err(Error::Encoding { kind, detail: "not hex: odd number of digits" })
    } else if s.len() != 2 * n {
        Err(Error::Encoding { kind, detail: "unexpected number of bytes" })
    } else {
        Ok(hex_bytes(s))
    }
}

/// Reads exactly `N` bytes of lowercase hexadecimal text.
pub fn hex_decode_fixed<const N: usize>(s: &str, kind: &'static str) -> (r: Result<[u8; N], Error>)
    ensures
        r matches Ok(v) ==> fixed_hex(s@, N as nat, kind) == Ok::<Seq<u8>, Error>(v@),
        r matches Err(e) ==> fixed_hex(s@, N as nat, kind) == Err::<Seq<u8>, Error>(e),
{
    let chars = chars_of(s);
    let mut i: usize = 0;
    while i < chars.len()
        invariant
            i <= chars@.len(),
            chars@ == s@,
            forall|j: int| 0 <= j < i ==> is_lower_hex(s@[j]),
        decreases chars.len() - i,
    {
        let c = chars[i];
        if !(('0' <= c && c <= '9') || ('a' <= c && c <= 'f')) {
            assert(!is_lower_hex(s@[i as int]));
            return Err(Error::Encoding { kind, detail: "expected lowercase hex" });
        }
        i += 1;
    }
    let raw = match hex_decode(s) {
        Ok(raw) => raw,
        Err(_) => {
            return Err(Error::Encoding { kind, detail: "not hex: odd number of digits" });
        },
    };
    if raw.len() != N {
        return Err(Error::Encoding { kind, detail: "unexpected number of bytes" });
    }
    let mut out: [u8; N] = [0u8; N];
    let mut k: usize = 0;
    while k < N
        invariant
            k <= N,
            raw@.len() == N,
            forall|j: int| 0 <= j < k ==> out@[j] == raw@[j],
        decreases N - k,
    {
        out[k] = raw[k];
        k += 1;
    }
    assert(out@ =~= raw@);
    Ok(out)
}

/// Reading the hexadecimal text of a byte string gives the byte string back.
pub proof fn hex_round_trip(b: Seq<u8>, kind: &'static str)
    ensures
        fixed_hex(hex_text(b), b.len(), kind) == Ok::<Seq<u8>, Error>(b),
{
    let t = hex_text(b);
    assert forall|i: int| 0 <= i < t.len() implies is_lower_hex(t[i]) by {
        let n = b[i / 2];
        assert(0 <= n as int / 16 < 16);
        assert(0 <= n as int % 16 < 16);
    }
    assert forall|i: int| 0 <= i < b.len() implies hex_bytes(t)[i] == b[i] by {
        assert((2 * i) / 2 == i && (2 * i) % 2 == 0);
        assert((2 * i + 1) / 2 == i && (2 * i + 1) % 2 == 1);
        let n = b[i] as int;
        assert(hex_value(hex_digit(n / 16)) == n / 16);
        assert(hex_value(hex_digit(n % 16)) == n % 16);
        assert(16 * (n / 16) + n % 16 == n);
    }
    assert(hex_bytes(t) =~= b);
}

/// Only one text of lowercase digits stands for a byte string.
pub proof fn hex_text_unique(s: Seq<char>)
    requires
        all_lower_hex(s),
        s.len() % 2 == 0,
    ensures
        hex_text(hex_bytes(s)) == s,
{
    let t = hex_text(hex_bytes(s));
    assert(t.len() == s.len());
    assert forall|i: int| 0 <= i < s.len() implies t[i] == s[i] by {
        let k = i / 2;
        assert(is_lower_hex(s[2 * k]));
        assert(is_lower_hex(s[2 * k + 1]));
        let high = hex_value(s[2 * k]);
        let low = hex_value(s[2 * k + 1]);
        assert(0 <= high < 16 && 0 <= low < 16);
        assert((16 * high + low) / 16 == high && (16 * high + low) % 16 == low);
        assert(hex_digit(high) == s[2 * k]);
        assert(hex_digit(low) == s[2 * k + 1]);
    }
    assert(t =~= s);
}

/// Milliseconds of a reading of the clock; nothing where the clock stands before 1970.
pub fn clock_ms(reading: Option<u128>) -> (r: u64)
    ensures
        r as int == match reading {
            Some(ms) => ms as int % 0x1_0000_0000_0000_0000,
            None => 0,
        },
{
    match reading {
        Some(ms) => (ms % 0x1_0000_0000_0000_0000u128) as u64,
        None => 0,
    }
}

/// `SystemTime::duration_since`: the time since the epoch in milliseconds, if that is not in the
/// past of the epoch. Nothing is claimed of what the clock shows.
#[verifier::external_body]
fn clock_reading() -> (r: Option<u128>) {
    std::time::SystemTime::now()
        .duration_since(std::time::UNIX_EPOCH)
        .ok()
        .map(|d| d.as_millis())
}

/// Milliseconds since the Unix epoch by the machine's clock. What it returns depends on the
/// clock alone; `clock_ms` says what is made of each reading.
pub fn now_ms() -> u64 {
    clock_ms(clock_reading())
}

} // verus!

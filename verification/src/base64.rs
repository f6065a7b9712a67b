//! Base64 with the alphabet for URLs and without padding.
use vstd::prelude::*;

verus! {

/// The character of a six-bit value.
pub open spec fn symbol(n: int) -> char {
    if n < 26 {
        (65 + n) as char
    } else if n < 52 {
        (71 + n) as char
    } else if n < 62 {
        (n - 4) as char
    } else if n == 62 {
        '-'
    } else {
        '_'
    }
}

/// The byte at a position, or zero past the end.
pub open spec fn byte_at(b: Seq<u8>, i: int) -> int {
    if i < b.len() {
        b[i] as int
    } else {
        0
    }
}

/// The six bits at position `i` of a byte string: four groups of six for each three bytes.
pub open spec fn six_bits(b: Seq<u8>, i: int) -> int {
    let k = i / 4 * 3;
    if i % 4 == 0 {
        byte_at(b, k) / 4
    } else if i % 4 == 1 {
        byte_at(b, k) % 4 * 16 + byte_at(b, k + 1) / 16
    } else if i % 4 == 2 {
        byte_at(b, k + 1) % 16 * 4 + byte_at(b, k + 2) / 64
    } else {
        byte_at(b, k + 2) % 64
    }
}

/// How long the text of so many bytes is.
pub open spec fn base64_length(n: int) -> int {
    (4 * n + 2) / 3
}

/// The base64 text of a byte string.
pub open spec fn base64_text(b: Seq<u8>) -> Seq<char> {
    Seq::new(base64_length(b.len() as int) as nat, |i: int| symbol(six_bits(b, i)))
}

/// The error of `data_encoding`.
#[verifier::external_type_specification]
#[verifier::external_body]
pub struct ExDecodeError(data_encoding::DecodeError);

/// `Encoding::encode` of `BASE64URL_NOPAD`.
#[verifier::external_body]
fn url_encode(bytes: &[u8]) -> (r: String)
    ensures
        r@ == base64_text(bytes@),
{
    data_encoding::BASE64URL_NOPAD.encode(bytes)
}

/// `Encoding::decode` of `BASE64URL_NOPAD`: exactly the texts that some byte string has. It
/// refuses bits left over after the last byte, so no byte string has two texts.
#[verifier::external_body]
fn url_decode(text: &str) -> (r: Result<Vec<u8>, data_encoding::DecodeError>)
    ensures
        r matches Ok(b) ==> base64_text(b@) == text@,
        r is Err ==> forall|b: Seq<u8>| #[trigger] base64_text(b) != text@,
{
    data_encoding::BASE64URL_NOPAD.decode(text.as_bytes())
}

/// The base64 text of a byte string.
pub fn base64_encode(bytes: &[u8]) -> (r: String)
    ensures
        r@ == base64_text(bytes@),
{
    url_encode(bytes)
}

/// The bytes of a base64 text; nothing where it is not one.
pub fn base64_decode(text: &str) -> (r: Option<Vec<u8>>)
    ensures
        r matches Some(b) ==> base64_text(b@) == text@,
        r is None ==> forall|b: Seq<u8>| #[trigger] base64_text(b) != text@,
{
    match url_decode(text) {
        Ok(b) => Some(b),
        Err(_) => None,
    }
}

/// The bytes that have this base64 text; nothing where no bytes have it.
pub open spec fn base64_bytes(text: Seq<char>) -> Option<Seq<u8>> {
    if exists|b: Seq<u8>| #[trigger] base64_text(b) == text {
        Some(choose|b: Seq<u8>| #[trigger] base64_text(b) == text)
    } else {
        None
    }
}

/// The bytes of the text of bytes are those bytes.
pub proof fn base64_round_trip(b: Seq<u8>)
    ensures
        base64_bytes(base64_text(b)) == Some(b),
{
    let c = choose|c: Seq<u8>| #[trigger] base64_text(c) == base64_text(b);
    assert(base64_text(b) == base64_text(b));
    base64_injective(c, b);
}

/// Six-bit values have different characters.
proof fn symbol_injective(a: int, b: int)
    requires
        0 <= a < 64,
        0 <= b < 64,
        symbol(a) == symbol(b),
    ensures
        a == b,
{
    assert(symbol(a) as int == symbol(b) as int);
}

/// Different byte strings have different texts.
pub proof fn base64_injective(a: Seq<u8>, b: Seq<u8>)
    requires
        base64_text(a) == base64_text(b),
    ensures
        a == b,
{
    let n = base64_length(a.len() as int);
    let k = base64_length(b.len() as int);
    assert(n >= 0 && k >= 0);
    assert(base64_text(a).len() == n);
    assert(base64_text(b).len() == k);
    assert((4 * a.len() as int + 2) / 3 == (4 * b.len() as int + 2) / 3);
    assert(a.len() == b.len());
    assert forall|i: int| 0 <= i < n implies six_bits(a, i) == six_bits(b, i) by {
        assert(base64_text(a)[i] == symbol(six_bits(a, i)));
        assert(base64_text(b)[i] == symbol(six_bits(b, i)));
        six_bits_range(a, i);
        six_bits_range(b, i);
        symbol_injective(six_bits(a, i), six_bits(b, i));
    }
    assert forall|j: int| 0 <= j < a.len() implies a[j] == b[j] by {
        let g = j / 3;
        let i = g * 4;
        assert(i / 4 == g && i % 4 == 0);
        assert((i + 1) / 4 == g && (i + 1) % 4 == 1);
        assert((i + 2) / 4 == g && (i + 2) % 4 == 2);
        assert((i + 3) / 4 == g && (i + 3) % 4 == 3);
        if j % 3 == 0 {
            assert(i + 1 < n);
            assert(six_bits(a, i) == six_bits(b, i));
            assert(six_bits(a, i + 1) == six_bits(b, i + 1));
        } else if j % 3 == 1 {
            assert(i + 2 < n);
            assert(six_bits(a, i + 1) == six_bits(b, i + 1));
            assert(six_bits(a, i + 2) == six_bits(b, i + 2));
        } else {
            assert(i + 3 < n);
            assert(six_bits(a, i + 2) == six_bits(b, i + 2));
            assert(six_bits(a, i + 3) == six_bits(b, i + 3));
        }
    }
    assert(a =~= b);
}

pub(crate) proof fn six_bits_range(b: Seq<u8>, i: int)
    ensures
        0 <= six_bits(b, i) < 64,
{
}

} // verus!

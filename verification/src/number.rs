//! Decimal numbers as text.
use vstd::prelude::*;

use crate::order::code_point;

verus! {

/// The character of a decimal digit.
pub open spec fn digit(n: int) -> char {
    (48 + n) as char
}

/// A decimal digit.
pub open spec fn is_digit(c: char) -> bool {
    '0' <= c <= '9'
}

/// The decimal text of `n`, with zeros in front up to `w` characters.
pub open spec fn padded(n: nat, w: nat) -> Seq<char>
    decreases n + w,
{
    if n < 10 && w <= 1 {
        seq![digit(n as int)]
    } else {
        padded(n / 10, if w > 0 {
            (w - 1) as nat
        } else {
            0
        }).push(digit((n % 10) as int))
    }
}

/// Every character is a decimal digit.
pub open spec fn all_digits(s: Seq<char>) -> bool {
    forall|i: int| 0 <= i < s.len() ==> is_digit(#[trigger] s[i])
}

/// The number that decimal digits stand for.
pub open spec fn number(s: Seq<char>) -> int
    decreases s.len(),
{
    if s.len() == 0 {
        0
    } else {
        10 * number(s.drop_last()) + (s.last() as int - 48)
    }
}

/// Reading the text of a number gives the number.
pub proof fn number_of_padded(n: nat, w: nat)
    ensures
        number(padded(n, w)) == n,
        all_digits(padded(n, w)),
        padded(n, w).len() >= w,
        padded(n, w).len() >= 1,
    decreases n + w,
{
    let t = padded(n, w);
    if n < 10 && w <= 1 {
        assert(t.drop_last() =~= Seq::<char>::empty());
        assert(number(t.drop_last()) == 0);
    } else {
        let w1 = if w > 0 {
            (w - 1) as nat
        } else {
            0
        };
        number_of_padded(n / 10, w1);
        let p = padded(n / 10, w1);
        assert(t.drop_last() =~= p);
        assert forall|i: int| 0 <= i < t.len() implies is_digit(#[trigger] t[i]) by {
            if i < p.len() {
                assert(t[i] == p[i]);
            }
        }
    }
}

/// Numbers that fit have exactly the width asked for.
pub proof fn padded_fits(n: nat, w: nat, limit: nat)
    requires
        w >= 1,
        n < limit,
        limit == ten_to(w),
    ensures
        padded(n, w).len() == w,
    decreases w,
{
    if n < 10 && w <= 1 {
    } else if w == 1 {
        assert(ten_to(1) == 10 * ten_to(0));
    } else {
        padded_fits(n / 10, (w - 1) as nat, ten_to((w - 1) as nat));
    }
}

/// Ten to the power `w`.
pub open spec fn ten_to(w: nat) -> nat
    decreases w,
{
    if w == 0 {
        1
    } else {
        10 * ten_to((w - 1) as nat)
    }
}

/// The digits of a number of fixed width are fixed by the number.
pub proof fn padded_of_number(s: Seq<char>)
    requires
        s.len() >= 1,
        all_digits(s),
    ensures
        number(s) >= 0,
        padded(number(s) as nat, s.len()) == s,
    decreases s.len(),
{
    let p = s.drop_last();
    let d = s.last() as int - 48;
    assert(is_digit(s[s.len() - 1]));
    assert(0 <= d < 10);
    assert(digit(d) == s.last());
    if s.len() == 1 {
        assert(number(p) == 0);
        assert(s =~= seq![digit(number(s))]);
    } else {
        assert forall|i: int| 0 <= i < p.len() implies is_digit(#[trigger] p[i]) by {
            assert(p[i] == s[i]);
        }
        padded_of_number(p);
        let n = number(s);
        assert(n / 10 == number(p) && n % 10 == d);
        assert(padded(n as nat, s.len()) =~= p.push(digit(d)));
        assert(p.push(s.last()) =~= s);
    }
}

/// A number of so many digits is below that power of ten.
pub proof fn number_bound(s: Seq<char>)
    requires
        all_digits(s),
    ensures
        0 <= number(s) < ten_to(s.len()),
    decreases s.len(),
{
    if s.len() > 0 {
        let p = s.drop_last();
        assert forall|i: int| 0 <= i < p.len() implies is_digit(#[trigger] p[i]) by {
            assert(p[i] == s[i]);
        }
        number_bound(p);
        assert(is_digit(s[s.len() - 1]));
    }
}

/// The number at `from..to`; nothing where a character is not a digit.
pub fn digits_at(s: &[char], from: usize, to: usize) -> (r: Option<u64>)
    requires
        from <= to <= s@.len(),
        to - from <= 18,
    ensures
        r is Some <==> all_digits(s@.subrange(from as int, to as int)),
        r matches Some(n) ==> n == number(s@.subrange(from as int, to as int)),
{
    let ghost part = s@.subrange(from as int, to as int);
    let mut v: u64 = 0;
    let mut i: usize = from;
    proof {
        reveal_with_fuel(ten_to, 19);
    }
    while i < to
        invariant
            from <= i <= to <= s@.len(),
            to - from <= 18,
            part == s@.subrange(from as int, to as int),
            all_digits(part.take(i - from)),
            v == number(part.take(i - from)),
        decreases to - i,
    {
        let c = code_point(s[i]);
        assert(part[i - from] == s@[i as int]);
        if c < 48 || c > 57 {
            assert(!is_digit(part[i - from]));
            return None;
        }
        proof {
            let t = part.take(i - from);
            let u = part.take(i - from + 1);
            assert(u.drop_last() =~= t);
            assert(u.last() == s@[i as int]);
            assert forall|k: int| 0 <= k < u.len() implies is_digit(#[trigger] u[k]) by {
                if k < t.len() {
                    assert(u[k] == t[k]);
                }
            }
            number_bound(t);
            ten_to_grows((i - from) as nat, 17);
            assert(ten_to(17) == 100_000_000_000_000_000) by {
                reveal_with_fuel(ten_to, 18);
            }
        }
        v = 10 * v + (c - 48) as u64;
        i += 1;
    }
    assert(part.take(i - from) =~= part);
    Some(v)
}

proof fn ten_to_grows(a: nat, b: nat)
    requires
        a <= b,
    ensures
        ten_to(a) <= ten_to(b),
    decreases b,
{
    if a < b {
        ten_to_grows(a, (b - 1) as nat);
    }
}

/// Appends the decimal text of `n`, with zeros in front up to `w` characters.
pub fn push_padded(out: &mut String, n: u64, w: usize)
    ensures
        final(out)@ == old(out)@ + padded(n as nat, w as nat),
    decreases n + w,
{
    if n < 10 && w <= 1 {
        crate::text::push_char(out, digit_char(n));
        assert(out@ =~= old(out)@ + padded(n as nat, w as nat));
    } else {
        let w1: usize = if w > 0 {
            w - 1
        } else {
            0
        };
        push_padded(out, n / 10, w1);
        crate::text::push_char(out, digit_char(n % 10));
        assert(out@ =~= old(out)@ + padded(n as nat, w as nat));
    }
}

/// The character of a digit.
fn digit_char(n: u64) -> (r: char)
    requires
        n < 10,
    ensures
        r == digit(n as int),
{
    (48 + n as u8) as char
}

/// The decimal text of a number.
pub fn decimal(n: u64) -> (r: String)
    ensures
        r@ == padded(n as nat, 1),
{
    let mut out = String::new();
    push_padded(&mut out, n, 1);
    assert(out@ =~= padded(n as nat, 1));
    out
}

} // verus!

//! Byte strings: comparing, searching, joining.
use vstd::prelude::*;

verus! {

/// Whether two byte strings are equal.
pub fn same_bytes(a: &[u8], b: &[u8]) -> (r: bool)
    ensures
        r == (a@ == b@),
{
    if a.len() != b.len() {
        return false;
    }
    let mut i: usize = 0;
    while i < a.len()
        invariant
            i <= a.len(),
            a.len() == b.len(),
            forall|j: int| 0 <= j < i ==> a@[j] == b@[j],
        decreases a.len() - i,
    {
        if a[i] != b[i] {
            return false;
        }
        i += 1;
    }
    assert(a@ =~= b@);
    true
}

/// Whether `s` begins with `prefix`.
pub open spec fn has_prefix<T>(s: Seq<T>, prefix: Seq<T>) -> bool {
    prefix.len() <= s.len() && s.take(prefix.len() as int) == prefix
}

/// Whether `s` begins with `prefix`.
pub fn starts_with(s: &[u8], prefix: &[u8]) -> (r: bool)
    ensures
        r == has_prefix(s@, prefix@),
{
    if s.len() < prefix.len() {
        return false;
    }
    same_bytes(vstd::slice::slice_subrange(s, 0, prefix.len()), prefix)
}

/// The position of the first `b` in `s`, or the length of `s` where there is none.
pub open spec fn first_of(s: Seq<u8>, b: u8) -> int
    decreases s.len(),
{
    if s.len() == 0 {
        0
    } else if s[0] == b {
        0
    } else {
        1 + first_of(s.drop_first(), b)
    }
}

/// What `first_of` finds: nothing before it matches, and it matches unless it is the end.
pub proof fn first_of_is_first(s: Seq<u8>, b: u8)
    ensures
        0 <= first_of(s, b) <= s.len(),
        forall|j: int| 0 <= j < first_of(s, b) ==> s[j] != b,
        first_of(s, b) < s.len() ==> s[first_of(s, b)] == b,
    decreases s.len(),
{
    if s.len() != 0 && s[0] != b {
        let t = s.drop_first();
        first_of_is_first(t, b);
        let n = first_of(t, b);
        assert forall|j: int| 0 <= j < 1 + n implies s[j] != b by {
            if j > 0 {
                assert(s[j] == t[j - 1]);
            }
        }
        if n < t.len() {
            assert(s[1 + n] == t[n]);
        }
    }
}

/// A position before which nothing matches, and which matches or is the end, is the first.
pub proof fn first_of_unique(s: Seq<u8>, b: u8, i: int)
    requires
        0 <= i <= s.len(),
        forall|j: int| 0 <= j < i ==> s[j] != b,
        i < s.len() ==> s[i] == b,
    ensures
        first_of(s, b) == i,
{
    first_of_is_first(s, b);
    let n = first_of(s, b);
    if n < i {
        assert(s[n] != b);
    } else if i < n {
        assert(s[i] != b);
    }
}

/// Finds the first `b` at or after `from`, counted from the start of `s`.
pub fn find_byte(s: &[u8], from: usize, b: u8) -> (r: Option<usize>)
    requires
        from <= s@.len(),
    ensures
        r is Some <==> first_of(s@.skip(from as int), b) < s@.len() - from,
        r matches Some(i) ==> i < s@.len() && i == from + first_of(s@.skip(from as int), b),
{
    let ghost tail = s@.skip(from as int);
    let mut i: usize = from;
    while i < s.len()
        invariant
            from <= i <= s@.len(),
            tail == s@.skip(from as int),
            forall|j: int| 0 <= j < i - from ==> tail[j] != b,
        decreases s.len() - i,
    {
        if s[i] == b {
            proof {
                assert(tail[i - from] == s@[i as int]);
                first_of_unique(tail, b, i - from);
            }
            return Some(i);
        }
        assert(tail[i - from] == s@[i as int]);
        i += 1;
    }
    proof {
        first_of_unique(tail, b, i - from);
    }
    None
}

/// Appends `more` to `out`.
pub fn append_bytes(out: &mut Vec<u8>, more: &[u8])
    ensures
        final(out)@ == old(out)@ + more@,
{
    let ghost before = out@;
    let mut i: usize = 0;
    while i < more.len()
        invariant
            i <= more.len(),
            out@ == before + more@.take(i as int),
        decreases more.len() - i,
    {
        out.push(more[i]);
        i += 1;
        assert(more@.take(i as int) =~= more@.take(i - 1).push(more@[i - 1]));
        assert(out@ =~= before + more@.take(i as int));
    }
    assert(more@.take(i as int) =~= more@);
}

/// A copy of a byte string.
pub fn copy_bytes(s: &[u8]) -> (r: Vec<u8>)
    ensures
        r@ == s@,
{
    vstd::slice::slice_to_vec(s)
}

/// The 32 bytes of `s` from `from` on.
pub fn array32_at(s: &[u8], from: usize) -> (r: [u8; 32])
    requires
        from + 32 <= s@.len(),
    ensures
        r@ == s@.subrange(from as int, from + 32),
{
    let mut out: [u8; 32] = [0u8; 32];
    let mut i: usize = 0;
    while i < 32
        invariant
            i <= 32,
            from + 32 <= s.len(),
            forall|j: int| 0 <= j < i ==> out@[j] == s@[from + j],
        decreases 32 - i,
    {
        out[i] = s[from + i];
        i += 1;
    }
    assert(out@ =~= s@.subrange(from as int, from + 32));
    out
}

/// Two arrays with the same elements are equal.
pub broadcast proof fn array_extensional<const N: usize>(a: [u8; N], b: [u8; N])
    ensures
        #![trigger a@, b@]
        a@ == b@ ==> a == b,
{
    if a@ == b@ {
        assert(a =~= b);
    }
}

/// The last `w` bytes of a number, the highest first.
pub open spec fn be_bytes(n: nat, w: nat) -> Seq<u8>
    decreases w,
{
    if w == 0 {
        Seq::empty()
    } else {
        be_bytes(n / 256, (w - 1) as nat).push((n % 256) as u8)
    }
}

/// The number that bytes stand for, the highest first.
pub open spec fn be_value(s: Seq<u8>) -> nat
    decreases s.len(),
{
    if s.len() == 0 {
        0
    } else {
        256 * be_value(s.drop_last()) + s.last() as nat
    }
}

/// The first number that does not fit in `w` bytes.
pub open spec fn byte_limit(w: nat) -> nat
    decreases w,
{
    if w == 0 {
        1
    } else {
        256 * byte_limit((w - 1) as nat)
    }
}

/// Numbers that fit are read back.
pub proof fn be_round_trip(n: nat, w: nat)
    ensures
        be_bytes(n, w).len() == w,
        n < byte_limit(w) ==> be_value(be_bytes(n, w)) == n,
    decreases w,
{
    if w > 0 {
        let b = be_bytes(n, w);
        be_round_trip(n / 256, (w - 1) as nat);
        assert(b.drop_last() =~= be_bytes(n / 256, (w - 1) as nat));
        assert(n < byte_limit(w) ==> n / 256 < byte_limit((w - 1) as nat));
    }
}

/// Bytes that are read as a number are the bytes of that number.
pub proof fn be_value_unique(s: Seq<u8>)
    ensures
        be_value(s) < byte_limit(s.len()),
        be_bytes(be_value(s), s.len()) == s,
    decreases s.len(),
{
    if s.len() > 0 {
        be_value_unique(s.drop_last());
        let n = be_value(s);
        assert(n / 256 == be_value(s.drop_last()));
        assert(n % 256 == s.last() as nat);
        assert(s =~= s.drop_last().push(s.last()));
    } else {
        assert(s =~= be_bytes(0, 0));
    }
}

/// Appends the last eight bytes of a number.
pub fn push_be64(out: &mut Vec<u8>, n: u64)
    ensures
        final(out)@ == old(out)@ + be_bytes(n as nat, 8),
{
    let ghost before = out@;
    out.push((n / 0x100_0000_0000_0000u64 % 256) as u8);
    out.push((n / 0x1_0000_0000_0000u64 % 256) as u8);
    out.push((n / 0x100_0000_0000u64 % 256) as u8);
    out.push((n / 0x1_0000_0000u64 % 256) as u8);
    out.push((n / 0x100_0000u64 % 256) as u8);
    out.push((n / 0x1_0000u64 % 256) as u8);
    out.push((n / 0x100u64 % 256) as u8);
    out.push((n % 256) as u8);
    proof {
        reveal_with_fuel(be_bytes, 9);
        let m = n as nat;
        assert(m / 256 / 256 == m / 0x1_0000);
        assert(m / 0x1_0000 / 256 == m / 0x100_0000);
        assert(m / 0x100_0000 / 256 == m / 0x1_0000_0000);
        assert(m / 0x1_0000_0000 / 256 == m / 0x100_0000_0000);
        assert(m / 0x100_0000_0000 / 256 == m / 0x1_0000_0000_0000);
        assert(m / 0x1_0000_0000_0000 / 256 == m / 0x100_0000_0000_0000);
        assert(out@ =~= before + be_bytes(m, 8));
    }
}

/// Appends the last four bytes of a number.
pub fn push_be32(out: &mut Vec<u8>, n: u32)
    ensures
        final(out)@ == old(out)@ + be_bytes(n as nat, 4),
{
    let ghost before = out@;
    out.push((n / 0x100_0000u32 % 256) as u8);
    out.push((n / 0x1_0000u32 % 256) as u8);
    out.push((n / 0x100u32 % 256) as u8);
    out.push((n % 256) as u8);
    proof {
        reveal_with_fuel(be_bytes, 5);
        let m = n as nat;
        assert(m / 256 / 256 == m / 0x1_0000);
        assert(m / 0x1_0000 / 256 == m / 0x100_0000);
        assert(out@ =~= before + be_bytes(m, 4));
    }
}

/// The number in `w` bytes of `s` from `from` on.
pub fn be_at(s: &[u8], from: usize, w: usize) -> (r: u64)
    requires
        from + w <= s.len(),
        w <= 8,
    ensures
        r == be_value(s@.subrange(from as int, from + w)),
{
    let mut v: u64 = 0;
    let mut i: usize = 0;
    let ghost part = s@.subrange(from as int, from + w);
    while i < w
        invariant
            i <= w <= 8,
            from + w <= s.len(),
            part == s@.subrange(from as int, from + w),
            v == be_value(part.take(i as int)),
        decreases w - i,
    {
        proof {
            let t = part.take(i as int);
            let u = part.take(i + 1);
            assert(u.drop_last() =~= t);
            assert(u.last() == s@[from + i]);
            be_value_unique(t);
            byte_limit_grows(i as nat, 7);
            assert(byte_limit(7) == 0x100_0000_0000_0000) by {
                reveal_with_fuel(byte_limit, 8);
            }
        }
        v = 256 * v + s[from + i] as u64;
        i += 1;
    }
    assert(part.take(i as int) =~= part);
    v
}

proof fn byte_limit_grows(a: nat, b: nat)
    requires
        a <= b,
    ensures
        byte_limit(a) <= byte_limit(b),
    decreases b,
{
    if a < b {
        byte_limit_grows(a, (b - 1) as nat);
    }
}

/// Numbers of 64 bits fit in eight bytes, and numbers of 32 bits in four.
pub proof fn machine_limits()
    ensures
        byte_limit(8) == 0x1_0000_0000_0000_0000,
        byte_limit(4) == 0x1_0000_0000,
{
    reveal_with_fuel(byte_limit, 9);
}

} // verus!

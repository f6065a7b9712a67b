//! A total order on keys, and a map whose entries are kept in that order.
use vstd::prelude::*;

verus! {

/// `a` and `b` agree before position `k`, where `a` ends or holds the smaller element.
pub open spec fn splits_at(a: Seq<int>, b: Seq<int>, k: int) -> bool {
    &&& 0 <= k <= a.len()
    &&& k < b.len()
    &&& forall|j: int| 0 <= j < k ==> a[j] == b[j]
    &&& (k == a.len() || a[k] < b[k])
}

/// Lexicographic order.
pub open spec fn lex_before(a: Seq<int>, b: Seq<int>) -> bool {
    exists|k: int| splits_at(a, b, k)
}

/// No sequence stands before itself.
pub proof fn lex_irreflexive(a: Seq<int>)
    ensures
        !lex_before(a, a),
{
}

/// The order is transitive.
pub proof fn lex_transitive(a: Seq<int>, b: Seq<int>, c: Seq<int>)
    requires
        lex_before(a, b),
        lex_before(b, c),
    ensures
        lex_before(a, c),
{
    let k1 = choose|k: int| splits_at(a, b, k);
    let k2 = choose|k: int| splits_at(b, c, k);
    if k1 <= k2 {
        assert(splits_at(a, c, k1));
    } else {
        assert(splits_at(a, c, k2));
    }
}

/// Of two different sequences one stands before the other.
pub proof fn lex_total(a: Seq<int>, b: Seq<int>)
    ensures
        a == b || lex_before(a, b) || lex_before(b, a),
{
    lex_total_from(a, b, 0);
}

proof fn lex_total_from(a: Seq<int>, b: Seq<int>, k: int)
    requires
        0 <= k <= a.len(),
        k <= b.len(),
        forall|j: int| 0 <= j < k ==> a[j] == b[j],
    ensures
        a == b || lex_before(a, b) || lex_before(b, a),
    decreases a.len() - k,
{
    if k == a.len() && k == b.len() {
        assert(a =~= b);
    } else if k == a.len() {
        assert(splits_at(a, b, k));
    } else if k == b.len() {
        assert(splits_at(b, a, k));
    } else if a[k] < b[k] {
        assert(splits_at(a, b, k));
    } else if b[k] < a[k] {
        assert(splits_at(b, a, k));
    } else {
        lex_total_from(a, b, k + 1);
    }
}

/// At most one of two sequences stands before the other.
pub proof fn lex_asymmetric(a: Seq<int>, b: Seq<int>)
    ensures
        !(lex_before(a, b) && lex_before(b, a)),
        a == b ==> !lex_before(a, b),
{
    if lex_before(a, b) && lex_before(b, a) {
        lex_transitive(a, b, a);
    }
}

/// Where one key stands relative to another.
#[derive(Clone, Copy, Debug, PartialEq, Eq, Structural)]
pub enum Side {
    Before,
    Same,
    After,
}

/// What `Key::side` tells of two ranks.
pub open spec fn side_of(a: Seq<int>, b: Seq<int>) -> Side {
    if a == b {
        Side::Same
    } else if lex_before(a, b) {
        Side::Before
    } else {
        Side::After
    }
}

/// A value that entries can be found and ordered by.
pub trait Key: Sized {
    /// What identifies the key and orders it among others.
    spec fn rank(&self) -> Seq<int>;

    /// Compares by rank.
    fn side(&self, other: &Self) -> (r: Side)
        ensures
            r == side_of(self.rank(), other.rank()),
    ;
}

/// The bytes of `s` as integers.
pub open spec fn byte_rank(s: Seq<u8>) -> Seq<int> {
    Seq::new(s.len(), |i: int| s[i] as int)
}

/// The code points of `s` as integers.
pub open spec fn char_rank(s: Seq<char>) -> Seq<int> {
    Seq::new(s.len(), |i: int| s[i] as int)
}

/// Different byte strings have different ranks.
pub broadcast proof fn byte_rank_injective(a: Seq<u8>, b: Seq<u8>)
    ensures
        #![trigger byte_rank(a), byte_rank(b)]
        byte_rank(a) == byte_rank(b) ==> a == b,
{
    if byte_rank(a) == byte_rank(b) {
        assert(a.len() == byte_rank(a).len());
        assert(b.len() == byte_rank(b).len());
        assert forall|i: int| 0 <= i < a.len() implies a[i] == b[i] by {
            assert(byte_rank(a)[i] == byte_rank(b)[i]);
        }
        assert(a =~= b);
    }
}

/// Different texts have different ranks.
pub broadcast proof fn char_rank_injective(a: Seq<char>, b: Seq<char>)
    ensures
        #![trigger char_rank(a), char_rank(b)]
        char_rank(a) == char_rank(b) ==> a == b,
{
    if char_rank(a) == char_rank(b) {
        assert(a.len() == char_rank(a).len());
        assert(b.len() == char_rank(b).len());
        assert forall|i: int| 0 <= i < a.len() implies a[i] == b[i] by {
            assert(char_rank(a)[i] == char_rank(b)[i]);
        }
        assert(a =~= b);
    }
}

/// Compares two byte strings.
pub fn compare_bytes(a: &[u8], b: &[u8]) -> (r: Side)
    ensures
        r == side_of(byte_rank(a@), byte_rank(b@)),
{
    let ghost ra = byte_rank(a@);
    let ghost rb = byte_rank(b@);
    let mut i: usize = 0;
    while i < a.len() && i < b.len()
        invariant
            i <= a.len(),
            i <= b.len(),
            ra == byte_rank(a@),
            rb == byte_rank(b@),
            forall|j: int| 0 <= j < i ==> ra[j] == rb[j],
        decreases a.len() - i,
    {
        if a[i] < b[i] {
            proof {
                assert(splits_at(ra, rb, i as int));
                lex_asymmetric(ra, rb);
            }
            return Side::Before;
        }
        if a[i] > b[i] {
            proof {
                assert(splits_at(rb, ra, i as int));
                lex_asymmetric(rb, ra);
            }
            return Side::After;
        }
        i += 1;
    }
    if i < b.len() {
        proof {
            assert(splits_at(ra, rb, i as int));
            lex_asymmetric(ra, rb);
        }
        Side::Before
    } else if i < a.len() {
        proof {
            assert(splits_at(rb, ra, i as int));
            lex_asymmetric(rb, ra);
        }
        Side::After
    } else {
        assert(ra =~= rb);
        Side::Same
    }
}

/// The number of a character.
pub fn code_point(c: char) -> (r: u32)
    ensures
        r as int == c as int,
{
    c as u32
}

/// Compares two texts by code points, which is also their order as UTF-8 bytes.
pub fn compare_chars(a: &[char], b: &[char]) -> (r: Side)
    ensures
        r == side_of(char_rank(a@), char_rank(b@)),
{
    let ghost ra = char_rank(a@);
    let ghost rb = char_rank(b@);
    let mut i: usize = 0;
    while i < a.len() && i < b.len()
        invariant
            i <= a.len(),
            i <= b.len(),
            ra == char_rank(a@),
            rb == char_rank(b@),
            forall|j: int| 0 <= j < i ==> ra[j] == rb[j],
        decreases a.len() - i,
    {
        let x: u32 = code_point(a[i]);
        let y: u32 = code_point(b[i]);
        if x < y {
            proof {
                assert(splits_at(ra, rb, i as int));
                lex_asymmetric(ra, rb);
            }
            return Side::Before;
        }
        if x > y {
            proof {
                assert(splits_at(rb, ra, i as int));
                lex_asymmetric(rb, ra);
            }
            return Side::After;
        }
        i += 1;
    }
    if i < b.len() {
        proof {
            assert(splits_at(ra, rb, i as int));
            lex_asymmetric(ra, rb);
        }
        Side::Before
    } else if i < a.len() {
        proof {
            assert(splits_at(rb, ra, i as int));
            lex_asymmetric(rb, ra);
        }
        Side::After
    } else {
        assert(ra =~= rb);
        Side::Same
    }
}

impl Key for String {
    open spec fn rank(&self) -> Seq<int> {
        char_rank(self@)
    }

    fn side(&self, other: &Self) -> (r: Side) {
        compare_chars(crate::text::chars_of(self.as_str()).as_slice(), crate::text::chars_of(other.as_str()).as_slice())
    }
}

} // verus!

//! Records whose members are strings are told apart by their bytes: no two are written alike.
use vstd::prelude::*;
use vstd::utf8::encode_utf8_decode_utf8;

use crate::bytes::array_extensional;
use crate::canonical::{
    canonical_bytes, escape, escaped, json_bytes, json_text, members_text, quoted,
};
use crate::capsule::{genesis_check, genesis_members, record_check, signed_record, Genesis, SPEC};
use crate::identity::Identity;
use crate::json::JsonV;
use crate::record::Members;
use crate::util::{hex_digit, hex_round_trip, hex_text};

verus! {

proof fn escaped_from_the_front(s: Seq<char>)
    requires
        s.len() > 0,
    ensures
        escaped(s) == escape(s[0]) + escaped(s.skip(1)),
    decreases s.len(),
{
    if s.len() == 1 {
        assert(s.drop_last() =~= Seq::<char>::empty());
        assert(s.skip(1) =~= Seq::<char>::empty());
        assert(escaped(s.drop_last()) =~= Seq::<char>::empty());
        assert(escaped(s) =~= escape(s[0]));
        assert(escaped(s.skip(1)) =~= Seq::<char>::empty());
        assert(escaped(s) =~= escape(s[0]) + escaped(s.skip(1)));
    } else {
        let t = s.drop_last();
        escaped_from_the_front(t);
        assert(t.skip(1) =~= s.skip(1).drop_last());
        assert(escaped(s.skip(1)) == escaped(t.skip(1)) + escape(s.last()));
        assert(escaped(s) =~= escape(s[0]) + (escaped(t.skip(1)) + escape(s.last())));
    }
}

proof fn digits_differ(a: int, b: int)
    requires
        0 <= a < 16,
        0 <= b < 16,
        hex_digit(a) == hex_digit(b),
    ensures
        a == b,
{
    assert(hex_digit(a) as int == if a < 10 { 48 + a } else { 87 + a });
    assert(hex_digit(b) as int == if b < 10 { 48 + b } else { 87 + b });
}

/// What one character is written as does not begin what another is written as.
proof fn escape_tells_apart(a: char, b: char, x: Seq<char>, y: Seq<char>)
    requires
        escape(a) + x == escape(b) + y,
    ensures
        a == b,
        x == y,
{
    let (s, t) = (escape(a), escape(b));
    let whole = s + x;
    assert(whole[0] == s[0] && whole[0] == t[0]);
    assert(s[0] == '\\' ==> s.len() > 1 && whole[1] == s[1]);
    assert(t[0] == '\\' ==> t.len() > 1 && whole[1] == t[1]);
    if s.len() == 6 && t.len() == 6 {
        assert(whole[4] == s[4] && whole[4] == t[4]);
        assert(whole[5] == s[5] && whole[5] == t[5]);
        digits_differ(a as int / 16, b as int / 16);
        digits_differ(a as int % 16, b as int % 16);
        assert(a as int == b as int);
    }
    assert(a == b);
    assert(x =~= whole.skip(s.len() as int));
    assert(y =~= (t + y).skip(t.len() as int));
}

/// What is written up to the closing quote tells the characters.
proof fn escaped_tells_apart(s: Seq<char>, t: Seq<char>, x: Seq<char>, y: Seq<char>)
    requires
        escaped(s) + (seq!['"'] + x) == escaped(t) + (seq!['"'] + y),
    ensures
        s == t,
        x == y,
    decreases s.len(),
{
    let (p, q) = (seq!['"'] + x, seq!['"'] + y);
    let (l, r) = (escaped(s) + p, escaped(t) + q);
    if s.len() == 0 || t.len() == 0 {
        if s.len() == 0 {
            assert(l =~= p);
        } else {
            escaped_from_the_front(s);
            assert(l[0] == escape(s[0])[0]);
        }
        if t.len() == 0 {
            assert(r =~= q);
        } else {
            escaped_from_the_front(t);
            assert(r[0] == escape(t[0])[0]);
        }
        assert(l[0] == r[0]);
        assert(s =~= t);
        assert(x =~= p.skip(1));
        assert(y =~= q.skip(1));
    } else {
        escaped_from_the_front(s);
        escaped_from_the_front(t);
        assert(l =~= escape(s[0]) + (escaped(s.skip(1)) + p));
        assert(r =~= escape(t[0]) + (escaped(t.skip(1)) + q));
        escape_tells_apart(s[0], t[0], escaped(s.skip(1)) + p, escaped(t.skip(1)) + q);
        escaped_tells_apart(s.skip(1), t.skip(1), x, y);
        assert(s =~= seq![s[0]] + s.skip(1));
        assert(t =~= seq![t[0]] + t.skip(1));
    }
}

/// A string in quotes is no beginning of another.
proof fn quoted_tells_apart(s: Seq<char>, t: Seq<char>, x: Seq<char>, y: Seq<char>)
    requires
        quoted(s) + x == quoted(t) + y,
    ensures
        s == t,
        x == y,
{
    let l = escaped(s) + (seq!['"'] + x);
    let r = escaped(t) + (seq!['"'] + y);
    assert((quoted(s) + x).skip(1) =~= l);
    assert((quoted(t) + y).skip(1) =~= r);
    escaped_tells_apart(s, t, x, y);
}

/// Every value is a string.
pub open spec fn flat(m: Members) -> bool {
    forall|i: int| 0 <= i < m.len() ==> (#[trigger] m[i]).1 is Str
}

spec fn member_text(m: (Seq<char>, JsonV)) -> Seq<char> {
    quoted(m.0) + (seq![':'] + quoted(m.1->Str_0))
}

/// What is written after a member.
spec fn tail_text(m: Members) -> Seq<char>
    decreases m.len(),
{
    if m.len() == 0 {
        Seq::empty()
    } else {
        seq![','] + (member_text(m[0]) + tail_text(m.skip(1)))
    }
}

proof fn tail_from_the_back(m: Members)
    requires
        m.len() > 0,
    ensures
        tail_text(m) == tail_text(m.drop_last()) + (seq![','] + member_text(m.last())),
    decreases m.len(),
{
    if m.len() == 1 {
        assert(m.skip(1) =~= Seq::empty());
        assert(m.drop_last() =~= Seq::empty());
        assert(tail_text(m) =~= tail_text(m.drop_last()) + (seq![','] + member_text(m.last())));
    } else {
        tail_from_the_back(m.skip(1));
        assert(m.skip(1).drop_last() =~= m.drop_last().skip(1));
        assert(tail_text(m) =~= tail_text(m.drop_last()) + (seq![','] + member_text(m.last())));
    }
}

proof fn members_from_the_front(m: Members)
    requires
        flat(m),
        m.len() > 0,
    ensures
        members_text(m) == member_text(m[0]) + tail_text(m.skip(1)),
    decreases m.len(),
{
    reveal_with_fuel(members_text, 2);
    reveal_with_fuel(json_text, 2);
    assert(m[0].1 is Str);
    assert(json_text(m[0].1) == quoted(m[0].1->Str_0));
    if m.len() == 1 {
        assert(m.skip(1) =~= Seq::empty());
        assert(tail_text(m.skip(1)) =~= Seq::<char>::empty());
        assert(members_text(m) =~= member_text(m[0]) + tail_text(m.skip(1)));
    } else {
        let front = m.drop_last();
        assert(front =~= m.subrange(0, m.len() - 1));
        assert(flat(front)) by {
            assert forall|i: int| 0 <= i < front.len() implies (#[trigger] front[i]).1 is Str by {
                assert(front[i] == m[i]);
            }
        }
        members_from_the_front(front);
        tail_from_the_back(m.skip(1));
        assert(m.skip(1).drop_last() =~= front.skip(1));
        assert(m.skip(1).last() == m.last());
        assert(m[m.len() - 1].1 is Str);
        assert(json_text(m.last().1) == quoted(m.last().1->Str_0));
        assert(members_text(m) =~= members_text(front) + (seq![','] + member_text(m.last())));
        assert(members_text(m) =~= member_text(m[0]) + tail_text(m.skip(1)));
    }
}

proof fn member_tells_apart(
    a: (Seq<char>, JsonV),
    b: (Seq<char>, JsonV),
    x: Seq<char>,
    y: Seq<char>,
)
    requires
        a.1 is Str,
        b.1 is Str,
        member_text(a) + x == member_text(b) + y,
    ensures
        a == b,
        x == y,
{
    let (v, w) = (quoted(a.1->Str_0) + x, quoted(b.1->Str_0) + y);
    assert(member_text(a) + x =~= quoted(a.0) + (seq![':'] + v));
    assert(member_text(b) + y =~= quoted(b.0) + (seq![':'] + w));
    quoted_tells_apart(a.0, b.0, seq![':'] + v, seq![':'] + w);
    assert((seq![':'] + v).skip(1) =~= v);
    assert((seq![':'] + w).skip(1) =~= w);
    quoted_tells_apart(a.1->Str_0, b.1->Str_0, x, y);
}

proof fn tail_tells_apart(a: Members, b: Members)
    requires
        flat(a),
        flat(b),
        tail_text(a) + seq!['}'] == tail_text(b) + seq!['}'],
    ensures
        a == b,
    decreases a.len(),
{
    let (l, r) = (tail_text(a) + seq!['}'], tail_text(b) + seq!['}']);
    if a.len() == 0 || b.len() == 0 {
        assert(l[0] == if a.len() == 0 { '}' } else { ',' });
        assert(r[0] == if b.len() == 0 { '}' } else { ',' });
        assert(a =~= b);
    } else {
        let (x, y) = (tail_text(a.skip(1)) + seq!['}'], tail_text(b.skip(1)) + seq!['}']);
        assert(l.skip(1) =~= member_text(a[0]) + x);
        assert(r.skip(1) =~= member_text(b[0]) + y);
        member_tells_apart(a[0], b[0], x, y);
        rest_is_flat(a);
        rest_is_flat(b);
        tail_tells_apart(a.skip(1), b.skip(1));
        assert(a =~= seq![a[0]] + a.skip(1));
        assert(b =~= seq![b[0]] + b.skip(1));
    }
}

proof fn rest_is_flat(m: Members)
    requires
        flat(m),
        m.len() > 0,
    ensures
        flat(m.skip(1)),
{
    assert forall|i: int| 0 <= i < m.skip(1).len() implies (#[trigger] m.skip(1)[i]).1 is Str by {
        assert(m.skip(1)[i] == m[i + 1]);
    }
}

/// Two objects of strings with the same bytes have the same members, in the same order.
pub proof fn bytes_tell_members(a: Members, b: Members)
    requires
        flat(a),
        flat(b),
        json_bytes(JsonV::Obj(a)) == json_bytes(JsonV::Obj(b)),
    ensures
        a == b,
{
    let (s, t) = (json_text(JsonV::Obj(a)), json_text(JsonV::Obj(b)));
    encode_utf8_decode_utf8(s);
    encode_utf8_decode_utf8(t);
    assert(s == t);
    assert(s.skip(1) =~= members_text(a) + seq!['}']);
    assert(t.skip(1) =~= members_text(b) + seq!['}']);
    let (l, r) = (members_text(a) + seq!['}'], members_text(b) + seq!['}']);
    if a.len() > 0 {
        members_from_the_front(a);
        rest_is_flat(a);
        assert(l[0] == '"');
        assert(l =~= member_text(a[0]) + (tail_text(a.skip(1)) + seq!['}']));
    } else {
        assert(l[0] == '}');
    }
    if b.len() > 0 {
        members_from_the_front(b);
        rest_is_flat(b);
        assert(r[0] == '"');
        assert(r =~= member_text(b[0]) + (tail_text(b.skip(1)) + seq!['}']));
    } else {
        assert(r[0] == '}');
    }
    if a.len() == 0 || b.len() == 0 {
        assert(a =~= b);
    } else {
        member_tells_apart(
            a[0],
            b[0],
            tail_text(a.skip(1)) + seq!['}'],
            tail_text(b.skip(1)) + seq!['}'],
        );
        tail_tells_apart(a.skip(1), b.skip(1));
        assert(a =~= seq![a[0]] + a.skip(1));
        assert(b =~= seq![b[0]] + b.skip(1));
    }
}

/// Two beginnings of a capsule say the same.
pub open spec fn same_genesis(a: Genesis, b: Genesis) -> bool {
    &&& a.spec@ == b.spec@
    &&& a.record_type@ == b.record_type@
    &&& a.capsule_id == b.capsule_id
    &&& a.created_at@ == b.created_at@
    &&& a.created_by == b.created_by
    &&& a.kind@ == b.kind@
    &&& a.title@ == b.title@
}

pub(crate) proof fn hex_tells_apart<const N: usize>(a: [u8; N], b: [u8; N])
    requires
        hex_text(a@) == hex_text(b@),
    ensures
        a == b,
{
    hex_round_trip(a@, "record");
    hex_round_trip(b@, "record");
    assert(hex_text(a@).len() == 2 * a@.len());
    assert(hex_text(b@).len() == 2 * b@.len());
    assert(a@ == b@);
    array_extensional(a, b);
}

/// The beginnings of two capsules that differ in some member have other canonical bytes, signed and
/// unsigned; signed, they also differ where only the signatures do.
pub proof fn genesis_bytes_tell_apart(a: Genesis, b: Genesis)
    ensures
        canonical_bytes(JsonV::Obj(genesis_members(a, None))) == canonical_bytes(
            JsonV::Obj(genesis_members(b, None)),
        ) <==> same_genesis(a, b),
        canonical_bytes(JsonV::Obj(genesis_members(a, Some(a.sig)))) == canonical_bytes(
            JsonV::Obj(genesis_members(b, Some(b.sig))),
        ) <==> same_genesis(a, b) && a.sig == b.sig,
{
    crate::capsule::genesis_has_bytes(a, None);
    crate::capsule::genesis_has_bytes(b, None);
    crate::capsule::genesis_has_bytes(a, Some(a.sig));
    crate::capsule::genesis_has_bytes(b, Some(b.sig));
    let (p, q) = (genesis_members(a, None), genesis_members(b, None));
    if canonical_bytes(JsonV::Obj(p)) == canonical_bytes(JsonV::Obj(q)) {
        bytes_tell_members(p, q);
        assert(p[0] == q[0] && p[1] == q[1] && p[2] == q[2] && p[3] == q[3] && p[4] == q[4] && p[5]
            == q[5] && p[6] == q[6]);
        hex_tells_apart(a.capsule_id.0, b.capsule_id.0);
        hex_tells_apart(a.created_by.0, b.created_by.0);
    }
    let (s, t) = (genesis_members(a, Some(a.sig)), genesis_members(b, Some(b.sig)));
    if canonical_bytes(JsonV::Obj(s)) == canonical_bytes(JsonV::Obj(t)) {
        bytes_tell_members(s, t);
        assert(s[0] == t[0] && s[1] == t[1] && s[2] == t[2] && s[3] == t[3] && s[4] == t[4] && s[5]
            == t[5] && s[6] == t[6] && s[7] == t[7]);
        hex_tells_apart(a.capsule_id.0, b.capsule_id.0);
        hex_tells_apart(a.created_by.0, b.created_by.0);
        hex_tells_apart(a.sig.0, b.sig.0);
    }
}

/// The beginning of a capsule, as its creator signs it, is in order, and no other is: where nobody
/// but the creator has signed one, and the creator no other, every change to a member or to the
/// signature is found.
pub proof fn changed_genesis_is_refused(g: Genesis, creator: Identity, other: Genesis)
    requires
        g.spec@ == SPEC@,
        g.record_type@ == "capsule-genesis"@,
        g.created_by.0@ == creator.peer(),
        signed_record(creator, "genesis"@, genesis_members(g, None), g.sig),
        g.sig.is_regular(),
        record_check(other.created_by, "genesis"@, genesis_members(other, None), other.sig) is Ok
            ==> other.sig == g.sig && canonical_bytes(JsonV::Obj(genesis_members(other, None)))
            == canonical_bytes(JsonV::Obj(genesis_members(g, None))),
    ensures
        genesis_check(g) is Ok,
        genesis_check(other) is Ok <==> same_genesis(g, other) && g.sig == other.sig,
{
    crate::net::signing::signed_genesis_verifies(g, creator);
    genesis_bytes_tell_apart(g, other);
}

} // verus!

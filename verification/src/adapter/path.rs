//! When two texts name the same directory: their parts are the same, whatever separators and dots
//! stand between them. And how paths are ordered: by their parts.
use vstd::prelude::*;

use crate::order::{code_point, lex_asymmetric, lex_before, splits_at};
use crate::text::chars_of;

verus! {

/// The parts of a path between its separators, empty ones too.
pub open spec fn split_path(s: Seq<char>) -> Seq<Seq<char>>
    decreases s.len(),
{
    if s.len() == 0 {
        seq![Seq::empty()]
    } else {
        let before = split_path(s.drop_last());
        if s.last() == '/' {
            before.push(Seq::empty())
        } else {
            before.drop_last().push(before.last().push(s.last()))
        }
    }
}

/// The part counts: it is not empty, and a dot counts only in front.
pub open spec fn counts(parts: Seq<Seq<char>>, i: int) -> bool {
    parts[i].len() > 0 && (parts[i] != seq!['.'] || i == 0)
}

/// The first `n` parts of a path, without those that do not count.
pub open spec fn counted(parts: Seq<Seq<char>>, n: int) -> Seq<Seq<char>>
    decreases n,
{
    if n <= 0 {
        Seq::empty()
    } else if counts(parts, n - 1) {
        counted(parts, n - 1).push(parts[n - 1])
    } else {
        counted(parts, n - 1)
    }
}

/// The parts of a path that name where it leads.
pub open spec fn components(s: Seq<char>) -> Seq<Seq<char>> {
    counted(split_path(s), split_path(s).len() as int)
}

/// The path starts at the root.
pub open spec fn from_root(s: Seq<char>) -> bool {
    s.len() > 0 && s[0] == '/'
}

/// Two texts name the same directory.
pub open spec fn same_place(a: Seq<char>, b: Seq<char>) -> bool {
    from_root(a) == from_root(b) && components(a) == components(b)
}

spec fn views(v: Seq<Vec<char>>) -> Seq<Seq<char>> {
    Seq::new(v.len(), |i: int| v[i]@)
}

proof fn split_at_separator(a: Seq<char>, x: Seq<char>)
    requires
        forall|i: int| 0 <= i < x.len() ==> x[i] != '/',
    ensures
        split_path(a + seq!['/'] + x) == split_path(a).push(x),
    decreases x.len(),
{
    let whole = a + seq!['/'] + x;
    if x.len() == 0 {
        assert(whole =~= a.push('/'));
        assert(whole.drop_last() =~= a);
        assert(whole.last() == '/');
        assert(x =~= Seq::<char>::empty());
        assert(split_path(whole) =~= split_path(a).push(x));
    } else {
        let y = x.drop_last();
        split_at_separator(a, y);
        assert(whole.drop_last() =~= a + seq!['/'] + y);
        let before = split_path(a).push(y);
        assert(before.drop_last() =~= split_path(a));
        assert(before.last().push(x.last()) =~= x);
        assert(split_path(whole) =~= split_path(a).push(x));
    }
}

proof fn splits_are_some(s: Seq<char>)
    ensures
        split_path(s).len() > 0,
    decreases s.len(),
{
    if s.len() > 0 {
        splits_are_some(s.drop_last());
    }
}

proof fn counted_prefix(p: Seq<Seq<char>>, x: Seq<char>, n: int)
    requires
        0 <= n <= p.len(),
    ensures
        counted(p.push(x), n) == counted(p, n),
    decreases n,
{
    if n > 0 {
        counted_prefix(p, x, n - 1);
        assert(p.push(x)[n - 1] == p[n - 1]);
    }
}

/// What stands behind a separator leads one part further. Nothing, or a dot, leads nowhere: the path
/// names the same directory as before. Two different names lead to different directories.
pub proof fn names_lead_on(a: Seq<char>, x: Seq<char>, y: Seq<char>)
    requires
        a.len() > 0,
        forall|i: int| 0 <= i < x.len() ==> x[i] != '/',
        forall|i: int| 0 <= i < y.len() ==> y[i] != '/',
    ensures
        x.len() == 0 || x == seq!['.'] ==> same_place(a + seq!['/'] + x, a),
        x.len() > 0 && x != seq!['.'] ==> components(a + seq!['/'] + x) == components(a).push(x)
            && !same_place(a + seq!['/'] + x, a),
        x.len() > 0 && x != seq!['.'] && y.len() > 0 && y != seq!['.'] && x != y ==> !same_place(
            a + seq!['/'] + x,
            a + seq!['/'] + y,
        ),
{
    step_of_parts(a, x);
    step_of_parts(a, y);
    assert(components(a).push(x).last() == x);
    assert(components(a).push(y).last() == y);
    assert(components(a).push(x).len() != components(a).len());
}

proof fn step_of_parts(a: Seq<char>, x: Seq<char>)
    requires
        a.len() > 0,
        forall|i: int| 0 <= i < x.len() ==> x[i] != '/',
    ensures
        from_root(a + seq!['/'] + x) == from_root(a),
        components(a + seq!['/'] + x) == if x.len() == 0 || x == seq!['.'] {
            components(a)
        } else {
            components(a).push(x)
        },
{
    split_at_separator(a, x);
    splits_are_some(a);
    let p = split_path(a);
    counted_prefix(p, x, p.len() as int);
    assert(p.push(x)[p.len() as int] == x);
    assert((a + seq!['/'] + x)[0] == a[0]);
}

/// A path from the root is never one that starts elsewhere.
pub proof fn roots_are_apart(a: Seq<char>, b: Seq<char>)
    requires
        a.len() > 0,
        a[0] == '/',
        b.len() == 0 || b[0] != '/',
    ensures
        !same_place(a, b),
{
}

fn split_text(s: &Vec<char>) -> (r: Vec<Vec<char>>)
    ensures
        views(r@) == split_path(s@),
{
    let mut done: Vec<Vec<char>> = Vec::new();
    let mut part: Vec<char> = Vec::new();
    let mut i: usize = 0;
    assert(s@.take(0) =~= Seq::<char>::empty());
    assert(views(done@).push(part@) =~= split_path(s@.take(0)));
    while i < s.len()
        invariant
            i <= s@.len(),
            views(done@).push(part@) == split_path(s@.take(i as int)),
        decreases s.len() - i,
    {
        let ghost before = views(done@).push(part@);
        let ghost finished = views(done@);
        proof {
            assert(s@.take(i + 1).drop_last() =~= s@.take(i as int));
            assert(s@.take(i + 1).last() == s@[i as int]);
            assert(before.drop_last() =~= finished);
            assert(before.last() == part@);
        }
        if s[i] == '/' {
            done.push(part);
            part = Vec::new();
            assert(views(done@) =~= before);
            assert(views(done@).push(part@) =~= before.push(Seq::empty()));
        } else {
            part.push(s[i]);
        }
        i += 1;
    }
    assert(s@.take(i as int) =~= s@);
    let ghost whole = views(done@).push(part@);
    done.push(part);
    assert(views(done@) =~= whole);
    done
}

fn components_of(s: &Vec<char>) -> (r: Vec<Vec<char>>)
    ensures
        views(r@) == components(s@),
{
    let mut parts = split_text(s);
    let ghost all = views(parts@);
    let total = parts.len();
    let mut out: Vec<Vec<char>> = Vec::new();
    let mut i: usize = 0;
    assert(views(out@) =~= counted(all, 0));
    assert(all.skip(0) =~= all);
    while i < total
        invariant
            i <= total,
            total == all.len(),
            views(parts@) == all.skip(i as int),
            views(out@) == counted(all, i as int),
        decreases total - i,
    {
        let ghost rest = parts@;
        assert(views(rest).len() == total - i);
        assert(views(rest)[0] == all[i as int]);
        let part = parts.remove(0);
        proof {
            assert(parts@ == rest.remove(0));
            assert(views(parts@) =~= all.skip(i + 1)) by {
                assert forall|j: int| 0 <= j < parts@.len() implies views(parts@)[j] == all.skip(
                    i + 1,
                )[j] by {
                    assert(parts@[j] == rest[j + 1]);
                    assert(views(rest)[j + 1] == all.skip(i as int)[j + 1]);
                }
            }
        }
        let dot = part.len() == 1 && part[0] == '.';
        proof {
            if dot {
                assert(part@ =~= seq!['.']);
            }
        }
        if part.len() > 0 && (!dot || i == 0) {
            let ghost before = views(out@);
            out.push(part);
            assert(views(out@) =~= before.push(all[i as int]));
        }
        i += 1;
    }
    out
}

fn same_chars(a: &Vec<char>, b: &Vec<char>) -> (r: bool)
    ensures
        r == (a@ == b@),
{
    if a.len() != b.len() {
        return false;
    }
    let mut i: usize = 0;
    while i < a.len()
        invariant
            i <= a@.len() == b@.len(),
            forall|j: int| 0 <= j < i ==> a@[j] == b@[j],
        decreases a.len() - i,
    {
        if a[i] != b[i] {
            return false;
        }
        i += 1;
    }
    assert(a@ =~= b@);
    true
}

/// Whether two texts name the same directory.
pub fn is_same_place(a: &str, b: &str) -> (r: bool)
    ensures
        r == same_place(a@, b@),
{
    let x = chars_of(a);
    let y = chars_of(b);
    let rooted_x = x.len() > 0 && x[0] == '/';
    let rooted_y = y.len() > 0 && y[0] == '/';
    if rooted_x != rooted_y {
        return false;
    }
    let p = components_of(&x);
    let q = components_of(&y);
    if p.len() != q.len() {
        assert(views(p@).len() != views(q@).len());
        return false;
    }
    let mut i: usize = 0;
    while i < p.len()
        invariant
            i <= p@.len() == q@.len(),
            views(p@) == components(a@),
            views(q@) == components(b@),
            forall|j: int| 0 <= j < i ==> (#[trigger] p@[j])@ == q@[j]@,
        decreases p.len() - i,
    {
        if !same_chars(&p[i], &q[i]) {
            assert(views(p@)[i as int] != views(q@)[i as int]);
            return false;
        }
        i += 1;
    }
    assert(views(p@) =~= views(q@));
    true
}

/// How a part of a path stands among others: a dot first, then two dots, then names by their
/// characters. A name ends in what stands before every character.
pub open spec fn part_rank(part: Seq<char>) -> Seq<int> {
    if part == seq!['.'] {
        seq![1]
    } else if part == seq!['.', '.'] {
        seq![2]
    } else {
        seq![3] + Seq::new(part.len(), |i: int| part[i] as int + 1) + seq![0]
    }
}

/// How parts of a path stand among others, one after the other.
pub open spec fn parts_rank(parts: Seq<Seq<char>>) -> Seq<int>
    decreases parts.len(),
{
    if parts.len() == 0 {
        Seq::empty()
    } else {
        parts_rank(parts.drop_last()) + part_rank(parts.last())
    }
}

/// How a path stands among others: those that start at the root in front, then by their parts from
/// the first to the last, where a directory stands before what is in it.
pub open spec fn path_rank(s: Seq<char>) -> Seq<int> {
    (if from_root(s) {
        seq![0int]
    } else {
        Seq::empty()
    }) + parts_rank(components(s))
}

/// Texts that name the same directory stand in the same place.
pub proof fn same_place_same_rank(a: Seq<char>, b: Seq<char>)
    requires
        same_place(a, b),
    ensures
        path_rank(a) == path_rank(b),
{
}

/// Numbers as integers.
spec fn numbers(v: Seq<u64>) -> Seq<int> {
    Seq::new(v.len(), |i: int| v[i] as int)
}

fn push_part(out: &mut Vec<u64>, part: &Vec<char>)
    ensures
        numbers(final(out)@) == numbers(old(out)@) + part_rank(part@),
{
    let ghost before = numbers(out@);
    if part.len() == 1 && part[0] == '.' {
        assert(part@ =~= seq!['.']);
        out.push(1);
        assert(numbers(out@) =~= before + part_rank(part@));
        return;
    }
    if part.len() == 2 && part[0] == '.' && part[1] == '.' {
        assert(part@ =~= seq!['.', '.']);
        assert(part@.len() != seq!['.'].len());
        out.push(2);
        assert(numbers(out@) =~= before + part_rank(part@));
        return;
    }
    let ghost name = Seq::new(part@.len(), |i: int| part@[i] as int + 1);
    out.push(3);
    let mut i: usize = 0;
    assert(numbers(out@) =~= before + seq![3int] + name.take(0));
    while i < part.len()
        invariant
            i <= part@.len(),
            name == Seq::new(part@.len(), |i: int| part@[i] as int + 1),
            numbers(out@) == before + seq![3int] + name.take(i as int),
        decreases part.len() - i,
    {
        let ghost was = numbers(out@);
        let c: u64 = code_point(part[i]) as u64;
        out.push(c + 1);
        assert(numbers(out@) =~= was.push(name[i as int]));
        assert(numbers(out@) =~= before + seq![3int] + name.take(i + 1));
        i += 1;
    }
    assert(name.take(i as int) =~= name);
    let ghost was = numbers(out@);
    out.push(0);
    assert(numbers(out@) =~= was.push(0));
    assert(part@ != seq!['.']) by {
        if part@ == seq!['.'] {
            assert(part@[0] == '.');
        }
    }
    assert(part@ != seq!['.', '.']) by {
        if part@ == seq!['.', '.'] {
            assert(part@[0] == '.' && part@[1] == '.');
        }
    }
    assert(part_rank(part@) == seq![3int] + name + seq![0int]);
    assert(numbers(out@) =~= before + part_rank(part@));
}

fn rank_of(s: &str) -> (r: Vec<u64>)
    ensures
        numbers(r@) == path_rank(s@),
{
    let chars = chars_of(s);
    let parts = components_of(&chars);
    let ghost all = views(parts@);
    let mut out: Vec<u64> = Vec::new();
    if chars.len() > 0 && chars[0] == '/' {
        out.push(0);
    }
    let ghost head = numbers(out@);
    let mut i: usize = 0;
    assert(head =~= if from_root(s@) {
        seq![0int]
    } else {
        Seq::empty()
    });
    assert(all.take(0).len() == 0);
    assert(numbers(out@) =~= head + parts_rank(all.take(0)));
    while i < parts.len()
        invariant
            i <= parts@.len(),
            all == views(parts@),
            numbers(out@) == head + parts_rank(all.take(i as int)),
        decreases parts.len() - i,
    {
        proof {
            assert(all.take(i + 1).drop_last() =~= all.take(i as int));
            assert(all.take(i + 1).last() == parts@[i as int]@);
        }
        push_part(&mut out, &parts[i]);
        assert(numbers(out@) =~= head + parts_rank(all.take(i + 1)));
        i += 1;
    }
    assert(all.take(i as int) =~= all);
    out
}

fn numbers_before(x: &Vec<u64>, y: &Vec<u64>) -> (r: bool)
    ensures
        r == lex_before(numbers(x@), numbers(y@)),
{
    let ghost p = numbers(x@);
    let ghost q = numbers(y@);
    let mut i: usize = 0;
    while i < x.len() && i < y.len()
        invariant
            i <= x@.len(),
            i <= y@.len(),
            p == numbers(x@),
            q == numbers(y@),
            forall|j: int| 0 <= j < i ==> p[j] == q[j],
        decreases x.len() - i,
    {
        assert(p[i as int] == x@[i as int] && q[i as int] == y@[i as int]);
        if x[i] < y[i] {
            assert(splits_at(p, q, i as int));
            return true;
        }
        if x[i] > y[i] {
            proof {
                assert(splits_at(q, p, i as int));
                lex_asymmetric(p, q);
            }
            return false;
        }
        i += 1;
    }
    if i < y.len() {
        assert(splits_at(p, q, i as int));
        true
    } else {
        proof {
            if i < x.len() {
                assert(splits_at(q, p, i as int));
            } else {
                assert(p =~= q);
            }
            lex_asymmetric(p, q);
        }
        false
    }
}

/// Whether a path stands before another.
pub fn path_before(a: &str, b: &str) -> (r: bool)
    ensures
        r == lex_before(path_rank(a@), path_rank(b@)),
{
    let x = rank_of(a);
    let y = rank_of(b);
    numbers_before(&x, &y)
}

} // verus!

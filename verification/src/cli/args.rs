//! Arguments of the command line, and the start of a daemon behind it.
use vstd::prelude::*;

use crate::number::{all_digits, is_digit, number};
use crate::order::code_point;
use crate::text::{chars_of, same_text, text_of};

verus! {

/// The position of the first such character, from `i` on; the length where there is none.
pub open spec fn index_of(s: Seq<char>, c: char, i: int) -> int
    decreases s.len() - i,
{
    if i < 0 || i >= s.len() {
        s.len() as int
    } else if s[i] == c {
        i
    } else {
        index_of(s, c, i + 1)
    }
}

/// What `index_of` finds.
pub proof fn index_is_first(s: Seq<char>, c: char, i: int)
    requires
        0 <= i <= s.len(),
    ensures
        i <= index_of(s, c, i) <= s.len(),
        forall|j: int| i <= j < index_of(s, c, i) ==> s[j] != c,
        index_of(s, c, i) < s.len() ==> s[index_of(s, c, i)] == c,
    decreases s.len() - i,
{
    if i < s.len() && s[i] != c {
        index_is_first(s, c, i + 1);
    }
}

/// The first position of a character is the one that `index_of` finds.
pub proof fn index_unique(s: Seq<char>, c: char, n: int)
    requires
        0 <= n <= s.len(),
        forall|j: int| 0 <= j < n ==> s[j] != c,
        n < s.len() ==> s[n] == c,
    ensures
        index_of(s, c, 0) == n,
{
    index_is_first(s, c, 0);
    let k = index_of(s, c, 0);
    if k < n {
        assert(s[k] != c);
    } else if n < k {
        assert(s[n] != c);
    }
}

/// The position of the first such character.
pub fn find_char(s: &[char], c: char) -> (r: usize)
    ensures
        r == index_of(s@, c, 0),
        r <= s@.len(),
{
    let mut i: usize = 0;
    while i < s.len()
        invariant
            i <= s@.len(),
            index_of(s@, c, 0) == index_of(s@, c, i as int),
        decreases s.len() - i,
    {
        if s[i] == c {
            return i;
        }
        i += 1;
    }
    i
}

/// A part of some characters, as text.
pub fn text_at(s: &[char], from: usize, to: usize) -> (r: String)
    requires
        from <= to <= s@.len(),
    ensures
        r@ == s@.subrange(from as int, to as int),
{
    text_of(vstd::slice::slice_subrange(s, from, to))
}

/// What is before and behind the first such character; nothing where there is none.
pub open spec fn split_at_first(s: Seq<char>, c: char) -> Option<(Seq<char>, Seq<char>)> {
    let i = index_of(s, c, 0);
    if i < s.len() {
        Some((s.take(i), s.skip(i + 1)))
    } else {
        None
    }
}

/// Splits a text at the first such character.
pub fn split_once(s: &str, c: char) -> (r: Option<(String, String)>)
    ensures
        match r {
            Some((a, b)) => split_at_first(s@, c) == Some((a@, b@)),
            None => split_at_first(s@, c) is None,
        },
{
    let chars = chars_of(s);
    let i = find_char(chars.as_slice(), c);
    if i == chars.len() {
        return None;
    }
    let a = text_at(chars.as_slice(), 0, i);
    let b = text_at(chars.as_slice(), i + 1, chars.len());
    assert(a@ =~= s@.take(i as int));
    assert(b@ =~= s@.skip(i + 1));
    Some((a, b))
}

/// An option for an adapter: a key, and behind the first equals sign a value.
pub fn parse_adapter_option(value: &str) -> (r: Result<(String, String), &'static str>)
    ensures
        match split_at_first(value@, '=') {
            None => r == Err::<(String, String), &'static str>("adapter option must be k=v"),
            Some((k, v)) => if k.len() == 0 {
                r == Err::<(String, String), &'static str>("adapter option key must not be empty")
            } else {
                r matches Ok((a, b)) && a@ == k && b@ == v
            },
        },
{
    match split_once(value, '=') {
        None => Err("adapter option must be k=v"),
        Some((k, v)) => {
            proof {
                reveal_strlit("");
                if k@.len() == 0 {
                    assert(k@ =~= ""@);
                }
            }
            if same_text(k.as_str(), "") {
                Err("adapter option key must not be empty")
            } else {
                Ok((k, v))
            }
        },
    }
}

/// The number of digits that a text begins with, from `i` on.
pub open spec fn digits_from(s: Seq<char>, i: int) -> int
    decreases s.len() - i,
{
    if i < 0 || i >= s.len() || !is_digit(s[i]) {
        i
    } else {
        digits_from(s, i + 1)
    }
}

/// The milliseconds of a unit of time.
pub open spec fn unit_ms(unit: Seq<char>) -> Option<int> {
    if unit == "ms"@ {
        Some(1)
    } else if unit == "s"@ {
        Some(1_000)
    } else if unit == "m"@ {
        Some(60_000)
    } else if unit == "h"@ {
        Some(3_600_000)
    } else if unit == "d"@ {
        Some(86_400_000)
    } else {
        None
    }
}

/// A duration in milliseconds.
pub open spec fn duration_of(s: Seq<char>) -> Result<int, &'static str> {
    let n = digits_from(s, 0);
    if n == 0 || number(s.take(n)) > u64::MAX {
        Err("invalid duration")
    } else {
        match unit_ms(s.skip(n)) {
            None => Err("duration needs ms/s/m/h/d suffix"),
            Some(ms) => if number(s.take(n)) * ms > u64::MAX {
                Err("duration too large")
            } else {
                Ok(number(s.take(n)) * ms)
            },
        }
    }
}

/// The number that some digits stand for; nothing where it is too large to count.
pub fn digits_value(s: &[char], from: usize, to: usize) -> (r: Option<u64>)
    requires
        from <= to <= s@.len(),
        all_digits(s@.subrange(from as int, to as int)),
    ensures
        ({
            let v = number(s@.subrange(from as int, to as int));
            &&& r is Some <==> v <= u64::MAX
            &&& r matches Some(n) ==> n == v
        }),
{
    let ghost part = s@.subrange(from as int, to as int);
    let mut v: u64 = 0;
    let mut i: usize = from;
    assert(part.take(0) =~= Seq::<char>::empty());
    while i < to
        invariant
            from <= i <= to <= s@.len(),
            part == s@.subrange(from as int, to as int),
            all_digits(part),
            v == number(part.take(i - from)),
        decreases to - i,
    {
        let c = code_point(s[i]);
        proof {
            assert(part[i - from] == s@[i as int]);
            assert(is_digit(part[i - from]));
            assert(part.take(i - from + 1).drop_last() =~= part.take(i - from));
            assert(part.take(i - from + 1).last() == part[i - from]);
            number_grows(part, i - from + 1);
        }
        let d: u64 = (c - 48) as u64;
        v = match v.checked_mul(10) {
            None => {
                return None;
            },
            Some(t) => match t.checked_add(d) {
                None => {
                    return None;
                },
                Some(n) => n,
            },
        };
        i += 1;
    }
    assert(part.take(i - from) =~= part);
    Some(v)
}

proof fn number_grows(s: Seq<char>, n: int)
    requires
        0 <= n <= s.len(),
        all_digits(s),
    ensures
        0 <= number(s.take(n)) <= number(s),
    decreases s.len(),
{
    if n == s.len() {
        assert(s.take(n) =~= s);
        if s.len() > 0 {
            assert(all_digits(s.drop_last()));
            number_grows(s.drop_last(), s.len() - 1);
            assert(s.drop_last().take(s.len() - 1) =~= s.drop_last());
            assert(is_digit(s[s.len() - 1]));
        }
    } else {
        assert(all_digits(s.drop_last()));
        number_grows(s.drop_last(), n);
        assert(s.drop_last().take(n) =~= s.take(n));
        assert(is_digit(s[s.len() - 1]));
    }
}

/// Reads a duration: a number and a unit.
pub fn parse_duration(s: &str) -> (r: Result<u64, &'static str>)
    ensures
        match r {
            Ok(n) => duration_of(s@) == Ok::<int, &'static str>(n as int),
            Err(e) => duration_of(s@) == Err::<int, &'static str>(e),
        },
{
    let chars = chars_of(s);
    let mut n: usize = 0;
    while n < chars.len() && code_point(chars[n]) >= 48 && code_point(chars[n]) <= 57
        invariant
            n <= chars@.len(),
            chars@ == s@,
            digits_from(s@, 0) == digits_from(s@, n as int),
            forall|j: int| 0 <= j < n ==> is_digit(#[trigger] s@[j]),
        decreases chars.len() - n,
    {
        n += 1;
    }
    assert(digits_from(s@, 0) == n);
    if n == 0 {
        return Err("invalid duration");
    }
    assert(s@.subrange(0, n as int) =~= s@.take(n as int));
    let value = match digits_value(chars.as_slice(), 0, n) {
        None => {
            return Err("invalid duration");
        },
        Some(v) => v,
    };
    let unit = text_at(chars.as_slice(), n, chars.len());
    assert(unit@ =~= s@.skip(n as int));
    let u = unit.as_str();
    let ms: u64 = if same_text(u, "ms") {
        1
    } else if same_text(u, "s") {
        1_000
    } else if same_text(u, "m") {
        60_000
    } else if same_text(u, "h") {
        3_600_000
    } else if same_text(u, "d") {
        86_400_000
    } else {
        return Err("duration needs ms/s/m/h/d suffix");
    };
    match value.checked_mul(ms) {
        None => Err("duration too large"),
        Some(t) => Ok(t),
    }
}

/// The arguments without the one that asks for the background.
pub open spec fn foreground(s: Seq<String>) -> Seq<String>
    decreases s.len(),
{
    if s.len() == 0 {
        Seq::empty()
    } else if s.last()@ == "--background"@ {
        foreground(s.drop_last())
    } else {
        foreground(s.drop_last()).push(s.last())
    }
}

/// The arguments of a daemon that is started in the background: all but the one that asks for it.
pub fn foreground_args(args: &Vec<String>) -> (r: Vec<String>)
    ensures
        r@ == foreground(args@),
{
    let mut out: Vec<String> = Vec::new();
    let mut i: usize = 0;
    assert(args@.take(0) =~= Seq::<String>::empty());
    while i < args.len()
        invariant
            i <= args@.len(),
            out@ == foreground(args@.take(i as int)),
        decreases args.len() - i,
    {
        proof {
            assert(args@.take(i + 1).drop_last() =~= args@.take(i as int));
            assert(args@.take(i + 1).last() == args@[i as int]);
        }
        if !same_text(args[i].as_str(), "--background") {
            out.push(args[i].clone());
        }
        i += 1;
    }
    assert(args@.take(i as int) =~= args@);
    out
}

/// What to do while a daemon starts.
#[derive(Clone, Copy, Debug, PartialEq, Eq, Structural)]
pub enum Startup {
    /// It answers.
    Ready,
    /// It is gone; its record goes too.
    Exited,
    /// It is still there but does not answer.
    TimedOut,
    /// Ask again in a moment.
    Wait,
}

/// Decides while a daemon starts: an answer counts first, then whether it still runs, then the time.
pub fn startup_step(answered: bool, alive: bool, past_deadline: bool) -> (r: Startup)
    ensures
        r == if answered {
            Startup::Ready
        } else if !alive {
            Startup::Exited
        } else if past_deadline {
            Startup::TimedOut
        } else {
            Startup::Wait
        },
{
    if answered {
        Startup::Ready
    } else if !alive {
        Startup::Exited
    } else if past_deadline {
        Startup::TimedOut
    } else {
        Startup::Wait
    }
}

} // verus!

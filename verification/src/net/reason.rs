//! What a device tells another about a refusal, and what it believes of what it is told.
use vstd::prelude::*;

use crate::net::error::Error;
use crate::order::code_point;
use crate::text::{chars_of, push_char};

verus! {

/// The longest reason, in characters.
pub const MAX_REJECTION_REASON_CHARS: usize = 256;

/// A control character: the first thirty-two, and the thirty-three from delete on.
pub open spec fn is_control(c: char) -> bool {
    c as int <= 0x1f || 0x7f <= c as int <= 0x9f
}

/// Text without its control characters.
pub open spec fn printable(s: Seq<char>) -> Seq<char>
    decreases s.len(),
{
    if s.len() == 0 {
        s
    } else if is_control(s.last()) {
        printable(s.drop_last())
    } else {
        printable(s.drop_last()).push(s.last())
    }
}

/// The first characters of a text, as many as a reason has at most.
pub open spec fn bounded(s: Seq<char>) -> Seq<char> {
    if s.len() <= MAX_REJECTION_REASON_CHARS {
        s
    } else {
        s.take(256)
    }
}

proof fn printable_of_prefix(s: Seq<char>, n: int)
    requires
        0 <= n <= s.len(),
    ensures
        printable(s.take(n)).len() <= printable(s).len(),
        printable(s).take(printable(s.take(n)).len() as int) == printable(s.take(n)),
    decreases s.len(),
{
    if n == s.len() {
        assert(s.take(n) =~= s);
        assert(printable(s).take(printable(s).len() as int) =~= printable(s));
    } else {
        let t = s.drop_last();
        printable_of_prefix(t, n);
        assert(t.take(n) =~= s.take(n));
        let k = printable(s.take(n)).len() as int;
        assert(printable(s).take(k) =~= printable(t).take(k));
    }
}

/// The reason, without control characters and cut to its longest.
pub fn sanitize_rejection_reason(reason: &str) -> (r: String)
    ensures
        r@ == bounded(printable(reason@)),
{
    let chars = chars_of(reason);
    let mut out = String::new();
    let mut count: usize = 0;
    let mut i: usize = 0;
    assert(chars@.take(0) =~= Seq::<char>::empty());
    while i < chars.len()
        invariant
            i <= chars@.len(),
            chars@ == reason@,
            count == out@.len(),
            count <= 256,
            out@ == printable(chars@.take(i as int)),
        decreases chars.len() - i,
    {
        proof {
            assert(chars@.take(i + 1).drop_last() =~= chars@.take(i as int));
            assert(chars@.take(i + 1).last() == chars@[i as int]);
        }
        let code = code_point(chars[i]);
        if !(code <= 0x1f || (0x7f <= code && code <= 0x9f)) {
            if count == MAX_REJECTION_REASON_CHARS {
                proof {
                    printable_of_prefix(chars@, i as int);
                    printable_of_prefix(chars@, i + 1);
                    assert(printable(chars@.take(i + 1)).len() == 257);
                }
                return out;
            }
            push_char(&mut out, chars[i]);
            count += 1;
        }
        i += 1;
    }
    assert(chars@.take(i as int) =~= chars@);
    out
}

/// What a refusal is told to the other side: the words of the protocol, and of local trouble no
/// more than that there was some.
pub open spec fn reason_text(e: Error) -> Seq<char> {
    match e {
        Error::Authorization(m) => m@,
        Error::Authentication(m) => m@,
        Error::Protocol(m) => m@,
        Error::Refused(m) => m@,
        Error::Denied(m) => m@,
        Error::Core(_) => "invalid manifest"@,
        Error::Json => "invalid offer"@,
        Error::Transport(_) => "delivery validation failed"@,
        Error::Timeout => "delivery validation failed"@,
    }
}

/// The reason of a refusal, for the other side.
pub fn rejection_reason(error: &Error) -> (r: String)
    ensures
        r@ == bounded(printable(reason_text(*error))),
{
    match error {
        Error::Authorization(m) => sanitize_rejection_reason(m),
        Error::Authentication(m) => sanitize_rejection_reason(m),
        Error::Protocol(m) => sanitize_rejection_reason(m),
        Error::Refused(m) => sanitize_rejection_reason(m.as_str()),
        Error::Denied(m) => sanitize_rejection_reason(m.as_str()),
        Error::Core(_) => sanitize_rejection_reason("invalid manifest"),
        Error::Json => sanitize_rejection_reason("invalid offer"),
        Error::Transport(_) => sanitize_rejection_reason("delivery validation failed"),
        Error::Timeout => sanitize_rejection_reason("delivery validation failed"),
    }
}

/// A reason is printable and bounded, whatever the other side sent.
pub proof fn reasons_are_printable(s: Seq<char>)
    ensures
        bounded(printable(s)).len() <= MAX_REJECTION_REASON_CHARS,
        forall|i: int|
            0 <= i < bounded(printable(s)).len() ==> !is_control(
                #[trigger] bounded(printable(s))[i],
            ),
{
    no_control(s);
}

proof fn no_control(s: Seq<char>)
    ensures
        forall|i: int| 0 <= i < printable(s).len() ==> !is_control(#[trigger] printable(s)[i]),
    decreases s.len(),
{
    if s.len() > 0 {
        let t = printable(s.drop_last());
        no_control(s.drop_last());
        assert forall|i: int| 0 <= i < printable(s).len() implies !is_control(
            #[trigger] printable(s)[i],
        ) by {
            if i < t.len() {
                assert(printable(s)[i] == t[i]);
            } else {
                assert(printable(s)[i] == s.last());
            }
        }
    }
}

/// Local trouble is told to nobody: all errors of the local half read the same.
pub proof fn local_trouble_stays_local(a: crate::error::Error, b: crate::error::Error)
    ensures
        reason_text(Error::Core(a)) == reason_text(Error::Core(b)),
{
}

/// Takes the answer to an offer: it was accepted, or refused for a reason.
pub fn check_answer(accepted: bool, reason: Option<&str>) -> (r: Result<(), Error>)
    ensures
        r is Ok <==> accepted,
        r matches Err(e) ==> e matches Error::Denied(words) && words@ == bounded(
            printable(
                match reason {
                    Some(s) => s@,
                    None => "offer rejected"@,
                },
            ),
        ),
{
    if accepted {
        return Ok(());
    }
    let words = match reason {
        Some(s) => sanitize_rejection_reason(s),
        None => sanitize_rejection_reason("offer rejected"),
    };
    Err(Error::Denied(words))
}

} // verus!

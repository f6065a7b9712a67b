//! What the words of the command line mean.
use vstd::prelude::*;

use crate::bytes::has_prefix;
use crate::cli::args::{
    digits_from, duration_of, foreground, index_is_first, index_of, split_at_first,
};
use crate::cli::serve::{climbs, first_line, is_white, media_type, requested, run_end, unrooted};
use crate::cli::settings::{config_set, count_of, value_shown, Settings};
use crate::cli::share::{is_local, record_text, replaced};
use crate::json::JsonV;
use crate::link::MintRecord;
use crate::manifest::nat_json;
use crate::number::{all_digits, is_digit, number, number_bound};

verus! {

/// A text is split at the first such character: what stands before it and what stands behind it make
/// the text again, and there is none in front. Where there is none at all, it is not split.
pub proof fn texts_are_split_once(s: Seq<char>, c: char)
    ensures
        match split_at_first(s, c) {
            Some((a, b)) => s == a + seq![c] + b && !a.contains(c),
            None => !s.contains(c),
        },
{
    index_is_first(s, c, 0);
    let i = index_of(s, c, 0);
    if i < s.len() {
        let (a, b) = (s.take(i), s.skip(i + 1));
        assert(s =~= a + seq![c] + b);
        if a.contains(c) {
            let j = choose|j: int| 0 <= j < a.len() && a[j] == c;
            assert(s[j] == c);
        }
    } else if s.contains(c) {
        let j = choose|j: int| 0 <= j < s.len() && s[j] == c;
        assert(s[j] == c);
    }
}

proof fn digits_end(s: Seq<char>, n: int, i: int)
    requires
        0 <= i <= n <= s.len(),
        forall|j: int| 0 <= j < n ==> is_digit(#[trigger] s[j]),
        n < s.len() ==> !is_digit(s[n]),
    ensures
        digits_from(s, i) == n,
    decreases n - i,
{
    if i < n {
        assert(is_digit(s[i]));
        digits_end(s, n, i + 1);
    }
}

proof fn duration_with(d: Seq<char>, unit: Seq<char>)
    requires
        d.len() > 0,
        all_digits(d),
        unit.len() == 0 || !is_digit(unit[0]),
    ensures
        digits_from(d + unit, 0) == d.len(),
        (d + unit).take(d.len() as int) == d,
        (d + unit).skip(d.len() as int) == unit,
{
    let s = d + unit;
    let n = d.len() as int;
    assert forall|j: int| 0 <= j < n implies is_digit(#[trigger] s[j]) by {
        assert(s[j] == d[j]);
    }
    if n < s.len() {
        assert(s[n] == unit[0]);
    }
    digits_end(s, n, 0);
    assert(s.take(n) =~= d);
    assert(s.skip(n) =~= unit);
}

/// A duration is a number and a unit: milliseconds, seconds, minutes, hours or days. Without a unit it
/// is refused.
pub proof fn durations_have_units(d: Seq<char>)
    requires
        d.len() > 0,
        all_digits(d),
        number(d) <= 1_000_000_000,
    ensures
        duration_of(d + "ms"@) == Ok::<int, &'static str>(number(d)),
        duration_of(d + "s"@) == Ok::<int, &'static str>(number(d) * 1000),
        duration_of(d + "m"@) == Ok::<int, &'static str>(number(d) * 60_000),
        duration_of(d + "h"@) == Ok::<int, &'static str>(number(d) * 3_600_000),
        duration_of(d + "d"@) == Ok::<int, &'static str>(number(d) * 86_400_000),
        duration_of(d) is Err,
{
    reveal_strlit("ms");
    reveal_strlit("s");
    reveal_strlit("m");
    reveal_strlit("h");
    reveal_strlit("d");
    crate::number::number_bound(d);
    duration_with(d, "ms"@);
    duration_with(d, "s"@);
    duration_with(d, "m"@);
    duration_with(d, "h"@);
    duration_with(d, "d"@);
    let none = Seq::<char>::empty();
    duration_with(d, none);
    assert(d + none =~= d);
    assert("ms"@.len() == 2 && "s"@.len() == 1 && "m"@.len() == 1 && "h"@.len() == 1 && "d"@.len()
        == 1);
    assert("s"@[0] == 's' && "m"@[0] == 'm' && "h"@[0] == 'h' && "d"@[0] == 'd');
}

/// The arguments of a daemon in the background are all but the one that asks for it, in their order.
pub proof fn background_is_left_out(s: Seq<String>)
    ensures
        forall|x: String| #[trigger]
            foreground(s).contains(x) <==> s.contains(x) && x@ != "--background"@,
        (forall|i: int| 0 <= i < s.len() ==> (#[trigger] s[i])@ != "--background"@) ==> foreground(s)
            == s,
    decreases s.len(),
{
    let all = foreground(s);
    if s.len() > 0 {
        let front = s.drop_last();
        background_is_left_out(front);
        let before = foreground(front);
        assert forall|x: String| #[trigger] all.contains(x) <==> s.contains(x) && x@
            != "--background"@ by {
            if all.contains(x) {
                let k = choose|k: int| 0 <= k < all.len() && all[k] == x;
                if k < before.len() {
                    assert(before[k] == x);
                    assert(before.contains(x));
                    let i = choose|i: int| 0 <= i < front.len() && front[i] == x;
                    assert(s[i] == x);
                } else {
                    assert(s[s.len() - 1] == x);
                }
            }
            if s.contains(x) && x@ != "--background"@ {
                let i = choose|i: int| 0 <= i < s.len() && s[i] == x;
                if i < front.len() {
                    assert(front[i] == x);
                    assert(before.contains(x));
                    let k = choose|k: int| 0 <= k < before.len() && before[k] == x;
                    assert(all[k] == x);
                } else {
                    assert(all[before.len() as int] == x);
                }
            }
        }
        if forall|i: int| 0 <= i < s.len() ==> (#[trigger] s[i])@ != "--background"@ {
            assert forall|i: int| 0 <= i < front.len() implies (#[trigger] front[i])@
                != "--background"@ by {
                assert(front[i] == s[i]);
            }
            assert(s[s.len() - 1]@ != "--background"@);
            assert(front.push(s.last()) =~= s);
        }
    } else {
        assert(all.len() == 0);
        assert(all =~= s);
    }
}

/// A count is written in digits, with a plus in front or without, and is no more than it may be.
pub proof fn counts_are_numbers(d: Seq<char>, max: int)
    requires
        d.len() > 0,
        all_digits(d),
    ensures
        count_of(d, max) == if number(d) <= max {
            Some(number(d))
        } else {
            None
        },
        count_of(seq!['+'] + d, max) == count_of(d, max),
        count_of(seq!['-'] + d, max) is None,
        count_of(Seq::empty(), max) is None,
{
    assert(is_digit(d[0]));
    assert((seq!['+'] + d).skip(1) =~= d);
    let m = seq!['-'] + d;
    assert(m[0] == '-');
    assert(!is_digit(m[0]));
}

/// What leads a path is taken off: it is relative then, and only separators are gone.
pub proof fn paths_are_relative(s: Seq<char>)
    ensures
        unrooted(s).len() == 0 || unrooted(s)[0] != '/',
        unrooted(s).len() <= s.len(),
        s.skip(s.len() - unrooted(s).len()) == unrooted(s),
        forall|i: int| 0 <= i < s.len() - unrooted(s).len() ==> #[trigger] s[i] == '/',
    decreases s.len(),
{
    if s.len() > 0 && s[0] == '/' {
        let rest = s.skip(1);
        paths_are_relative(rest);
        let n = rest.len() - unrooted(rest).len();
        assert(s.skip(n + 1) =~= rest.skip(n));
        assert forall|i: int| 0 <= i < s.len() - unrooted(s).len() implies #[trigger] s[i] == '/' by {
            if i > 0 {
                assert(rest[i - 1] == s[i]);
            }
        }
    } else {
        assert(s.skip(0) =~= s);
    }
}

/// A path that is served holds neither two dots in a row nor a backslash.
pub proof fn served_paths_stay_inside(s: Seq<char>)
    ensures
        !climbs(s) <==> (forall|i: int|
            0 <= i && i + 1 < s.len() ==> !((#[trigger] s[i]) == '.' && s[i + 1] == '.')) && (
        forall|i: int| 0 <= i < s.len() ==> (#[trigger] s[i]) != '\\'),
{
}

/// A text in which a word does not begin anywhere is left as it is; where one begins with the word,
/// that is replaced, and the rest is treated alike.
pub proof fn words_are_replaced(s: Seq<char>, from: Seq<char>, to: Seq<char>)
    requires
        from.len() > 0,
    ensures
        (forall|i: int| 0 <= i <= s.len() ==> !has_prefix(#[trigger] s.skip(i), from)) ==> replaced(
            s,
            from,
            to,
        ) == s,
        replaced(from + s, from, to) == to + replaced(s, from, to),
        replaced(from, from, to) == to,
    decreases s.len(),
{
    reveal_with_fuel(replaced, 2);
    let whole = from + s;
    assert(whole.take(from.len() as int) =~= from);
    assert(whole.skip(from.len() as int) =~= s);
    assert(from.take(from.len() as int) =~= from);
    assert(from.skip(from.len() as int) =~= Seq::<char>::empty());
    assert(to + Seq::<char>::empty() =~= to);
    if forall|i: int| 0 <= i <= s.len() ==> !has_prefix(#[trigger] s.skip(i), from) {
        if s.len() > 0 {
            let rest = s.skip(1);
            assert forall|i: int| 0 <= i <= rest.len() implies !has_prefix(
                #[trigger] rest.skip(i),
                from,
            ) by {
                assert(rest.skip(i) =~= s.skip(i + 1));
            }
            words_are_replaced(rest, from, to);
            assert(s.skip(0) =~= s);
            assert(s =~= seq![s[0]] + rest);
        }
    }
}

/// A run of white space, or of none, ends where the next character is of the other kind.
proof fn runs_end(s: Seq<char>, i: int, j: int, white: bool)
    requires
        0 <= i <= j < s.len(),
        forall|k: int| i <= k < j ==> is_white(#[trigger] s[k]) == white,
        is_white(s[j]) != white,
    ensures
        run_end(s, i, white) == j,
    decreases j - i,
{
    if i < j {
        runs_end(s, i + 1, j, white);
    }
}

/// No line ends before a place up to which there is no line break.
proof fn lines_go_on(s: Seq<char>, i: int, j: int)
    requires
        0 <= i <= j <= s.len(),
        forall|k: int| i <= k < j ==> #[trigger] s[k] != '\n',
    ensures
        j <= index_of(s, '\n', i) <= s.len(),
    decreases s.len() - i,
{
    if i < s.len() && s[i] != '\n' {
        lines_go_on(
            s,
            i + 1,
            if i < j {
                j
            } else {
                i + 1
            },
        );
    }
}

/// A request names what stands between its method and what follows, whatever that is.
pub proof fn requests_name_their_path(method: Seq<char>, path: Seq<char>, rest: Seq<char>)
    requires
        method.len() > 0,
        path.len() > 0,
        forall|i: int| 0 <= i < method.len() ==> !is_white(#[trigger] method[i]),
        forall|i: int| 0 <= i < path.len() ==> !is_white(#[trigger] path[i]),
    ensures
        requested(method + seq![' '] + path + seq![' '] + rest) == unrooted(path),
{
    let s = method + seq![' '] + path + seq![' '] + rest;
    let m = method.len() as int;
    let p = m + 1 + path.len();
    assert(forall|k: int| 0 <= k < m ==> #[trigger] s[k] == method[k]);
    assert(s[m] == ' ');
    assert(forall|k: int| m < k < p ==> #[trigger] s[k] == path[k - m - 1]);
    assert(s[p] == ' ');
    assert(is_white(' ') && is_white('\n'));
    lines_go_on(s, 0, p + 1);
    let line = first_line(s);
    assert(forall|k: int| 0 <= k <= p ==> #[trigger] line[k] == s[k]);
    assert(line[0] == method[0]);
    runs_end(line, 0, 0, true);
    runs_end(line, 0, m, false);
    assert(line[m + 1] == path[0]);
    runs_end(line, m, m + 1, true);
    runs_end(line, m + 1, p, false);
    assert(line.subrange(m + 1, p) =~= path);
}

/// A link that was revoked is listed as such, and so is one that was not.
pub proof fn revoked_links_are_listed(r: MintRecord)
    ensures
        ({
            let text = record_text(r);
            &&& r.revoked ==> text.len() >= 8 && text.skip(text.len() - 8) == "\trevoked"@
            &&& !r.revoked ==> text.len() >= 7 && text.skip(text.len() - 7) == "\tactive"@
            &&& text.take(r.link_id@.len() as int) == r.link_id@
        }),
{
    reveal_strlit("\trevoked");
    reveal_strlit("\tactive");
    reveal_strlit("revoked");
    reveal_strlit("active");
    reveal_strlit("\t");
    let text = record_text(r);
    assert(text.take(r.link_id@.len() as int) =~= r.link_id@);
    if r.revoked {
        assert(text.skip(text.len() - 8) =~= "\trevoked"@);
    } else {
        assert(text.skip(text.len() - 7) =~= "\tactive"@);
    }
}

/// The URL of a local file, and no other, begins so.
pub proof fn local_urls_begin_so(path: Seq<char>, url: Seq<char>)
    ensures
        is_local("file://"@ + path),
        is_local(url) ==> exists|rest: Seq<char>| url == #[trigger] ("file://"@ + rest),
{
    let local = "file://"@ + path;
    assert(local.take("file://"@.len() as int) =~= "file://"@);
    if is_local(url) {
        let n = "file://"@.len() as int;
        assert(url =~= "file://"@ + url.skip(n));
    }
}

/// No two of the names and words of settings are of one length.
proof fn settings_are_told_apart()
    ensures
        "skip_native"@.len() == 11,
        "offer_budget"@.len() == 12,
        "iroh_relay"@.len() == 10,
        "relay_after_attempts"@.len() == 20,
        "relay_poll_seconds"@.len() == 18,
        "true"@.len() == 4,
        "false"@.len() == 5,
{
    reveal_strlit("skip_native");
    reveal_strlit("offer_budget");
    reveal_strlit("iroh_relay");
    reveal_strlit("relay_after_attempts");
    reveal_strlit("relay_poll_seconds");
    reveal_strlit("true");
    reveal_strlit("false");
}

/// A setting that is given takes the value given, one that is taken back takes the value it had at
/// first, and every other setting stays. What is refused changes nothing.
pub proof fn settings_take_their_own_value(
    before: Settings,
    default: Settings,
    key: Seq<char>,
    value: Option<Seq<char>>,
    after: Settings,
    answer: Result<(), String>,
)
    requires
        config_set(before, default, key, value, after, answer),
    ensures
        answer is Err ==> after == before,
        key == "skip_native"@ && value == Some("true"@) ==> answer is Ok && after.daemon.skip_native,
        key == "skip_native"@ && value == Some("false"@) ==> answer is Ok
            && !after.daemon.skip_native,
        key == "skip_native"@ && value is None ==> after.daemon.skip_native
            == default.daemon.skip_native,
        key != "skip_native"@ ==> after.daemon.skip_native == before.daemon.skip_native,
        key == "offer_budget"@ && answer is Ok ==> match value {
            None => after.daemon.offer_budget == default.daemon.offer_budget,
            Some(v) => count_of(v, u64::MAX as int) == Some(after.daemon.offer_budget as int),
        },
        key != "offer_budget"@ ==> after.daemon.offer_budget == before.daemon.offer_budget,
        key == "iroh_relay"@ && answer is Ok ==> match value {
            None => after.daemon.iroh_relay@ == default.daemon.iroh_relay@,
            Some(v) => after.daemon.iroh_relay@ == v,
        },
        key != "iroh_relay"@ ==> after.daemon.iroh_relay == before.daemon.iroh_relay,
        key == "relay_after_attempts"@ && answer is Ok ==> match value {
            None => after.relay.relay_after_attempts == default.relay.relay_after_attempts,
            Some(v) => count_of(v, u32::MAX as int) == Some(after.relay.relay_after_attempts as int),
        },
        key != "relay_after_attempts"@ ==> after.relay.relay_after_attempts
            == before.relay.relay_after_attempts,
        key == "relay_poll_seconds"@ && answer is Ok ==> match value {
            None => after.relay.relay_poll_seconds == default.relay.relay_poll_seconds,
            Some(v) => count_of(v, u64::MAX as int) == Some(after.relay.relay_poll_seconds as int)
                && after.relay.relay_poll_seconds >= 5,
        },
        key != "relay_poll_seconds"@ ==> after.relay.relay_poll_seconds
            == before.relay.relay_poll_seconds,
{
    settings_are_told_apart();
    if let Some(v) = value {
        if all_digits(v) {
            number_bound(v);
        }
        if all_digits(v.skip(1)) {
            number_bound(v.skip(1));
        }
    }
}

/// A setting is shown as what it is: a text, a truth, or a number.
pub proof fn settings_are_shown_as_they_are(v: Seq<char>, n: u64)
    ensures
        value_shown("iroh_relay"@, v) == JsonV::Str(v),
        value_shown("skip_native"@, "true"@) == JsonV::Bool(true),
        value_shown("skip_native"@, "false"@) == JsonV::Bool(false),
        count_of(v, u64::MAX as int) == Some(n as int) ==> value_shown("offer_budget"@, v)
            == nat_json(n),
{
    settings_are_told_apart();
}

/// A page and a script are served as such, and anything else as plain bytes.
pub proof fn media_go_by_extension(extension: Option<Seq<char>>)
    ensures
        extension == Some("html"@) ==> media_type(extension) == "text/html; charset=utf-8"@,
        extension == Some("js"@) ==> media_type(extension) == "text/javascript; charset=utf-8"@,
        extension != Some("html"@) && extension != Some("js"@) ==> media_type(extension)
            == "application/octet-stream"@,
{
    reveal_strlit("html");
    reveal_strlit("js");
    assert("html"@.len() != "js"@.len());
}

} // verus!

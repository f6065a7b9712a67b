//! The settings of a device, by key.
use vstd::prelude::*;

use crate::cli::args::digits_value;
use crate::json::{member, member_at_unique, Json, JsonV};
use crate::manifest::{nat_json, nat_value};
use crate::net::error::{net_error_text, Error};
use crate::net::transport::{relay_of, IrohRelayMode};
use crate::number::{all_digits, is_digit, number, number_bound};
use crate::order::code_point;
use crate::record::{Fields, Members};
use crate::text::{chars_of, concat, same_text};

verus! {

/// The settings of the daemon.
#[derive(Debug, PartialEq, Eq)]
pub struct DaemonConfig {
    pub iroh_relay: String,
    pub skip_native: bool,
    pub offer_budget: u64,
}

/// When relays are used, and how often they are asked.
#[derive(Debug, PartialEq, Eq)]
pub struct RelayConfig {
    pub relay_after_attempts: u32,
    pub relay_poll_seconds: u64,
}

/// The least time between two questions to a relay, in seconds.
pub const MIN_POLL_SECONDS: u64 = 5;

/// A number that is not negative: digits, or a plus sign and digits.
pub open spec fn count_of(s: Seq<char>, max: int) -> Option<int> {
    let digits = if s.len() > 0 && s[0] == '+' {
        s.skip(1)
    } else {
        s
    };
    if digits.len() == 0 || !all_digits(digits) || number(digits) > max {
        None
    } else {
        Some(number(digits))
    }
}

/// Reads a number that is not negative.
pub fn read_count(s: &str, max: u64) -> (r: Option<u64>)
    ensures
        r is Some <==> count_of(s@, max as int) is Some,
        r matches Some(n) ==> count_of(s@, max as int) == Some(n as int),
{
    let chars = chars_of(s);
    let from: usize = if chars.len() > 0 && chars[0] == '+' {
        1
    } else {
        0
    };
    let ghost digits = if s@.len() > 0 && s@[0] == '+' {
        s@.skip(1)
    } else {
        s@
    };
    assert(s@.subrange(from as int, s@.len() as int) =~= digits);
    if from == chars.len() {
        return None;
    }
    let mut i: usize = from;
    while i < chars.len()
        invariant
            from <= i <= chars@.len(),
            chars@ == s@,
            from <= 1,
            digits == s@.subrange(from as int, s@.len() as int),
            digits == if s@.len() > 0 && s@[0] == '+' {
                s@.skip(1)
            } else {
                s@
            },
            forall|j: int| 0 <= j < i - from ==> is_digit(#[trigger] digits[j]),
        decreases chars.len() - i,
    {
        let c = code_point(chars[i]);
        assert(digits[i - from] == s@[i as int]);
        if c < 48 || c > 57 {
            assert(!is_digit(digits[i - from]));
            return None;
        }
        i += 1;
    }
    match digits_value(chars.as_slice(), from, chars.len()) {
        Some(n) => if n <= max {
            Some(n)
        } else {
            None
        },
        None => None,
    }
}

/// What is wrong with the name of a relay mode.
pub open spec fn relay_mode_fault(v: Seq<char>) -> Option<Error> {
    if v == "n0"@ || v == "none"@ {
        None
    } else {
        match relay_of(v) {
            None => Some(Error::Transport("invalid iroh relay URL")),
            Some(u) => if u.1 == "https"@ {
                None
            } else {
                Some(Error::Transport("custom iroh relay URL must use https"))
            },
        }
    }
}

/// What comes of setting a key of the daemon's settings, or of putting its default back.
pub open spec fn daemon_set(
    config: DaemonConfig,
    default: DaemonConfig,
    key: Seq<char>,
    value: Option<Seq<char>>,
    after: DaemonConfig,
    answer: Result<(), String>,
) -> bool {
    if key == "iroh_relay"@ {
        match value {
            None => after == (DaemonConfig { iroh_relay: after.iroh_relay, ..config })
                && after.iroh_relay@ == default.iroh_relay@ && answer is Ok,
            Some(v) => match answer {
                Ok(()) => after == (DaemonConfig { iroh_relay: after.iroh_relay, ..config })
                    && after.iroh_relay@ == v && relay_mode_fault(v) is None,
                Err(e) => after == config && (relay_mode_fault(v) matches Some(x) && e@
                    == net_error_text(x)),
            },
        }
    } else if key == "skip_native"@ {
        match value {
            None => after == (DaemonConfig { skip_native: default.skip_native, ..config })
                && answer is Ok,
            Some(v) => if v == "true"@ {
                after == (DaemonConfig { skip_native: true, ..config }) && answer is Ok
            } else if v == "false"@ {
                after == (DaemonConfig { skip_native: false, ..config }) && answer is Ok
            } else {
                after == config && (answer matches Err(e) && e@
                    == "skip_native must be true or false"@)
            },
        }
    } else {
        match value {
            None => after == (DaemonConfig { offer_budget: default.offer_budget, ..config })
                && answer is Ok,
            Some(v) => match count_of(v, u64::MAX as int) {
                Some(n) => after == (DaemonConfig { offer_budget: n as u64, ..config }) && answer
                    is Ok,
                None => after == config && (answer matches Err(e) && e@
                    == "offer_budget must be bytes"@),
            },
        }
    }
}

/// What comes of setting a key of the relay settings, or of putting its default back.
pub open spec fn relay_set(
    config: RelayConfig,
    default: RelayConfig,
    key: Seq<char>,
    value: Option<Seq<char>>,
    after: RelayConfig,
    answer: Result<(), String>,
) -> bool {
    if key == "relay_after_attempts"@ {
        match value {
            None => after == (RelayConfig {
                relay_after_attempts: default.relay_after_attempts,
                ..config
            }) && answer is Ok,
            Some(v) => match count_of(v, u32::MAX as int) {
                Some(n) => after == (RelayConfig { relay_after_attempts: n as u32, ..config })
                    && answer is Ok,
                None => after == config && (answer matches Err(e) && e@
                    == "relay_after_attempts must be a count"@),
            },
        }
    } else {
        match value {
            None => after == (RelayConfig {
                relay_poll_seconds: default.relay_poll_seconds,
                ..config
            }) && answer is Ok,
            Some(v) => match count_of(v, u64::MAX as int) {
                None => after == config && (answer matches Err(e) && e@
                    == "relay_poll_seconds must be seconds"@),
                Some(n) => if n < MIN_POLL_SECONDS {
                    after == config && (answer matches Err(e) && e@
                        == "relay_poll_seconds minimum is 5"@)
                } else {
                    after == (RelayConfig { relay_poll_seconds: n as u64, ..config }) && answer
                        is Ok
                },
            },
        }
    }
}

/// The key is one of the daemon's settings.
pub open spec fn is_daemon_key(key: Seq<char>) -> bool {
    key == "iroh_relay"@ || key == "skip_native"@ || key == "offer_budget"@
}

/// The key is one of the relay settings.
pub open spec fn is_relay_key(key: Seq<char>) -> bool {
    key == "relay_after_attempts"@ || key == "relay_poll_seconds"@
}

/// The text, where there is one.
pub open spec fn given_text(v: Option<&str>) -> Option<Seq<char>> {
    match v {
        Some(s) => Some(s@),
        None => None,
    }
}

fn set_daemon(config: &mut DaemonConfig, default: &DaemonConfig, key: &str, value: Option<&str>) -> (r: Result<
    (),
    String,
>)
    ensures
        daemon_set(*old(config), *default, key@, given_text(value), *final(config), r),
{
    if same_text(key, "iroh_relay") {
        match value {
            None => {
                config.iroh_relay = default.iroh_relay.clone();
            },
            Some(v) => match IrohRelayMode::parse(v) {
                Err(e) => {
                    return Err(e.message());
                },
                Ok(_) => {
                    config.iroh_relay = v.to_owned();
                },
            },
        }
    } else if same_text(key, "skip_native") {
        match value {
            None => {
                config.skip_native = default.skip_native;
            },
            Some(v) => if same_text(v, "true") {
                config.skip_native = true;
            } else if same_text(v, "false") {
                config.skip_native = false;
            } else {
                return Err("skip_native must be true or false".to_owned());
            },
        }
    } else {
        match value {
            None => {
                config.offer_budget = default.offer_budget;
            },
            Some(v) => match read_count(v, u64::MAX) {
                None => {
                    return Err("offer_budget must be bytes".to_owned());
                },
                Some(n) => {
                    config.offer_budget = n;
                },
            },
        }
    }
    Ok(())
}

fn set_relay(config: &mut RelayConfig, default: &RelayConfig, key: &str, value: Option<&str>) -> (r: Result<
    (),
    String,
>)
    ensures
        relay_set(*old(config), *default, key@, given_text(value), *final(config), r),
{
    if same_text(key, "relay_after_attempts") {
        match value {
            None => {
                config.relay_after_attempts = default.relay_after_attempts;
            },
            Some(v) => match read_count(v, u32::MAX as u64) {
                None => {
                    return Err("relay_after_attempts must be a count".to_owned());
                },
                Some(n) => {
                    config.relay_after_attempts = n as u32;
                },
            },
        }
    } else {
        match value {
            None => {
                config.relay_poll_seconds = default.relay_poll_seconds;
            },
            Some(v) => match read_count(v, u64::MAX) {
                None => {
                    return Err("relay_poll_seconds must be seconds".to_owned());
                },
                Some(n) => {
                    if n < MIN_POLL_SECONDS {
                        return Err("relay_poll_seconds minimum is 5".to_owned());
                    }
                    config.relay_poll_seconds = n;
                },
            },
        }
    }
    Ok(())
}

/// Both sets of settings.
#[derive(Debug, PartialEq, Eq)]
pub struct Settings {
    pub daemon: DaemonConfig,
    pub relay: RelayConfig,
}

/// What comes of setting a key, or of putting its default back.
pub open spec fn config_set(
    before: Settings,
    default: Settings,
    key: Seq<char>,
    value: Option<Seq<char>>,
    after: Settings,
    answer: Result<(), String>,
) -> bool {
    if is_daemon_key(key) {
        after.relay == before.relay && daemon_set(
            before.daemon,
            default.daemon,
            key,
            value,
            after.daemon,
            answer,
        )
    } else if is_relay_key(key) {
        after.daemon == before.daemon && relay_set(
            before.relay,
            default.relay,
            key,
            value,
            after.relay,
            answer,
        )
    } else {
        after == before && (answer matches Err(e) && e@ == "unknown config key: "@ + key)
    }
}

/// Sets a key, or puts its default back where no value is given.
pub fn apply_config(settings: &mut Settings, default: &Settings, key: &str, value: Option<&str>) -> (r: Result<
    (),
    String,
>)
    ensures
        config_set(*old(settings), *default, key@, given_text(value), *final(settings), r),
{
    if same_text(key, "iroh_relay") || same_text(key, "skip_native") || same_text(
        key,
        "offer_budget",
    ) {
        set_daemon(&mut settings.daemon, &default.daemon, key, value)
    } else if same_text(key, "relay_after_attempts") || same_text(key, "relay_poll_seconds") {
        set_relay(&mut settings.relay, &default.relay, key, value)
    } else {
        Err(concat("unknown config key: ", key))
    }
}

/// What is added when a key was set: the relay settings are read again while the daemon runs, the
/// others are not.
pub fn restart_note(key: &str) -> (r: &'static str)
    ensures
        r == if is_relay_key(key@) {
            ""
        } else {
            "; restart the daemon to apply it"
        },
{
    if same_text(key, "relay_after_attempts") || same_text(key, "relay_poll_seconds") {
        ""
    } else {
        "; restart the daemon to apply it"
    }
}

/// The members of all settings.
pub open spec fn settings_members(s: Settings) -> Members {
    seq![
        ("iroh_relay"@, JsonV::Str(s.daemon.iroh_relay@)),
        ("offer_budget"@, nat_json(s.daemon.offer_budget)),
        ("relay_after_attempts"@, nat_json(s.relay.relay_after_attempts as u64)),
        ("relay_poll_seconds"@, nat_json(s.relay.relay_poll_seconds)),
        ("skip_native"@, JsonV::Bool(s.daemon.skip_native)),
    ]
}

/// One setting, as it is shown.
pub open spec fn shown(s: Settings, key: Seq<char>) -> Option<JsonV> {
    member(JsonV::Obj(settings_members(s)), key)
}

impl Settings {
    /// All settings as JSON.
    pub fn to_json(&self) -> (r: Json)
        ensures
            r@ == JsonV::Obj(settings_members(*self)),
    {
        let mut f = Fields::new();
        f.put_str("iroh_relay", self.daemon.iroh_relay.as_str());
        f.put("offer_budget", nat_value(self.daemon.offer_budget));
        f.put("relay_after_attempts", nat_value(self.relay.relay_after_attempts as u64));
        f.put("relay_poll_seconds", nat_value(self.relay.relay_poll_seconds));
        f.put("skip_native", Json::Bool(self.daemon.skip_native));
        assert(f.so_far() =~= settings_members(*self));
        f.done()
    }

    /// One setting as JSON.
    pub fn get(&self, key: &str) -> (r: Result<Json, String>)
        ensures
            match shown(*self, key@) {
                Some(v) => r matches Ok(j) && j@ == v,
                None => r matches Err(e) && e@ == "unknown config key: "@ + key@,
            },
    {
        let all = self.to_json();
        match all.get(key) {
            Some(v) => Ok(v.duplicate()),
            None => Err(concat("unknown config key: ", key)),
        }
    }
}

/// A value as it is shown: a text without its quotes, anything else as JSON.
pub fn plain_value(value: &Json) -> (r: String)
    ensures
        r@ == match value@ {
            JsonV::Str(s) => s,
            _ => crate::canonical::json_text(value@),
        },
{
    match value {
        Json::Str(s) => s.clone(),
        _ => crate::canonical::render(value),
    }
}

proof fn shown_values(s: Settings)
    ensures
        shown(s, "iroh_relay"@) == Some(JsonV::Str(s.daemon.iroh_relay@)),
        shown(s, "offer_budget"@) == Some(nat_json(s.daemon.offer_budget)),
        shown(s, "relay_after_attempts"@) == Some(nat_json(s.relay.relay_after_attempts as u64)),
        shown(s, "relay_poll_seconds"@) == Some(nat_json(s.relay.relay_poll_seconds)),
        shown(s, "skip_native"@) == Some(JsonV::Bool(s.daemon.skip_native)),
        forall|key: Seq<char>|
            !is_daemon_key(key) && !is_relay_key(key) ==> #[trigger] shown(s, key) is None,
{
    reveal_strlit("iroh_relay");
    reveal_strlit("offer_budget");
    reveal_strlit("relay_after_attempts");
    reveal_strlit("relay_poll_seconds");
    reveal_strlit("skip_native");
    let m = settings_members(s);
    assert(m[0].0.len() == 10 && m[1].0.len() == 12 && m[2].0.len() == 20 && m[3].0.len() == 18
        && m[4].0.len() == 11);
    member_at_unique(m, m[0].0, 0);
    member_at_unique(m, m[1].0, 1);
    member_at_unique(m, m[2].0, 2);
    member_at_unique(m, m[3].0, 3);
    member_at_unique(m, m[4].0, 4);
    assert forall|key: Seq<char>| !is_daemon_key(key) && !is_relay_key(key) implies #[trigger] shown(
        s,
        key,
    ) is None by {
        member_at_unique(m, key, 5);
    }
}

/// What a value of a key is shown as.
pub open spec fn value_shown(key: Seq<char>, v: Seq<char>) -> JsonV {
    if key == "iroh_relay"@ {
        JsonV::Str(v)
    } else if key == "skip_native"@ {
        JsonV::Bool(v == "true"@)
    } else {
        nat_json(count_of(v, u64::MAX as int)->0 as u64)
    }
}

/// A value that was set is shown, and no other setting changes.
pub proof fn set_value_is_shown(
    before: Settings,
    default: Settings,
    key: Seq<char>,
    v: Seq<char>,
    after: Settings,
)
    requires
        config_set(before, default, key, Some(v), after, Ok(())),
    ensures
        shown(after, key) == Some(value_shown(key, v)),
        forall|other: Seq<char>| other != key ==> #[trigger] shown(after, other) == shown(before, other),
{
    reveal_strlit("iroh_relay");
    reveal_strlit("offer_budget");
    reveal_strlit("relay_after_attempts");
    reveal_strlit("relay_poll_seconds");
    reveal_strlit("skip_native");
    reveal_strlit("true");
    reveal_strlit("false");
    shown_values(before);
    shown_values(after);
    if key == "relay_after_attempts"@ {
        let digits = if v.len() > 0 && v[0] == '+' {
            v.skip(1)
        } else {
            v
        };
        number_bound(digits);
    }
}

/// A key that is unset shows its default, and no other setting changes.
pub proof fn unset_key_shows_its_default(
    before: Settings,
    default: Settings,
    key: Seq<char>,
    after: Settings,
    answer: Result<(), String>,
)
    requires
        is_daemon_key(key) || is_relay_key(key),
        config_set(before, default, key, None, after, answer),
    ensures
        answer is Ok,
        shown(after, key) == shown(default, key),
        forall|other: Seq<char>| other != key ==> #[trigger] shown(after, other) == shown(before, other),
{
    reveal_strlit("iroh_relay");
    reveal_strlit("offer_budget");
    reveal_strlit("relay_after_attempts");
    reveal_strlit("relay_poll_seconds");
    reveal_strlit("skip_native");
    shown_values(before);
    shown_values(after);
    shown_values(default);
}

/// A value that is refused changes nothing.
pub proof fn refused_value_changes_nothing(
    before: Settings,
    default: Settings,
    key: Seq<char>,
    value: Option<Seq<char>>,
    after: Settings,
    e: String,
)
    requires
        config_set(before, default, key, value, after, Err(e)),
    ensures
        after == before,
{
}

} // verus!

use abra::cli::args::{
    foreground_args, parse_adapter_option, parse_duration, startup_step, Startup,
};
use abra::cli::serve::{
    check_resolved, content_type, refusal_text, requested_path, response_head, route, Refusal,
    Route,
};
use abra::cli::settings::{
    apply_config, plain_value, restart_note, DaemonConfig, RelayConfig, Settings,
};
use abra::json::Json;

#[test]
fn adapter_options_are_keys_and_values() {
    assert_eq!(
        parse_adapter_option("a=b=c").unwrap(),
        ("a".to_owned(), "b=c".to_owned())
    );
    assert_eq!(parse_adapter_option("a=").unwrap(), ("a".to_owned(), String::new()));
    assert_eq!(parse_adapter_option("a").unwrap_err(), "adapter option must be k=v");
    assert_eq!(
        parse_adapter_option("=b").unwrap_err(),
        "adapter option key must not be empty"
    );
}

#[test]
fn durations_have_a_unit() {
    for (text, ms) in [
        ("5ms", 5),
        ("120s", 120_000),
        ("2m", 120_000),
        ("1h", 3_600_000),
        ("7d", 604_800_000),
        ("0s", 0),
    ] {
        assert_eq!(parse_duration(text).unwrap(), ms);
    }
    assert_eq!(parse_duration("s").unwrap_err(), "invalid duration");
    assert_eq!(parse_duration("18446744073709551616ms").unwrap_err(), "invalid duration");
    assert_eq!(parse_duration("18446744073709551615ms").unwrap(), u64::MAX);
    assert_eq!(parse_duration("5").unwrap_err(), "duration needs ms/s/m/h/d suffix");
    assert_eq!(parse_duration("5w").unwrap_err(), "duration needs ms/s/m/h/d suffix");
    assert_eq!(parse_duration("18446744073709551615d").unwrap_err(), "duration too large");
}

fn settings() -> Settings {
    Settings {
        daemon: DaemonConfig { iroh_relay: "n0".to_owned(), skip_native: false, offer_budget: 7 },
        relay: RelayConfig { relay_after_attempts: 3, relay_poll_seconds: 60 },
    }
}

#[test]
fn config_rejects_unknown_keys_and_restores_defaults() {
    let default = settings();
    let mut s = settings();
    assert!(apply_config(&mut s, &default, "nope", Some("1")).is_err());
    apply_config(&mut s, &default, "skip_native", Some("true")).unwrap();
    assert!(s.daemon.skip_native);
    apply_config(&mut s, &default, "skip_native", None).unwrap();
    assert!(!s.daemon.skip_native);
    assert!(apply_config(&mut s, &default, "relay_poll_seconds", Some("1")).is_err());
    apply_config(&mut s, &default, "relay_poll_seconds", Some("30")).unwrap();
    assert_eq!(s.relay.relay_poll_seconds, 30);
}

#[test]
fn settings_are_set_shown_and_refused() {
    let default = settings();
    let mut s = settings();
    let mut set = |key: &str, value: Option<&str>| apply_config(&mut s, &default, key, value);
    set("iroh_relay", Some("none")).unwrap();
    assert!(set("iroh_relay", Some("http://x")).unwrap_err().contains("https"));
    set("offer_budget", Some("+12")).unwrap();
    assert_eq!(set("offer_budget", Some("-1")).unwrap_err(), "offer_budget must be bytes");
    assert_eq!(set("offer_budget", Some("")).unwrap_err(), "offer_budget must be bytes");
    set("relay_after_attempts", Some("0")).unwrap();
    assert_eq!(
        set("relay_after_attempts", Some("4294967296")).unwrap_err(),
        "relay_after_attempts must be a count"
    );
    assert_eq!(
        set("skip_native", Some("yes")).unwrap_err(),
        "skip_native must be true or false"
    );
    assert_eq!(set("what", None).unwrap_err(), "unknown config key: what");
    assert_eq!(s.daemon.iroh_relay, "none");
    assert_eq!(s.daemon.offer_budget, 12);
    assert_eq!(s.relay.relay_after_attempts, 0);
    assert_eq!(plain_value(&s.get("iroh_relay").unwrap()), "none");
    assert_eq!(plain_value(&s.get("offer_budget").unwrap()), "12");
    assert!(s.get("nope").is_err());
    assert_eq!(
        abra::canonical::render(&s.to_json()),
        "{\"iroh_relay\":\"none\",\"offer_budget\":12,\"relay_after_attempts\":0,\"relay_poll_seconds\":60,\"skip_native\":false}"
    );
    assert_eq!(restart_note("relay_poll_seconds"), "");
    assert_eq!(restart_note("skip_native"), "; restart the daemon to apply it");
    assert_eq!(plain_value(&Json::Bool(true)), "true");
}

#[test]
fn daemons_start_in_the_background() {
    let args: Vec<String> =
        ["daemon", "--background", "--yes"].iter().map(|a| a.to_string()).collect();
    assert_eq!(foreground_args(&args), ["daemon", "--yes"]);
    assert_eq!(startup_step(true, false, true), Startup::Ready);
    assert_eq!(startup_step(false, false, true), Startup::Exited);
    assert_eq!(startup_step(false, true, true), Startup::TimedOut);
    assert_eq!(startup_step(false, true, false), Startup::Wait);
}

#[test]
fn requests_name_files_below_the_served_directory() {
    assert_eq!(requested_path("GET /a/b.js HTTP/1.1\r\nHost: x\r\n"), "a/b.js");
    assert_eq!(requested_path("GET //x"), "x");
    assert_eq!(requested_path("GET"), "");
    assert_eq!(requested_path("GET / HTTP/1.1"), "");
    assert_eq!(requested_path("\n GET /late"), "");
    assert_eq!(route(""), Route::File("index.html".to_owned()));
    assert_eq!(route("a.b/c"), Route::File("a.b/c".to_owned()));
    assert_eq!(route("a/../b"), Route::BadRequest);
    assert_eq!(route("a\\b"), Route::BadRequest);
    assert_eq!(content_type(Some("html")), "text/html; charset=utf-8");
    assert_eq!(content_type(None), "application/octet-stream");
    let head = response_head(Some("js"), 1024);
    assert!(head.starts_with("HTTP/1.1 200 OK\r\nContent-Type: text/javascript"));
    assert!(head.contains("Content-Length: 1024\r\n"));
    assert_eq!(check_resolved(false, false), Err(Refusal::NotFound));
    assert_eq!(check_resolved(true, false), Err(Refusal::Forbidden));
    check_resolved(true, true).unwrap();
    assert!(refusal_text(Refusal::Forbidden).starts_with("HTTP/1.1 403"));
}

use abra::adapter::fault::Fault;
use abra::adapter::protocol::{build_request, parse_response, MAX_LINE};
use abra::adapter::registry::{
    check_manifest, check_thumbnail, claim_directory, executable_name, order_claims,
    with_directory, without_directory, AdapterManifest, AdapterRegistry, Candidate, ExtraAdapterDir, Preset,
    Presets, Source,
};
use abra::adapter::request::{
    export_body, import_body, inventory_body, look_body, ControlRequest,
};
use abra::canonical::{read_json, render};
use abra::cas::Digest;
use abra::json::Json;
use abra::table::Table;
use std::path::Path;

fn json(text: &str) -> Json {
    read_json(text.as_bytes()).unwrap()
}

fn texts(words: &[&str]) -> Vec<String> {
    words.iter().map(|w| w.to_string()).collect()
}

#[test]
fn build_request_sets_envelope_and_keeps_body_fields() {
    let (id, request) =
        build_request("export", json("{\"kind\":\"com.test\",\"source\":\"x\"}")).unwrap();
    assert_eq!(id.len(), 32);
    assert!(id.chars().all(|c| c.is_ascii_hexdigit()));
    let field = |k: &str| request.get(k).unwrap().as_str().unwrap().to_owned();
    assert_eq!(field("protocol"), "abra-adapter/1");
    assert_eq!(field("request_id"), id);
    assert_eq!(field("verb"), "export");
    assert_eq!(field("kind"), "com.test");
    assert_eq!(field("source"), "x");
    assert!(render(&request).len() <= MAX_LINE);
}

#[test]
fn build_request_overwrites_caller_envelope_fields() {
    let (id, request) = build_request(
        "inspect",
        json("{\"protocol\":\"other\",\"request_id\":\"nope\",\"verb\":\"export\"}"),
    )
    .unwrap();
    let field = |k: &str| request.get(k).unwrap().as_str().unwrap().to_owned();
    assert_eq!(field("protocol"), "abra-adapter/1");
    assert_eq!(field("request_id"), id);
    assert_eq!(field("verb"), "inspect");
    assert_ne!(id, "nope");
}

#[test]
fn build_request_rejects_a_non_object_body() {
    let error = build_request("export", json("\"x\"")).unwrap_err();
    assert!(error.message().contains("object"));
    let error = build_request("export", json("[1]")).unwrap_err();
    assert!(error.message().contains("object"));
}

#[test]
fn build_request_rejects_a_line_over_one_mib() {
    let huge = "x".repeat(MAX_LINE);
    let error = build_request("export", json(&format!("{{\"data\":\"{huge}\"}}"))).unwrap_err();
    assert!(error.message().contains("1 MiB"));
}

fn ok_line(request_id: &str, extra: &str) -> String {
    format!(r#"{{"request_id":"{request_id}","ok":true,{extra}}}"#)
}

fn said(verb: &str, extra: &str) -> String {
    parse_response(verb, "ab", &ok_line("ab", extra)).unwrap_err().message()
}

#[test]
fn parse_response_export_requires_an_object_payload() {
    let value = parse_response(
        "export",
        "ab",
        &ok_line("ab", r#""payload":{"k":1},"files_path":null"#),
    )
    .unwrap();
    assert_eq!(value.get("payload"), Some(&json("{\"k\":1}")));
    assert_eq!(value.get("files_path"), Some(&Json::Null));
    assert_eq!(value.get("ok"), None);
    assert!(said("export", r#""payload":"nope""#).contains("object payload"));
}

#[test]
fn parse_response_import_normalizes_result_and_optional_deep_link() {
    let value = parse_response(
        "import",
        "ab",
        &ok_line(
            "ab",
            r#""result":{"ok":true},"deep_link":"abra://x","extra":1"#,
        ),
    )
    .unwrap();
    assert_eq!(value, json("{\"result\":{\"ok\":true},\"deep_link\":\"abra://x\"}"));
    let value = parse_response(
        "import",
        "ab",
        &ok_line("ab", r#""result":1,"deep_link":null"#),
    )
    .unwrap();
    assert_eq!(value, json("{\"result\":1}"));
    assert!(said("import", r#""deep_link":"x""#).contains("requires result"));
}

#[test]
fn parse_response_control_returns_result() {
    let value =
        parse_response("control", "ab", &ok_line("ab", r#""result":{"op":"stop"}"#)).unwrap();
    assert_eq!(value, json("{\"op\":\"stop\"}"));
    assert!(said("control", r#""other":true"#).contains("requires result"));
}

#[test]
fn parse_response_inventory_validates_items_and_limit() {
    let value = parse_response("inventory", "ab", &ok_line("ab", r#""label":"Browser","items":[{"id":"tab-1","kind":"com.test","label":"Example","source":{"tab":"1"},"transferable":true}]"#)).unwrap();
    let Some(Json::Arr(items)) = value.get("items") else {
        panic!("items")
    };
    assert_eq!(items[0].get("id").unwrap().as_str(), Some("tab-1"));
    let item = r#"{"id":"1","kind":"com.test","label":"x","source":{},"transferable":true}"#;
    let list = vec![item; 257].join(",");
    assert!(said("inventory", &format!(r#""label":"x","items":[{list}]"#)).contains("256"));
    let list = vec![item; 256].join(",");
    assert!(parse_response(
        "inventory",
        "ab",
        &ok_line("ab", &format!(r#""label":"x","items":[{list}]"#))
    )
    .is_ok());
    // Positional items, options that are null, and members that nobody knows.
    let value = parse_response(
        "inventory",
        "ab",
        &ok_line("ab", r#""label":"x","error":"e","items":[["1","k","l",null,2,null,false]]"#),
    )
    .unwrap();
    assert_eq!(
        value,
        json(r#"{"error":"e","items":[{"id":"1","kind":"k","label":"l","source":2,"transferable":false}],"label":"x"}"#)
    );
    assert!(said("inventory", r#""label":"x","items":[],"more":1"#).contains("malformed"));
    assert!(said("inventory", r#""label":"x","items":[{"id":"1"}]"#).contains("malformed"));
    assert!(said("inventory", r#""label":"x""#).contains("malformed"));
}

#[test]
fn parse_response_inspect_uses_flat_fields() {
    let value = parse_response(
        "inspect",
        "ab",
        &ok_line("ab", r#""summary":"1 files","warnings":[],"blocked":[]"#),
    )
    .unwrap();
    assert_eq!(
        value,
        json("{\"summary\":\"1 files\",\"warnings\":[],\"blocked\":[]}")
    );
    assert!(said("inspect", r#""result":{"summary":"x"}"#).contains("flat fields"));
    let value = parse_response("inspect", "ab", &ok_line("ab", r#""other":1"#)).unwrap();
    assert_eq!(value, json("{\"summary\":null,\"warnings\":[],\"blocked\":[]}"));
    assert!(said("inspect", r#""warnings":1"#).contains("malformed"));
}

#[test]
fn previews_show_pictures() {
    let fine = r#""media_type":"image/png","data":"AA","width":1,"height":2"#;
    parse_response("preview", "ab", &ok_line("ab", fine)).unwrap();
    assert!(said("preview", r#""media_type":"text/html""#).contains("media_type"));
    assert!(said("preview", r#""media_type":"image/png""#).contains("base64"));
    assert!(said("preview", r#""media_type":"image/png","data":"A","width":-1,"height":1"#)
        .contains("width and height"));
    assert!(said("preview", &format!("{fine},\"items\":1")).contains("array"));
    assert!(said("preview", &format!("{fine},\"items\":[{{}}]")).contains("label"));
    parse_response("preview", "ab", &ok_line("ab", &format!("{fine},\"items\":[{{\"label\":\"x\"}}]")))
        .unwrap();
}

#[test]
fn parse_response_maps_adapter_errors_and_rejects_mismatches() {
    let error = parse_response(
        "export",
        "ab",
        r#"{"request_id":"ab","ok":false,"error":{"code":"busy","message":"try later","retryable":true}}"#,
    )
    .unwrap_err();
    let Fault::Adapter(adapter_error) = &error else {
        panic!("expected what the adapter said")
    };
    assert_eq!(adapter_error.code, "busy");
    assert_eq!(adapter_error.message, "try later");
    assert!(adapter_error.retryable);
    assert_eq!(error.message(), "busy: try later");

    let error = parse_response("export", "want", &ok_line("other", r#""payload":{}"#)).unwrap_err();
    assert!(error.message().contains("request_id mismatch"));
    let error = parse_response("export", "ab", "not json\n").unwrap_err();
    assert!(error.message().contains("malformed"));
    assert!(said("watch", r#""payload":{}"#).contains("unsupported adapter response verb"));
    let error = parse_response("export", "ab", r#"{"request_id":"ab","ok":false}"#).unwrap_err();
    assert!(error.message().contains("lacks error"));
    let error =
        parse_response("export", "ab", r#"{"request_id":"ab","error":{"code":1}}"#).unwrap_err();
    assert!(error.message().contains("malformed adapter error"));
}

#[test]
fn parse_response_rejects_a_line_over_one_mib() {
    let line = "x".repeat(MAX_LINE + 1);
    let error = parse_response("export", "ab", &line).unwrap_err();
    assert!(error.message().contains("1 MiB"));
}

fn manifest(name: &str, kinds: &[&str], controls: &[&str]) -> AdapterManifest {
    AdapterManifest {
        spec: "abra-adapter/1".to_owned(),
        name: name.to_owned(),
        version: "1".to_owned(),
        kinds: texts(kinds),
        verbs: texts(&["export", "import"]),
        controls: texts(controls),
        executable: Some("run".to_owned()),
        presets: None,
    }
}

fn found(name: &str, kinds: &[&str], controls: &[&str]) -> Candidate {
    Candidate {
        directory: format!("/adapters/{name}"),
        source: Source::Root,
        found: Ok((manifest(name, kinds, controls), format!("/adapters/{name}/run"))),
    }
}

#[test]
fn discovery_reports_duplicate_kind_claims_and_refuses_dispatch() {
    let registry = AdapterRegistry::discover_with(
        vec![found("a", &["com.test.kind"], &[]), found("b", &["com.test.kind"], &[])],
        Vec::new(),
    );
    assert!(registry.for_kind("com.test.kind").is_none());
    assert!(registry
        .errors
        .iter()
        .any(|error| error.contains("duplicate adapter kind")));
    assert_eq!(
        registry.errors,
        ["duplicate adapter kind claim com.test.kind: a and b"]
    );
    let third = AdapterRegistry::discover_with(
        vec![
            found("a", &["k"], &[]),
            found("b", &["k"], &[]),
            found("c", &["k", "other"], &[]),
        ],
        Vec::new(),
    );
    assert!(third.for_kind("k").is_none());
    assert_eq!(third.for_kind("other").unwrap().manifest.name, "c");
}

#[test]
fn two_adapters_claiming_one_control_kind_conflict() {
    let registry = AdapterRegistry::discover_with(
        vec![
            found("a", &["com.test.a"], &["dev.abra.workspace"]),
            found("b", &["com.test.b"], &["dev.abra.workspace"]),
        ],
        Vec::new(),
    );
    assert!(registry.for_control("dev.abra.workspace").is_none());
    assert!(registry
        .errors
        .iter()
        .any(|error| error.contains("duplicate adapter control claim")));
}

#[test]
fn broken_sibling_does_not_block_discovery() {
    let broken = Candidate {
        directory: "/adapters/broken".to_owned(),
        source: Source::Root,
        found: Err("not json".to_owned()),
    };
    let registry =
        AdapterRegistry::discover_with(vec![broken, found("good", &["com.test.good"], &[])], Vec::new());
    assert!(registry.for_kind("com.test.good").is_some());
    assert_eq!(registry.errors.len(), 1);
    assert_eq!(registry.errors[0], "/adapters/broken: not json");
}

#[test]
fn adapters_are_added_and_removed_by_name() {
    let mut flag = found("f", &["f"], &[]);
    flag.source = Source::Flag;
    let registry = AdapterRegistry::discover_with(
        vec![found("a", &["k"], &["c"]), flag, found("a", &["z"], &[])],
        vec!["x: gone".to_owned()],
    );
    assert_eq!(registry.errors, ["x: gone", "duplicate adapter name a"]);
    registry.add(&manifest("b", &["new"], &[])).unwrap();
    assert!(registry.add(&manifest("a", &["new"], &[])).unwrap_err().message().contains("name a"));
    assert_eq!(
        registry.add(&manifest("b", &["k"], &[])).unwrap_err().message(),
        "duplicate adapter kind claim k: a and b"
    );
    assert!(registry.add(&manifest("b", &["new"], &["c"])).unwrap_err().message().contains("control"));
    assert_eq!(registry.remove("a").unwrap(), "/adapters/a");
    assert!(registry.remove("f").unwrap_err().message().contains("not persisted"));
    assert!(registry.remove("zz").is_err());
    let adapter = registry.for_kind("k").unwrap();
    assert!(adapter.supports("export"));
    adapter.require_verb("import").unwrap();
    assert_eq!(
        adapter.require_verb("preview").unwrap_err().message(),
        "adapter a does not support preview"
    );
    let mut dirs = texts(&["/a"]);
    with_directory(&mut dirs, "/b".to_owned());
    with_directory(&mut dirs, "/a".to_owned());
    assert_eq!(dirs, ["/a", "/b"]);
    assert_eq!(without_directory(&dirs, "/a"), ["/b"]);
    // Directories are compared by the parts of their paths.
    with_directory(&mut dirs, "/a/".to_owned());
    with_directory(&mut dirs, "//b/.".to_owned());
    assert_eq!(dirs, ["/a", "/b"]);
    with_directory(&mut dirs, "a".to_owned());
    with_directory(&mut dirs, "./a".to_owned());
    with_directory(&mut dirs, "/b/../a".to_owned());
    assert_eq!(dirs, ["/a", "/b", "a", "./a", "/b/../a"]);
    assert_eq!(without_directory(&dirs, "/./b//"), ["/a", "a", "./a", "/b/../a"]);
    let mut claims = Vec::new();
    claim_directory(&mut claims, "/a".to_owned(), Source::Root);
    claim_directory(&mut claims, "/a".to_owned(), Source::Env);
    claim_directory(&mut claims, "/a/".to_owned(), Source::Env);
    claim_directory(&mut claims, "//a".to_owned(), Source::Env);
    claim_directory(&mut claims, "/./a".to_owned(), Source::Env);
    assert_eq!(claims.len(), 1);
    for path in ["b", "/b/c", "..", "/b", "/b-c", "./z", "/B"] {
        claim_directory(&mut claims, path.to_owned(), Source::Env);
    }
    let ordered: Vec<String> = order_claims(claims).into_iter().map(|c| c.path).collect();
    let mut expected: Vec<&Path> =
        ["/a", "b", "/b/c", "..", "/b", "/b-c", "./z", "/B"].iter().map(Path::new).collect();
    expected.sort();
    let expected: Vec<&str> = expected.iter().map(|path| path.to_str().unwrap()).collect();
    assert_eq!(ordered, expected);
    assert_eq!(ordered, ["/B", "/a", "/b", "/b/c", "/b-c", "./z", "..", "b"]);
    let mut claims = Vec::new();
    claim_directory(&mut claims, "/a".to_owned(), Source::Root);
    assert_eq!(claims[0].source.as_str(), "root");
    assert_eq!(ExtraAdapterDir::flag("/x".to_owned()).source, Source::Flag);
    assert_eq!(ExtraAdapterDir::env("/x".to_owned()).source.as_str(), "env");
    assert_eq!(executable_name(&manifest("b", &[], &[])), "run");
}

fn preset(label: &str, value: &str, description: Option<&str>) -> Preset {
    Preset {
        label: label.to_owned(),
        value: json(value),
        description: description.map(str::to_owned),
    }
}

fn presets(source: Vec<Preset>) -> Presets {
    Presets { source, destination: Vec::new() }
}

#[test]
fn presets_parse_and_reject_invalid_values() {
    let ok = Presets {
        source: vec![
            preset("Local", "\"local\"", Some("from here")),
            preset("Object", "{\"type\":\"cdp\"}", None),
        ],
        destination: vec![preset("Here", "\"local\"", None)],
    };
    ok.validate().unwrap();
    let many = presets((0..17).map(|i| preset(&format!("P{i}"), "\"x\"", None)).collect());
    assert!(many.validate().unwrap_err().message().contains("more than 16 presets"));
    let long_label = "a".repeat(81);
    let long_desc = "a".repeat(241);
    for (name, p, fragment) in [
        ("empty", preset("", "\"x\"", None), "label must have 1 to 80"),
        ("long-label", preset(&long_label, "\"x\"", None), "label must have 1 to 80"),
        ("long-desc", preset("ok", "\"x\"", Some(&long_desc)), "description exceeds 240"),
        ("array-value", preset("ok", "[]", None), "string or an object"),
        ("number-value", preset("ok", "1", None), "string or an object"),
    ] {
        let mut m = manifest(name, &["k"], &[]);
        m.presets = Some(presets(vec![p]));
        let said = check_manifest(&m, "/p").unwrap_err().message();
        assert!(said.contains(fragment), "{name}: {said}");
    }
    check_manifest(&manifest("a", &["k"], &[]), "/p").unwrap();
    assert_eq!(
        check_manifest(&manifest("a", &[], &[]), "/p").unwrap_err().message(),
        "invalid adapter manifest /p"
    );
    check_thumbnail(524_288).unwrap();
    assert!(check_thumbnail(0).is_err());
    assert!(check_thumbnail(524_289).is_err());
}

#[test]
fn requests_carry_their_source_destination_and_options() {
    let mut options = Table::new();
    options.insert("mode".to_owned(), "fast".to_owned());
    let export = export_body("com.test", json("{\"tab\":3}"), "/tmp/s", &options);
    assert_eq!(export.get("source"), Some(&json("{\"tab\":3}")));
    assert_eq!(export.get("options"), Some(&json("{\"mode\":\"fast\"}")));
    let import = import_body(
        "com.test",
        json("{}"),
        &None,
        json("{\"profile\":\"work\"}"),
        &Some("/work/demo".to_owned()),
        &options,
    );
    assert_eq!(import.get("destination"), Some(&json("{\"profile\":\"work\"}")));
    assert_eq!(import.get("workspace").unwrap().as_str(), Some("/work/demo"));
    assert_eq!(import.get("materialized_files"), Some(&Json::Null));
    let look = look_body("k", json("\"not json\""), &Table::new());
    assert_eq!(render(&look), "{\"kind\":\"k\",\"options\":{},\"source\":\"not json\"}");
    assert_eq!(render(&inventory_body("k")), "{\"kind\":\"k\",\"options\":{}}");
    let control = ControlRequest {
        kind: "dev.abra.workspace".to_owned(),
        capsule_id: Digest::from_bytes([7; 32]),
        op: "instruct".to_owned(),
        text: Some("continue".to_owned()),
        workspace: None,
        options: Table::new(),
    };
    let (_, request) = build_request("control", control.to_json()).unwrap();
    assert_eq!(request.get("op").unwrap().as_str(), Some("instruct"));
    assert_eq!(request.get("verb").unwrap().as_str(), Some("control"));
    assert_eq!(request.get("workspace"), Some(&Json::Null));
}

use abra::net::transport::{
    address_step, iroh_address_is_dialable, merge_addresses, merge_peer_address_hints, parse_iroh_address,
    peer_address_has_direct_hint, peer_address_has_relay_hint, validate_iroh_relay_policy,
    validate_peer_address, DialHint, IrohRelayMode,
};

fn text(address: &iroh::EndpointAddr) -> String {
    serde_json::to_string(address).unwrap()
}

#[test]
fn iroh_relay_mode_parsing() {
    assert_eq!(IrohRelayMode::parse("n0").unwrap(), IrohRelayMode::N0);
    assert_eq!(IrohRelayMode::parse("none").unwrap(), IrohRelayMode::Off);
    assert!(matches!(
        IrohRelayMode::parse("https://relay.example.test").unwrap(),
        IrohRelayMode::Custom(_)
    ));
    assert!(IrohRelayMode::parse("http://relay.example.test").is_err());
    assert!(IrohRelayMode::parse("not a url").is_err());
    assert_eq!(IrohRelayMode::Off.label(), "none");
}

#[test]
fn endpoint_address_json_preserves_relay_url() {
    let id = iroh::SecretKey::from_bytes(&[23; 32]).public();
    let relay: iroh::RelayUrl = "https://relay.example.test".parse().unwrap();
    let address = iroh::EndpointAddr::new(id).with_relay_url(relay.clone());
    let decoded = parse_iroh_address(&text(&address)).unwrap();
    assert_eq!(decoded.relays.len(), 1);
    assert_eq!(decoded.relays[0].url, relay.to_string());
    assert_eq!(decoded.id, *id.as_bytes());
}

#[test]
fn direct_address_is_dialable_without_a_relay_url() {
    let id = iroh::SecretKey::from_bytes(&[26; 32]).public();
    let address = iroh::EndpointAddr::new(id).with_ip_addr("127.0.0.1:4242".parse().unwrap());
    let read = parse_iroh_address(&text(&address)).unwrap();
    assert!(iroh_address_is_dialable(&read));
    assert!(read.relays.is_empty());
    let nowhere = parse_iroh_address(&text(&iroh::EndpointAddr::new(id))).unwrap();
    assert!(!iroh_address_is_dialable(&nowhere));
}

#[test]
fn peer_relay_hints_require_https_and_respect_custom_pin() {
    let id = iroh::SecretKey::from_bytes(&[24; 32]).public();
    let insecure: iroh::RelayUrl = "http://relay.example.test".parse().unwrap();
    assert!(parse_iroh_address(&text(&iroh::EndpointAddr::new(id).with_relay_url(insecure))).is_err());

    let configured = IrohRelayMode::parse("https://one.example.test").unwrap();
    let other: iroh::RelayUrl = "https://two.example.test".parse().unwrap();
    let address =
        parse_iroh_address(&text(&iroh::EndpointAddr::new(id).with_relay_url(other))).unwrap();
    assert!(validate_iroh_relay_policy(&address, &configured).is_err());
    assert!(validate_iroh_relay_policy(&address, &IrohRelayMode::Off).is_err());
    assert!(validate_iroh_relay_policy(&address, &IrohRelayMode::N0).is_err());

    let n0 = iroh::defaults::prod::default_relay_map()
        .urls::<Vec<_>>()
        .pop()
        .unwrap();
    let address =
        parse_iroh_address(&text(&iroh::EndpointAddr::new(id).with_relay_url(n0))).unwrap();
    assert!(validate_iroh_relay_policy(&address, &IrohRelayMode::N0).is_ok());
}

#[test]
fn repeated_peer_addresses_keep_relay_and_direct_hints() {
    let id = iroh::SecretKey::from_bytes(&[28; 32]).public();
    let relay = iroh::defaults::prod::default_relay_map()
        .urls::<Vec<_>>()
        .pop()
        .unwrap();
    let known = iroh::EndpointAddr::new(id).with_relay_url(relay.clone());
    let observed = iroh::EndpointAddr::new(id).with_ip_addr("127.0.0.1:4242".parse().unwrap());
    let merged = merge_peer_address_hints(&text(&known), &text(&observed)).unwrap();
    let read = parse_iroh_address(&merged).unwrap();
    assert_eq!(read.relays[0].url, relay.to_string());
    assert_eq!(read.direct.len(), 1);
    assert!(peer_address_has_relay_hint(&merged));
    assert!(peer_address_has_direct_hint(&merged));
    let stranger = iroh::SecretKey::from_bytes(&[29; 32]).public();
    assert!(merge_peer_address_hints(&text(&known), &text(&iroh::EndpointAddr::new(stranger))).is_none());
}

#[test]
fn joined_addresses_name_what_either_named() {
    let id = iroh::SecretKey::from_bytes(&[30; 32]).public();
    let relay = |name: &str| format!("https://{name}.example.test").parse::<iroh::RelayUrl>().unwrap();
    let a = iroh::EndpointAddr::new(id)
        .with_relay_url(relay("one"))
        .with_ip_addr("127.0.0.1:1".parse().unwrap());
    let b = iroh::EndpointAddr::new(id)
        .with_relay_url(relay("one"))
        .with_relay_url(relay("two"))
        .with_ip_addr("[fe80::1%3]:2".parse().unwrap());
    let joined = parse_iroh_address(&merge_peer_address_hints(&text(&a), &text(&b)).unwrap()).unwrap();
    assert_eq!(joined.id, *id.as_bytes());
    let urls: Vec<String> = joined.relays.iter().map(|r| r.url.clone()).collect();
    assert_eq!(urls, [relay("one").to_string(), relay("two").to_string()]);
    assert_eq!(joined.direct, ["127.0.0.1:1", "[fe80::1%3]:2"]);

    let other = iroh::SecretKey::from_bytes(&[31; 32]).public();
    let hint = |address: &iroh::EndpointAddr| DialHint { text: text(address), socket: false };
    let merged = merge_addresses(
        &vec![text(&a), "tcp://127.0.0.1:9".to_owned()],
        &vec![hint(&iroh::EndpointAddr::new(other).with_relay_url(relay("one"))), hint(&b)],
    )
    .unwrap();
    assert_eq!(merged.len(), 3);
    let read = parse_iroh_address(&merged[0]).unwrap();
    assert_eq!((read.relays.len(), read.direct.len()), (2, 2));
    assert_eq!(merged[1], "tcp://127.0.0.1:9");
    assert_eq!(parse_iroh_address(&merged[2]).unwrap().id, *other.as_bytes());
}

#[test]
fn waiting_for_dialable_addresses_times_out() {
    let error = address_step(false, true).unwrap_err();
    assert!(error.message().contains("no direct or relay address"));
    assert!(!address_step(false, false).unwrap());
    assert!(address_step(true, true).unwrap());
}

#[test]
fn addresses_are_sockets_or_endpoints() {
    let socket = DialHint { text: "tcp://127.0.0.1:9".to_owned(), socket: true };
    validate_peer_address(&socket).unwrap();
    let other = DialHint { text: "nonsense".to_owned(), socket: false };
    assert!(validate_peer_address(&other).is_err());
    let broken = DialHint { text: "tcp://nowhere".to_owned(), socket: false };
    assert!(validate_peer_address(&broken).unwrap_err().message().contains("TCP"));
    let merged = merge_addresses(&vec!["tcp://127.0.0.1:9".to_owned()], &vec![socket]).unwrap();
    assert_eq!(merged, ["tcp://127.0.0.1:9"]);
    assert!(merge_addresses(&Vec::new(), &vec![other]).is_err());
}

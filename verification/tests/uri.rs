use librertc_client::uri::parse_runtime_uri;

#[test]
fn parses_olcrtc_uri_with_payload() {
    let target = parse_runtime_uri(
        "olcrtc://wbstream?vp8channel<vp8-batch=64&vp8-fps=60>@room-01#secret%client-01$Germany",
    )
    .expect("valid URI");

    assert_eq!(target.carrier, "wbstream");
    assert_eq!(target.transport, "vp8channel");
    assert_eq!(target.room_id, "room-01");
    assert_eq!(target.key, "secret");
    assert_eq!(target.client_id, "client-01");
    assert_eq!(target.name, "Germany");
    assert_eq!(target.payload.get("vp8-batch"), Some(&"64".to_string()));
    assert_eq!(target.payload.get("vp8-fps"), Some(&"60".to_string()));
}

fn err(raw: &str) -> String {
    match parse_runtime_uri(raw) {
        Ok(_) => panic!("expected an error for {raw}"),
        Err(e) => e,
    }
}

#[test]
fn uri_without_payload_or_name() {
    let t = parse_runtime_uri("  olcrtc://c?t@r#k%id  ").unwrap();
    assert_eq!(t.carrier, "c");
    assert_eq!(t.transport, "t");
    assert_eq!(t.room_id, "r");
    assert_eq!(t.key, "k");
    assert_eq!(t.client_id, "id");
    assert_eq!(t.name, "");
    assert_eq!(t.payload.len(), 0);
}

#[test]
fn uri_errors_name_the_missing_part() {
    assert_eq!(err("   "), "URI is required");
    assert_eq!(err("http://x"), "URI must start with olcrtc://");
    assert_eq!(err("olcrtc://carrier"), "URI carrier is required");
    assert_eq!(err("olcrtc://?t@r#k%c"), "URI carrier is required");
    assert_eq!(err("olcrtc://c?t@r"), "URI key is required");
    assert_eq!(err("olcrtc://c?t#k%c"), "URI room ID is required");
    assert_eq!(err("olcrtc://c?t@#k%c"), "URI room ID is required");
    assert_eq!(err("olcrtc://c?t@r#kc"), "URI shared key is required");
    assert_eq!(err("olcrtc://c?t@r#%c"), "URI shared key is required");
    assert_eq!(err("olcrtc://c?t@r#k%"), "URI client ID is required");
    assert_eq!(err("olcrtc://c?t@r#k%$name"), "URI client ID is required");
    assert_eq!(err("olcrtc://c?t<a=1@r#k%c"), "URI payload is invalid");
    assert_eq!(err("olcrtc://c?t>x<a=1@r#k%c"), "URI payload is invalid");
    assert_eq!(err("olcrtc://c?t<a>@r#k%c"), "URI payload item is invalid");
    assert_eq!(err("olcrtc://c?t<=1>@r#k%c"), "URI payload item is invalid");
    assert_eq!(err("olcrtc://c?<a=1>@r#k%c"), "URI transport is required");
    assert_eq!(err("olcrtc://c?@r#k%c"), "URI transport is required");
}

#[test]
fn payload_keeps_last_value_and_sorted_keys() {
    let t = parse_runtime_uri("olcrtc://c?t<z=1&&a=2&z=3&b=>@r#k%c$n").unwrap();
    assert_eq!(t.payload.get("z"), Some(&"3".to_string()));
    assert_eq!(t.payload.get("a"), Some(&"2".to_string()));
    assert_eq!(t.payload.get("b"), Some(&"".to_string()));
    assert_eq!(t.payload.get("missing"), None);
    let keys: Vec<String> = (0..t.payload.len()).map(|i| t.payload.entry(i).0.clone()).collect();
    assert_eq!(keys, vec!["a".to_string(), "b".to_string(), "z".to_string()]);
}

#[test]
fn separators_split_at_first_and_payload_at_last_bracket() {
    // the first '@' splits room from transport, the first '%' key from client
    let t = parse_runtime_uri("olcrtc://c?t<x=a>b>@r@s#k%c%d$n$m").unwrap();
    assert_eq!(t.transport, "t");
    assert_eq!(t.payload.get("x"), Some(&"a>b".to_string()));
    assert_eq!(t.room_id, "r@s");
    assert_eq!(t.client_id, "c%d");
    assert_eq!(t.name, "n$m");
}

#[test]
fn public_target_hides_secrets() {
    let t = parse_runtime_uri("olcrtc://c?t@r#k%id$Name").unwrap();
    let p = t.public();
    assert_eq!(p.carrier, "c");
    assert_eq!(p.transport, "t");
    assert_eq!(p.name, "Name");
}

#[test]
fn link_made_of_parts_parses_back() {
    let t = parse_runtime_uri("olcrtc://c?t<b=2&a=1&b=3>@r#k%i$n").unwrap();
    assert_eq!(t.carrier, "c");
    assert_eq!(t.transport, "t");
    assert_eq!(t.room_id, "r");
    assert_eq!(t.key, "k");
    assert_eq!(t.client_id, "i");
    assert_eq!(t.name, "n");
    assert_eq!(t.payload.get("a"), Some(&"1".to_string()));
    assert_eq!(t.payload.get("b"), Some(&"3".to_string()));
    assert_eq!(t.payload.len(), 2);
    let copy = t.payload.clone();
    assert_eq!(copy, t.payload);
}

#[test]
fn empty_payload_section_gives_empty_payload() {
    let t = parse_runtime_uri("olcrtc://c?t<>@r#k%i$n").unwrap();
    assert_eq!(t.transport, "t");
    assert_eq!(t.payload.len(), 0);
    assert_eq!(t.payload.get("a"), None);
}

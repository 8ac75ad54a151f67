use librertc_client::servers::{fnv1a64, server_id, server_name, servers_from_text};
use librertc_client::store::ClientStore;
use librertc_client::uri::parse_runtime_uri;

#[test]
fn fnv1a64_known_values() {
    assert_eq!(fnv1a64(b""), 0xcbf29ce484222325);
    assert_eq!(fnv1a64(b"a"), 0xaf63dc4c8601ec8c);
    assert_eq!(fnv1a64(b"foobar"), 0x85944171f73967e8);
}

#[test]
fn server_id_is_sixteen_hex_digits() {
    assert_eq!(server_id(""), "cbf29ce484222325");
    assert_eq!(server_id("a"), "af63dc4c8601ec8c");
    let id = server_id("olcrtc://c?t@r#k%c");
    assert_eq!(id.len(), 16);
    assert_eq!(id, format!("{:016x}", fnv1a64("olcrtc://c?t@r#k%c".as_bytes())));
}

#[test]
fn server_name_falls_back_to_carrier_and_transport() {
    let t = parse_runtime_uri("olcrtc://wb?vp8@r#k%c$ Berlin ").unwrap();
    assert_eq!(server_name(&t), " Berlin");
    let t = parse_runtime_uri("olcrtc://wb?vp8@r#k%c$  ").unwrap();
    assert_eq!(server_name(&t), "wb/vp8");
    let t = parse_runtime_uri("olcrtc://wb?vp8@r#k%c").unwrap();
    assert_eq!(server_name(&t), "wb/vp8");
}

#[test]
fn servers_from_text_skips_comments_and_blank_lines() {
    let raw = "# list\r\n\r\n  olcrtc://a?t@r#k%c$Zeta  \nolcrtc://b?u@r#k%c\n";
    let list = servers_from_text(raw).unwrap();
    assert_eq!(list.len(), 2);
    assert_eq!(list[0].name, "Zeta");
    assert_eq!(list[0].uri, "olcrtc://a?t@r#k%c$Zeta");
    assert_eq!(list[0].id, server_id("olcrtc://a?t@r#k%c$Zeta"));
    assert_eq!(list[1].name, "b/u");
    assert_eq!(list[1].carrier, "b");
    assert_eq!(list[1].transport, "u");
    assert_eq!(servers_from_text("olcrtc://a?t@r#k%c\nbad").unwrap_err(), "URI must start with olcrtc://");
}

fn store() -> ClientStore<()> {
    ClientStore::new(None, "1.0.0").0
}

#[test]
fn import_sorts_by_name_and_selects_first_when_profile_empty() {
    let mut s = store();
    s.import_servers("olcrtc://a?t@r#k%c$Zeta\nolcrtc://b?t@r#k%c$Alpha").unwrap();
    let list = s.finish_import();
    let names: Vec<&str> = list.iter().map(|x| x.name.as_str()).collect();
    assert_eq!(names, vec!["Alpha", "Zeta"]);
    assert_eq!(s.profile.uri, "olcrtc://b?t@r#k%c$Alpha");
    assert_eq!(s.profile.name, "Alpha");
    assert!(s.status.logs.last().unwrap().ends_with("  Profiles imported"));
}

#[test]
fn import_replaces_same_link_and_keeps_profile() {
    let mut s = store();
    s.import_servers("olcrtc://a?t@r#k%c$One").unwrap();
    s.import_servers("olcrtc://b?t@r#k%c$Two\nolcrtc://a?t@r#k%c$One").unwrap();
    assert_eq!(s.servers.len(), 2);
    assert_eq!(s.profile.name, "One");
}

#[test]
fn import_errors_change_nothing() {
    let mut s = store();
    assert_eq!(s.import_servers("# nothing\n\n"), Err("No olcrtc links found".to_string()));
    assert_eq!(s.import_servers("olcrtc://a"), Err("URI carrier is required".to_string()));
    assert!(s.servers.is_empty());
    assert_eq!(s.profile.uri, "");
}

#[test]
fn select_and_delete_servers() {
    let mut s = store();
    s.import_servers("olcrtc://a?t@r#k%c$A\nolcrtc://b?t@r#k%c$B").unwrap();
    let id_b = server_id("olcrtc://b?t@r#k%c$B");
    s.profile.subscription_url = "https://sub".into();
    s.select_server(&id_b).unwrap();
    assert_eq!(s.profile.name, "B");
    assert_eq!(s.profile.uri, "olcrtc://b?t@r#k%c$B");
    assert_eq!(s.profile.subscription_url, "");
    let p = s.finish_selection();
    assert_eq!(p.name, "B");
    assert!(s.status.logs.last().unwrap().ends_with("  Selected profile: B"));
    assert_eq!(s.select_server("nope"), Err("Server profile not found".to_string()));

    assert_eq!(s.delete_server("nope"), Err("Server profile not found".to_string()));
    s.delete_server(&id_b).unwrap();
    assert_eq!(s.servers.len(), 1);
    assert_eq!(s.profile.name, "A");
    assert_eq!(s.profile.uri, "olcrtc://a?t@r#k%c$A");
    let id_a = server_id("olcrtc://a?t@r#k%c$A");
    s.profile.subscription_url = "https://sub".into();
    s.delete_server(&id_a).unwrap();
    assert!(s.servers.is_empty());
    assert_eq!(s.profile.name, "Default");
    assert_eq!(s.profile.uri, "");
    assert_eq!(s.profile.subscription_url, "");
    let rest = s.finish_deletion();
    assert!(rest.is_empty());
}

#[test]
fn delete_keeps_other_servers_and_import_then_select() {
    let mut s = store();
    s.import_servers("olcrtc://a?t@r#k%c$A\nolcrtc://b?t@r#k%c$B\nolcrtc://c?t@r#k%c$C\nolcrtc://a?t@r#k%c$A")
        .unwrap();
    assert_eq!(s.servers.len(), 3);
    let id_c = server_id("olcrtc://c?t@r#k%c$C");
    s.select_server(&id_c).unwrap();
    assert_eq!(s.profile.uri, "olcrtc://c?t@r#k%c$C");
    let id_b = server_id("olcrtc://b?t@r#k%c$B");
    s.delete_server(&id_b).unwrap();
    let ids: Vec<String> = s.servers.iter().map(|x| x.id.clone()).collect();
    assert_eq!(ids, vec![server_id("olcrtc://a?t@r#k%c$A"), id_c.clone()]);
    assert_eq!(s.profile.uri, "olcrtc://c?t@r#k%c$C");
    assert_eq!(s.select_server(&id_b), Err("Server profile not found".to_string()));
}

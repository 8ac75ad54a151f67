use librertc_client::profile::ClientProfile;
use librertc_client::registry::{proxy_enable_commands, proxy_restore_commands, reg_query_value, restore_reg_value, RegCommand};
use librertc_client::status::{clock_string, seconds_or_zero, time_stamp, ClientStatus, LOG_LIMIT};
use librertc_client::store::{lock_error, prepare_profile, ClientStore, ConnectStart, SystemProxyBackup};
use librertc_client::uri::parse_runtime_uri;

#[test]
fn clock_text_of_seconds() {
    assert_eq!(clock_string(0), "00:00:00");
    assert_eq!(clock_string(3661), "01:01:01");
    assert_eq!(clock_string(86399), "23:59:59");
    assert_eq!(clock_string(86400 + 45296), "12:34:56");
    let now = time_stamp();
    assert_eq!(now.len(), 8);
    assert_eq!(&now[2..3], ":");
}

#[test]
fn ready_status() {
    let p = ClientProfile::initial("1.0.0");
    let s = ClientStatus::ready(&p);
    assert_eq!(s.state, "disconnected");
    assert_eq!(s.mode, "proxy");
    assert_eq!(s.socks, "127.0.0.1:0");
    assert_eq!(s.logs, vec!["Client ready".to_string()]);
    assert_eq!(s.steps.len(), 3);
    assert!(s.target.is_none());
    assert_eq!(s.tray_toggle(), ("Connect".to_string(), true));
}

#[test]
fn log_keeps_newest_lines() {
    let mut store: ClientStore<()> = ClientStore::new(None, "1.0.0").0;
    for i in 0..(LOG_LIMIT + 5) {
        store.append_log(&format!("line {i}"));
    }
    assert_eq!(store.status.logs.len(), LOG_LIMIT);
    assert!(store.status.logs.last().unwrap().ends_with(&format!("  line {}", LOG_LIMIT + 4)));
    assert!(store.status.logs[0].ends_with("  line 5"));
}

#[test]
fn new_store_migrates_saved_config() {
    let mut config = librertc_client::profile::ClientConfig::initial("0.9.0");
    config.profile.welcome_dismissed = true;
    let (store, persist): (ClientStore<()>, bool) = ClientStore::new(Some(config), "1.0.0");
    assert!(persist);
    assert!(!store.profile.welcome_dismissed);
    assert_eq!(store.profile.last_seen_version, "1.0.0");
    let (_, persist): (ClientStore<()>, bool) = ClientStore::new(None, "1.0.0");
    assert!(!persist);
}

#[test]
fn connect_and_disconnect_transitions() {
    let mut store: ClientStore<&'static str> = ClientStore::new(None, "1.0.0").0;
    assert_eq!(
        store.begin_connect().err(),
        Some("Subscription URL or direct URI is required".to_string())
    );
    assert_eq!(store.status.state, "disconnected");
    store.profile.uri = " olcrtc://wb?vp8@r#k%c ".into();
    let profile = match store.begin_connect().unwrap() {
        ConnectStart::Proceed(p) => p,
        ConnectStart::Running => panic!("not running yet"),
    };
    assert_eq!(profile.uri, "olcrtc://wb?vp8@r#k%c");
    assert_eq!(store.status.state, "connecting");
    assert!(store.status.logs.last().unwrap().ends_with("  Resolving profile Default"));
    let target = parse_runtime_uri(&profile.uri).unwrap();
    let mut runtime = profile.clone();
    runtime.socks_port = 50000;
    let backup = SystemProxyBackup { proxy_enable: Some("0x0".into()), proxy_server: None, proxy_override: None };
    store.commit_connection(profile, &runtime, &target, 42, false, Some(backup.clone()), Some("h"), "127.0.0.1:50001");
    assert_eq!(store.status.state, "connected");
    assert_eq!(store.status.socks, "127.0.0.1:50000");
    assert_eq!(store.runtime_pid, Some(42));
    assert_eq!(store.status.target.as_ref().unwrap().carrier, "wb");
    let n = store.status.logs.len();
    assert!(store.status.logs[n - 3].ends_with("  System proxy enabled: http=127.0.0.1:50001 -> socks=127.0.0.1:50000"));
    assert!(store.status.logs[n - 2].ends_with("  Started wb/vp8 at 127.0.0.1:50000"));
    assert!(store.status.logs[n - 1].ends_with("  Proxy mode selected"));
    assert_eq!(store.status.tray_toggle(), ("Disconnect".to_string(), true));
    assert!(matches!(store.begin_connect(), Ok(ConnectStart::Running)));
    assert!(store.take_exited_runtime(7).is_none());

    let work = store.begin_disconnect();
    assert_eq!(work.pid, Some(42));
    assert!(!work.stop_tun);
    assert_eq!(work.backup, Some(backup));
    assert_eq!(work.http_proxy, Some("h"));
    assert_eq!(store.status.state, "disconnected");
    assert!(store.runtime_pid.is_none());
    assert!(store.http_proxy.is_none());
}

#[test]
fn runtime_exit_clears_state() {
    let mut store: ClientStore<()> = ClientStore::new(None, "1.0.0").0;
    store.profile.uri = "olcrtc://wb?vp8@r#k%c".into();
    store.profile.mode = "tun".into();
    let profile = match store.begin_connect().unwrap() {
        ConnectStart::Proceed(p) => p,
        ConnectStart::Running => unreachable!(),
    };
    let target = parse_runtime_uri(&profile.uri).unwrap();
    let runtime = profile.clone();
    store.commit_connection(profile, &runtime, &target, 9, true, None, None, "");
    let n = store.status.logs.len();
    assert!(store.status.logs[n - 3].ends_with("  System proxy left unchanged; TUN routes system traffic directly"));
    assert!(store.status.logs[n - 1].ends_with("  TUN mode selected: LibreRTC Net Service started embedded sing-box TUN"));
    store.apply_stats(1, 2, 3, 4);
    assert_eq!(store.status.upload_bytes, 4);
    let work = store.take_exited_runtime(9).unwrap();
    assert!(work.stop_tun);
    assert!(!store.tun_active);
    store.finish_exit();
    assert_eq!(store.status.state, "disconnected");
    assert_eq!(store.status.download_bps, 0);
    assert_eq!(store.status.started_at, "");
}

#[test]
fn saving_profile() {
    let mut p = ClientProfile::initial("1.0.0");
    p.proxy_auto = false;
    p.socks_port = 0;
    p.name = " Home ".into();
    let saved = prepare_profile(p).unwrap();
    assert_eq!(saved.socks_port, 8808);
    let mut store: ClientStore<()> = ClientStore::new(None, "1.0.0").0;
    store.status.notice = "old".into();
    let r = store.apply_saved_profile(saved);
    assert_eq!(r.name, "Home");
    assert_eq!(store.status.socks, "127.0.0.1:8808");
    assert_eq!(store.status.notice, "");
    assert!(store.status.logs.last().unwrap().ends_with("  Profile saved: Home"));
    let mut bad = ClientProfile::initial("1.0.0");
    bad.uri = "nope".into();
    assert_eq!(prepare_profile(bad).err(), Some("URI must start with olcrtc://".to_string()));
    store.dismiss_welcome();
    let p = store.finish_dismiss_welcome();
    assert!(p.welcome_dismissed);
    assert_eq!(lock_error(()), "internal state lock failed");
}

#[test]
fn registry_output_and_commands() {
    let out = "\r\nHKEY_CURRENT_USER\\Software\\Microsoft\\Windows\\CurrentVersion\\Internet Settings\r\n    ProxyOverride    REG_SZ    <local>;*.lan   x\r\n    proxyserver    REG_SZ    127.0.0.1:1\r\n\r\n";
    assert_eq!(reg_query_value(out, "ProxyServer"), Some("127.0.0.1:1".to_string()));
    assert_eq!(reg_query_value(out, "ProxyOverride"), Some("<local>;*.lan x".to_string()));
    assert_eq!(reg_query_value(out, "ProxyEnable"), None);
    assert_eq!(
        restore_reg_value("ProxyEnable", "REG_DWORD", Some("0x1")),
        RegCommand::SetValue { name: "ProxyEnable".into(), kind: "REG_DWORD".into(), value: "0x1".into() }
    );
    assert_eq!(restore_reg_value("ProxyServer", "REG_SZ", None), RegCommand::DeleteValue { name: "ProxyServer".into() });
    let cmds = proxy_enable_commands("127.0.0.1:9");
    assert_eq!(cmds[1], RegCommand::SetValue { name: "ProxyServer".into(), kind: "REG_SZ".into(), value: "127.0.0.1:9".into() });
    let backup = SystemProxyBackup { proxy_enable: Some("0x0".into()), proxy_server: None, proxy_override: Some("<local>".into()) };
    let cmds = proxy_restore_commands(&backup);
    assert_eq!(cmds[0], RegCommand::SetValue { name: "ProxyEnable".into(), kind: "REG_DWORD".into(), value: "0x0".into() });
    assert_eq!(cmds[1], RegCommand::DeleteValue { name: "ProxyServer".into() });
}

#[test]
fn seconds_of_elapsed_time() {
    assert_eq!(seconds_or_zero(None), 0);
    assert_eq!(seconds_or_zero(Some(61)), 61);
}

fn apply(reg: &mut std::collections::BTreeMap<String, String>, cmds: &[RegCommand]) {
    for c in cmds {
        match c {
            RegCommand::SetValue { name, value, .. } => {
                reg.insert(name.clone(), value.clone());
            }
            RegCommand::DeleteValue { name } => {
                reg.remove(name);
            }
        }
    }
}

#[test]
fn restoring_saved_proxy_settings_undoes_enabling() {
    let mut reg = std::collections::BTreeMap::new();
    reg.insert("ProxyEnable".to_string(), "0x0".to_string());
    reg.insert("AutoDetect".to_string(), "0x1".to_string());
    let before = reg.clone();
    let backup = SystemProxyBackup {
        proxy_enable: reg.get("ProxyEnable").cloned(),
        proxy_server: reg.get("ProxyServer").cloned(),
        proxy_override: reg.get("ProxyOverride").cloned(),
    };
    apply(&mut reg, &proxy_enable_commands("127.0.0.1:8080"));
    assert_eq!(reg.get("ProxyServer"), Some(&"127.0.0.1:8080".to_string()));
    apply(&mut reg, &proxy_restore_commands(&backup));
    assert_eq!(reg, before);
}

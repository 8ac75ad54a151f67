use librertc_client::profile::{
    apply_app_version_migration, default_language, default_proxy_auto, normalize_profile,
    planned_steps, socks_address, validate_profile, validate_saved_profile, ClientConfig,
    ClientProfile,
};

fn base() -> ClientProfile {
    ClientProfile::initial("1.2.3")
}

#[test]
fn initial_profile_values() {
    let p = base();
    assert_eq!(p.name, "Default");
    assert_eq!(p.mode, "proxy");
    assert_eq!(p.language, "en");
    assert!(p.proxy_auto);
    assert_eq!(p.socks_host, "127.0.0.1");
    assert_eq!(p.socks_port, 0);
    assert_eq!(p.dns, "1.1.1.1:53");
    assert_eq!(p.olcrtc_path, "olcrtc.exe");
    assert!(!p.welcome_dismissed);
    assert_eq!(p.last_seen_version, "1.2.3");
    assert_eq!(default_language(), "en");
    assert!(default_proxy_auto());
    let c = ClientConfig::initial("1.2.3");
    assert!(c.servers.is_empty());
    assert_eq!(c.profile, p);
}

#[test]
fn normalize_trims_and_fills_defaults() {
    let mut p = base();
    p.name = "  \t ".into();
    p.subscription_url = " https://sub \n".into();
    p.uri = "\u{3000}olcrtc://x\u{a0}".into();
    p.mode = " TUN ".into();
    p.language = "Ru".into();
    p.socks_host = "   ".into();
    p.dns = "".into();
    p.olcrtc_path = " bin\\olcrtc.exe ".into();
    p.proxy_auto = false;
    p.socks_port = 0;
    let n = normalize_profile(p);
    assert_eq!(n.name, "Default");
    assert_eq!(n.subscription_url, "https://sub");
    assert_eq!(n.uri, "olcrtc://x");
    assert_eq!(n.mode, "tun");
    assert_eq!(n.language, "ru");
    assert_eq!(n.socks_host, "127.0.0.1");
    assert_eq!(n.socks_port, 8808);
    assert_eq!(n.dns, "1.1.1.1:53");
    assert_eq!(n.olcrtc_path, "bin\\olcrtc.exe");
}

#[test]
fn normalize_reduces_unknown_mode_and_language() {
    let mut p = base();
    p.mode = "socks".into();
    p.language = "de".into();
    p.proxy_auto = false;
    p.socks_port = 1080;
    let n = normalize_profile(p);
    assert_eq!(n.mode, "proxy");
    assert_eq!(n.language, "en");
    assert_eq!(n.socks_port, 1080);
}

#[test]
fn normalize_is_idempotent_on_example() {
    let mut p = base();
    p.name = " My server ".into();
    p.mode = "Tun".into();
    p.proxy_auto = false;
    let once = normalize_profile(p);
    let twice = normalize_profile(once.clone());
    assert_eq!(once, twice);
}

#[test]
fn validation_messages() {
    let mut p = base();
    p.proxy_auto = false;
    p.socks_port = 0;
    assert_eq!(validate_profile(&p), Err("SOCKS port must be between 1 and 65535".to_string()));
    assert_eq!(validate_saved_profile(&p), Err("SOCKS port must be between 1 and 65535".to_string()));
    p.socks_port = 9000;
    assert_eq!(
        validate_profile(&p),
        Err("Subscription URL or direct URI is required".to_string())
    );
    assert_eq!(validate_saved_profile(&p), Ok(()));
    p.subscription_url = "https://example/sub".into();
    assert_eq!(validate_profile(&p), Ok(()));
    p.uri = "olcrtc://c?t@r#k".into();
    assert_eq!(validate_profile(&p), Err("URI shared key is required".to_string()));
    assert_eq!(validate_saved_profile(&p), Err("URI shared key is required".to_string()));
    p.uri = "olcrtc://c?t@r#k%c".into();
    assert_eq!(validate_profile(&p), Ok(()));
}

#[test]
fn migration_resets_welcome_for_new_version() {
    let mut c = ClientConfig::initial("1.0.0");
    c.profile.welcome_dismissed = true;
    assert!(!apply_app_version_migration(&mut c, "1.0.0"));
    assert!(c.profile.welcome_dismissed);
    assert!(apply_app_version_migration(&mut c, "1.1.0"));
    assert!(!c.profile.welcome_dismissed);
    assert_eq!(c.profile.last_seen_version, "1.1.0");
}

#[test]
fn socks_address_and_steps() {
    let mut p = base();
    p.socks_port = 8808;
    assert_eq!(socks_address(&p), "127.0.0.1:8808");
    p.socks_port = 0;
    assert_eq!(socks_address(&p), "127.0.0.1:0");
    assert_eq!(
        planned_steps("tun"),
        vec![
            "Start olcrtc SOCKS runtime".to_string(),
            "Start sing-box TUN bridge".to_string(),
            "Route system traffic through TUN".to_string(),
        ]
    );
    assert_eq!(
        planned_steps("proxy"),
        vec![
            "Start olcrtc SOCKS runtime".to_string(),
            "Start local HTTP system proxy".to_string(),
            "Use Windows system proxy".to_string(),
        ]
    );
}

use librertc_client::profile::ClientProfile;
use librertc_client::runtime::{
    check_external_url, olcrtc_args, resolve_runtime_target, stats_payload, subscription_target,
    update_info, version_newer, TargetPlan,
};
use librertc_client::uri::parse_runtime_uri;

#[test]
fn runtime_command_line() {
    let mut p = ClientProfile::initial("1.0.0");
    p.socks_port = 1080;
    let t = parse_runtime_uri("olcrtc://wb?vp8<b=2&a=1>@room#key%client").unwrap();
    let args = olcrtc_args(&p, &t, "C:\\data");
    let expected: Vec<String> = [
        "-mode", "cnc", "-carrier", "wb", "-transport", "vp8", "-id", "room", "-client-id",
        "client", "-key", "key", "-link", "direct", "-data", "C:\\data", "-dns", "1.1.1.1:53",
        "-socks-host", "127.0.0.1", "-socks-port", "1080", "-stats-interval", "1000", "-a", "1",
        "-b", "2",
    ]
    .iter()
    .map(|s| s.to_string())
    .collect();
    assert_eq!(args, expected);
}

#[test]
fn version_comparison() {
    assert!(version_newer("1.2.0", "1.1.9"));
    assert!(!version_newer("1.1.9", "1.2.0"));
    assert!(!version_newer("1.2.0", "1.2.0"));
    assert!(version_newer("2", "1.9.9"));
    assert!(!version_newer("1.2", "1.2.0"));
    assert!(version_newer("1.2.1-beta", "1.2.0"));
    assert!(!version_newer("1.2.0-rc.5", "1.2.0"));
    assert!(!version_newer("x.y.z", "0.0.0"));
    assert!(version_newer("0.0.1", "x"));
}

#[test]
fn update_info_strips_leading_v() {
    let u = update_info("vv1.3.0", "1.2.0");
    assert!(u.available);
    assert_eq!(u.latest_version, "1.3.0");
    assert_eq!(u.current_version, "1.2.0");
    assert_eq!(u.releases_url, "https://github.com/svllvsxprod/librertc-client/releases");
    assert!(!update_info("v1.2.0", "1.2.0").available);
}

#[test]
fn external_url_allow_list() {
    assert_eq!(check_external_url("https://t.me/svllvsxprod"), Ok(()));
    assert_eq!(check_external_url("https://t.me/openlibrecommunity"), Ok(()));
    assert_eq!(check_external_url("https://t.me/tribute/app?startapp=dK9j"), Ok(()));
    assert_eq!(check_external_url("https://nowpayments.io/donation/svllvsx"), Ok(()));
    assert_eq!(
        check_external_url("https://github.com/svllvsxprod/librertc-client/releases"),
        Ok(())
    );
    assert_eq!(
        check_external_url("https://t.me/svllvsxprod/"),
        Err("external URL is not allowed".to_string())
    );
    assert_eq!(check_external_url("file:///etc/passwd"), Err("external URL is not allowed".to_string()));
}

#[test]
fn stats_lines() {
    assert_eq!(
        stats_payload("OLCRTC_STATS {\"download_bps\":1}"),
        Some("{\"download_bps\":1}".to_string())
    );
    assert_eq!(stats_payload("OLCRTC_STATS"), None);
    assert_eq!(stats_payload("connected"), None);
}

#[test]
fn target_resolution() {
    let mut p = ClientProfile::initial("1.0.0");
    assert_eq!(
        resolve_runtime_target(&p).err(),
        Some("Subscription URL or direct URI is required".to_string())
    );
    p.subscription_url = " https://sub ".into();
    match resolve_runtime_target(&p).unwrap() {
        TargetPlan::Fetch(url) => assert_eq!(url, " https://sub "),
        other => panic!("unexpected {other:?}"),
    }
    p.uri = "olcrtc://c?t@r#k%c".into();
    match resolve_runtime_target(&p).unwrap() {
        TargetPlan::Ready(t) => assert_eq!(t.carrier, "c"),
        other => panic!("unexpected {other:?}"),
    }
    p.uri = "olcrtc://c".into();
    assert_eq!(resolve_runtime_target(&p).err(), Some("URI carrier is required".to_string()));
}

#[test]
fn subscription_uses_first_link() {
    let t = subscription_target("# header\n\n olcrtc://a?t@r#k%c \nolcrtc://b?t@r#k%c").unwrap();
    assert_eq!(t.carrier, "a");
    assert_eq!(
        subscription_target("# only comments\n").err(),
        Some("Subscription does not contain an olcrtc URI".to_string())
    );
    assert_eq!(subscription_target("junk\nolcrtc://b?t@r#k%c").err(), Some("URI must start with olcrtc://".to_string()));
}

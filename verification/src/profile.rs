//! The client profile, the saved server list and the rules that clean and
//! check a profile before it is saved or used.
use vstd::prelude::*;
use vstd::string::*;

use crate::text::{decimal, decimal_string, join2, lowercase, text_eq, to_lowercase, trim, trim_string};
use crate::uri::{parse_runtime_uri, parse_uri};

verus! {

/// The settings of the client.
#[derive(Debug, Clone, PartialEq, Eq)]
pub struct ClientProfile {
    pub name: String,
    pub subscription_url: String,
    pub uri: String,
    pub mode: String,
    pub language: String,
    pub proxy_auto: bool,
    pub socks_host: String,
    pub socks_port: u16,
    pub dns: String,
    pub olcrtc_path: String,
    pub welcome_dismissed: bool,
    pub last_seen_version: String,
}

/// A client profile as plain values.
pub struct ProfileView {
    pub name: Seq<char>,
    pub subscription_url: Seq<char>,
    pub uri: Seq<char>,
    pub mode: Seq<char>,
    pub language: Seq<char>,
    pub proxy_auto: bool,
    pub socks_host: Seq<char>,
    pub socks_port: u16,
    pub dns: Seq<char>,
    pub olcrtc_path: Seq<char>,
    pub welcome_dismissed: bool,
    pub last_seen_version: Seq<char>,
}

impl View for ClientProfile {
    type V = ProfileView;

    open spec fn view(&self) -> ProfileView {
        ProfileView {
            name: self.name@,
            subscription_url: self.subscription_url@,
            uri: self.uri@,
            mode: self.mode@,
            language: self.language@,
            proxy_auto: self.proxy_auto,
            socks_host: self.socks_host@,
            socks_port: self.socks_port,
            dns: self.dns@,
            olcrtc_path: self.olcrtc_path@,
            welcome_dismissed: self.welcome_dismissed,
            last_seen_version: self.last_seen_version@,
        }
    }
}

/// One imported server link.
#[derive(Debug, Clone, PartialEq, Eq)]
pub struct ServerProfile {
    pub id: String,
    pub name: String,
    pub uri: String,
    pub carrier: String,
    pub transport: String,
}

/// A server profile as plain values.
pub struct ServerView {
    pub id: Seq<char>,
    pub name: Seq<char>,
    pub uri: Seq<char>,
    pub carrier: Seq<char>,
    pub transport: Seq<char>,
}

impl View for ServerProfile {
    type V = ServerView;

    open spec fn view(&self) -> ServerView {
        ServerView {
            id: self.id@,
            name: self.name@,
            uri: self.uri@,
            carrier: self.carrier@,
            transport: self.transport@,
        }
    }
}

impl ServerProfile {
    /// A copy with the same field values.
    pub fn duplicate(&self) -> (r: ServerProfile)
        ensures
            r@ == self@,
    {
        ServerProfile {
            id: self.id.clone(),
            name: self.name.clone(),
            uri: self.uri.clone(),
            carrier: self.carrier.clone(),
            transport: self.transport.clone(),
        }
    }
}

/// The saved state: the profile and the imported servers.
#[derive(Debug, Clone, PartialEq, Eq)]
pub struct ClientConfig {
    pub profile: ClientProfile,
    pub servers: Vec<ServerProfile>,
}

/// The views of a list of servers.
pub open spec fn server_views(s: Seq<ServerProfile>) -> Seq<ServerView> {
    s.map_values(|x: ServerProfile| x@)
}

/// A copy of a server list.
pub fn copy_servers(servers: &Vec<ServerProfile>) -> (r: Vec<ServerProfile>)
    ensures
        server_views(r@) == server_views(servers@),
{
    let mut r: Vec<ServerProfile> = Vec::new();
    let mut i: usize = 0;
    while i < servers.len()
        invariant
            i <= servers@.len(),
            server_views(r@) == server_views(servers@.take(i as int)),
        decreases servers.len() - i,
    {
        let ghost before = r@;
        let d = servers[i].duplicate();
        r.push(d);
        assert(servers@.take(i + 1) =~= servers@.take(i as int).push(servers@[i as int]));
        assert(server_views(r@) =~= server_views(before).push(d@));
        assert(server_views(servers@.take(i + 1)) =~= server_views(servers@.take(i as int)).push(
            servers@[i as int]@,
        ));
        i = i + 1;
    }
    assert(servers@.take(i as int) =~= servers@);
    r
}

/// The interface language a profile starts with.
pub fn default_language() -> (s: String)
    ensures
        s@ == "en"@,
{
    String::from_str("en")
}

/// Whether a new profile picks its SOCKS port itself.
pub fn default_proxy_auto() -> (b: bool)
    ensures
        b,
{
    true
}

impl ClientProfile {
    /// The profile a client starts with, stamped with the client version.
    pub fn initial(current_version: &str) -> (p: ClientProfile)
        ensures
            p@ == ClientProfile::initial_view(current_version@),
    {
        ClientProfile {
            name: String::from_str("Default"),
            subscription_url: String::new(),
            uri: String::new(),
            mode: String::from_str("proxy"),
            language: default_language(),
            proxy_auto: default_proxy_auto(),
            socks_host: String::from_str("127.0.0.1"),
            socks_port: 0,
            dns: String::from_str("1.1.1.1:53"),
            olcrtc_path: String::from_str("olcrtc.exe"),
            welcome_dismissed: false,
            last_seen_version: String::from_str(current_version),
        }
    }

    /// A copy with the same field values.
    pub fn duplicate(&self) -> (r: ClientProfile)
        ensures
            r@ == self@,
    {
        ClientProfile {
            name: self.name.clone(),
            subscription_url: self.subscription_url.clone(),
            uri: self.uri.clone(),
            mode: self.mode.clone(),
            language: self.language.clone(),
            proxy_auto: self.proxy_auto,
            socks_host: self.socks_host.clone(),
            socks_port: self.socks_port,
            dns: self.dns.clone(),
            olcrtc_path: self.olcrtc_path.clone(),
            welcome_dismissed: self.welcome_dismissed,
            last_seen_version: self.last_seen_version.clone(),
        }
    }
}

impl ClientConfig {
    /// The configuration a client starts with: the initial profile and no
    /// servers.
    pub fn initial(current_version: &str) -> (c: ClientConfig)
        ensures
            c.profile@ == ClientProfile::initial_view(current_version@),
            c.servers@.len() == 0,
    {
        ClientConfig { profile: ClientProfile::initial(current_version), servers: Vec::new() }
    }
}

impl ClientProfile {
    /// The view of `ClientProfile::initial`.
    pub open spec fn initial_view(version: Seq<char>) -> ProfileView {
        ProfileView {
            name: "Default"@,
            subscription_url: Seq::empty(),
            uri: Seq::empty(),
            mode: "proxy"@,
            language: "en"@,
            proxy_auto: true,
            socks_host: "127.0.0.1"@,
            socks_port: 0,
            dns: "1.1.1.1:53"@,
            olcrtc_path: "olcrtc.exe"@,
            welcome_dismissed: false,
            last_seen_version: version,
        }
    }
}

/// A trimmed text, or `fallback` when nothing is left of it.
pub open spec fn trimmed_or(s: Seq<char>, fallback: Seq<char>) -> Seq<char> {
    if trim(s).len() == 0 {
        fallback
    } else {
        trim(s)
    }
}

/// The connection mode a profile's mode text stands for: `tun` when its
/// trimmed lowercase form is `tun`, `proxy` otherwise.
pub open spec fn mode_of(s: Seq<char>) -> Seq<char> {
    if lowercase(trim(s)) == "tun"@ {
        "tun"@
    } else {
        "proxy"@
    }
}

/// The interface language a profile's language text stands for: `ru` when its
/// trimmed lowercase form is `ru`, `en` otherwise.
pub open spec fn language_of(s: Seq<char>) -> Seq<char> {
    if lowercase(trim(s)) == "ru"@ {
        "ru"@
    } else {
        "en"@
    }
}

/// The profile `normalize_profile` makes of `p`.
pub open spec fn normalized(p: ProfileView) -> ProfileView {
    ProfileView {
        name: trimmed_or(p.name, "Default"@),
        subscription_url: trim(p.subscription_url),
        uri: trim(p.uri),
        mode: mode_of(p.mode),
        language: language_of(p.language),
        proxy_auto: p.proxy_auto,
        socks_host: trimmed_or(p.socks_host, "127.0.0.1"@),
        socks_port: if !p.proxy_auto && p.socks_port == 0 {
            8808
        } else {
            p.socks_port
        },
        dns: trimmed_or(p.dns, "1.1.1.1:53"@),
        olcrtc_path: trimmed_or(p.olcrtc_path, "olcrtc.exe"@),
        welcome_dismissed: p.welcome_dismissed,
        last_seen_version: p.last_seen_version,
    }
}

fn trimmed_or_default(s: &String, fallback: &str) -> (r: String)
    ensures
        r@ == trimmed_or(s@, fallback@),
{
    let t = trim_string(s.as_str());
    if t.as_str().is_empty() {
        String::from_str(fallback)
    } else {
        t
    }
}

/// The lowercase form of the trimmed text, and whether it equals `word`.
fn lower_trim_is(s: &String, word: &str) -> (r: bool)
    ensures
        r == (lowercase(trim(s@)) == word@),
{
    let t = trim_string(s.as_str());
    let l = to_lowercase(t.as_str());
    text_eq(l.as_str(), word)
}

/// Cleans a profile: trims its texts, fills empty ones with their defaults,
/// reduces mode to `tun`/`proxy` and language to `ru`/`en`, and gives a fixed
/// SOCKS port of 0 the port 8808.
pub fn normalize_profile(profile: ClientProfile) -> (r: ClientProfile)
    ensures
        r@ == normalized(profile@),
{
    let name = trimmed_or_default(&profile.name, "Default");
    let subscription_url = trim_string(profile.subscription_url.as_str());
    let uri = trim_string(profile.uri.as_str());
    let mode = if lower_trim_is(&profile.mode, "tun") {
        String::from_str("tun")
    } else {
        String::from_str("proxy")
    };
    let language = if lower_trim_is(&profile.language, "ru") {
        String::from_str("ru")
    } else {
        default_language()
    };
    let socks_host = trimmed_or_default(&profile.socks_host, "127.0.0.1");
    let socks_port = if !profile.proxy_auto && profile.socks_port == 0 {
        8808
    } else {
        profile.socks_port
    };
    let dns = trimmed_or_default(&profile.dns, "1.1.1.1:53");
    let olcrtc_path = trimmed_or_default(&profile.olcrtc_path, "olcrtc.exe");
    ClientProfile {
        name,
        subscription_url,
        uri,
        mode,
        language,
        proxy_auto: profile.proxy_auto,
        socks_host,
        socks_port,
        dns,
        olcrtc_path,
        welcome_dismissed: profile.welcome_dismissed,
        last_seen_version: profile.last_seen_version,
    }
}

/// The message for a fixed SOCKS port of 0.
pub open spec fn port_error() -> Seq<char> {
    "SOCKS port must be between 1 and 65535"@
}

/// What `validate_saved_profile` answers: a fixed port must not be 0 and a
/// given link must parse.
pub open spec fn saved_profile_check(p: ProfileView) -> Result<(), Seq<char>> {
    if !p.proxy_auto && p.socks_port == 0 {
        Err(port_error())
    } else if p.uri.len() > 0 {
        match parse_uri(p.uri) {
            Ok(_) => Ok(()),
            Err(e) => Err(e),
        }
    } else {
        Ok(())
    }
}

/// What `validate_profile` answers: as `saved_profile_check`, and besides a
/// profile must have a link or a subscription to connect with.
pub open spec fn profile_check(p: ProfileView) -> Result<(), Seq<char>> {
    if !p.proxy_auto && p.socks_port == 0 {
        Err(port_error())
    } else if p.subscription_url.len() == 0 && p.uri.len() == 0 {
        Err("Subscription URL or direct URI is required"@)
    } else {
        saved_profile_check(p)
    }
}

fn check_uri(uri: &String) -> (r: Result<(), String>)
    requires
        uri@.len() > 0,
    ensures
        match parse_uri(uri@) {
            Ok(_) => r is Ok,
            Err(e) => r matches Err(x) && x@ == e,
        },
{
    match parse_runtime_uri(uri.as_str()) {
        Ok(_) => Ok(()),
        Err(e) => Err(e),
    }
}

/// Checks a profile before connecting with it.
pub fn validate_profile(profile: &ClientProfile) -> (r: Result<(), String>)
    ensures
        match profile_check(profile@) {
            Ok(_) => r is Ok,
            Err(e) => r matches Err(x) && x@ == e,
        },
{
    if !profile.proxy_auto && profile.socks_port == 0 {
        return Err(String::from_str("SOCKS port must be between 1 and 65535"));
    }
    if profile.subscription_url.as_str().is_empty() && profile.uri.as_str().is_empty() {
        return Err(String::from_str("Subscription URL or direct URI is required"));
    }
    if !profile.uri.as_str().is_empty() {
        check_uri(&profile.uri)?;
    }
    Ok(())
}

/// Checks a profile before saving it.
pub fn validate_saved_profile(profile: &ClientProfile) -> (r: Result<(), String>)
    ensures
        match saved_profile_check(profile@) {
            Ok(_) => r is Ok,
            Err(e) => r matches Err(x) && x@ == e,
        },
{
    if !profile.proxy_auto && profile.socks_port == 0 {
        return Err(String::from_str("SOCKS port must be between 1 and 65535"));
    }
    if !profile.uri.as_str().is_empty() {
        check_uri(&profile.uri)?;
    }
    Ok(())
}

/// The profile as seen by `version`: when another version saw it last, the
/// welcome screen comes back and the version is recorded.
pub open spec fn migrated(p: ProfileView, version: Seq<char>) -> ProfileView {
    if p.last_seen_version == version {
        p
    } else {
        ProfileView { welcome_dismissed: false, last_seen_version: version, ..p }
    }
}

/// Marks the configuration as seen by `current_version`. When it was last
/// seen by another version, the welcome screen is shown again and the answer
/// is `true`: the configuration must be written back.
pub fn apply_app_version_migration(config: &mut ClientConfig, current_version: &str) -> (changed: bool)
    ensures
        changed == (old(config).profile@.last_seen_version != current_version@),
        final(config).profile@ == migrated(old(config).profile@, current_version@),
        server_views(final(config).servers@) == server_views(old(config).servers@),
{
    if text_eq(config.profile.last_seen_version.as_str(), current_version) {
        return false;
    }
    config.profile.welcome_dismissed = false;
    config.profile.last_seen_version = String::from_str(current_version);
    true
}

/// `host:port` of the local SOCKS endpoint.
pub open spec fn socks_text(p: ProfileView) -> Seq<char> {
    p.socks_host + ":"@ + decimal(p.socks_port as nat)
}

/// The local SOCKS endpoint of a profile, as `host:port`.
pub fn socks_address(profile: &ClientProfile) -> (s: String)
    ensures
        s@ == socks_text(profile@),
{
    let head = join2(profile.socks_host.as_str(), ":");
    let port = decimal_string(profile.socks_port as u64);
    head.concat(port.as_str())
}

/// The steps that connecting in `mode` goes through.
pub open spec fn steps_for(mode: Seq<char>) -> Seq<Seq<char>> {
    if mode == "tun"@ {
        seq![
            "Start olcrtc SOCKS runtime"@,
            "Start sing-box TUN bridge"@,
            "Route system traffic through TUN"@,
        ]
    } else {
        seq![
            "Start olcrtc SOCKS runtime"@,
            "Start local HTTP system proxy"@,
            "Use Windows system proxy"@,
        ]
    }
}

/// The views of a list of strings.
pub open spec fn string_views(v: Seq<String>) -> Seq<Seq<char>> {
    v.map_values(|s: String| s@)
}

/// The steps that connecting in `mode` goes through, for display.
pub fn planned_steps(mode: &str) -> (r: Vec<String>)
    ensures
        string_views(r@) == steps_for(mode@),
{
    let mut r: Vec<String> = Vec::new();
    if text_eq(mode, "tun") {
        r.push(String::from_str("Start olcrtc SOCKS runtime"));
        r.push(String::from_str("Start sing-box TUN bridge"));
        r.push(String::from_str("Route system traffic through TUN"));
    } else {
        r.push(String::from_str("Start olcrtc SOCKS runtime"));
        r.push(String::from_str("Start local HTTP system proxy"));
        r.push(String::from_str("Use Windows system proxy"));
    }
    assert(string_views(r@) =~= steps_for(mode@));
    r
}

} // verus!

//! The client's state and the changes that its commands make to it.
//!
//! A command that also writes the configuration to disk runs in two steps:
//! the first changes the state (and can be refused), the caller writes the
//! configuration, and the second records the change in the log.
use vstd::prelude::*;
use vstd::string::*;

use crate::profile::{
    apply_app_version_migration, copy_servers, migrated, normalize_profile, normalized,
    planned_steps, saved_profile_check, server_views, socks_address, socks_text, steps_for,
    string_views, validate_profile, validate_saved_profile, profile_check, ClientConfig,
    ClientProfile, ProfileView, ServerProfile, ServerView,
};
use crate::servers::{
    has_uri, link_lines, merge_all, merge_servers, servers_from_text, servers_of_lines, sort_by_name,
    sort_servers_by_name,
};
use crate::status::{logged, logged_three, same_but_logs, unix_seconds, ClientStatus};
use crate::text::{chars_eq, chars_of, decimal, decimal_string, join2, text_eq};
use crate::uri::{PublicTarget, RuntimeTarget};

verus! {

/// The system proxy settings as they were before the client changed them
/// (`None`: the value was not set).
#[derive(Debug, Clone, PartialEq, Eq)]
pub struct SystemProxyBackup {
    pub proxy_enable: Option<String>,
    pub proxy_server: Option<String>,
    pub proxy_override: Option<String>,
}

/// The state of the client. `H` is the handle of the local HTTP proxy that
/// runs while connected in proxy mode.
#[derive(Debug, Clone, PartialEq, Eq)]
pub struct ClientStore<H> {
    pub profile: ClientProfile,
    pub servers: Vec<ServerProfile>,
    pub status: ClientStatus,
    pub runtime_pid: Option<u32>,
    pub tun_active: bool,
    pub system_proxy_backup: Option<SystemProxyBackup>,
    pub http_proxy: Option<H>,
}

/// What connecting starts from.
#[derive(Debug, Clone, PartialEq, Eq)]
pub enum ConnectStart {
    /// A runtime is already running: the status stays as it is.
    Running,
    /// Connect with this (normalized, valid) profile.
    Proceed(ClientProfile),
}

/// What the caller must undo after the runtime has exited or on disconnect.
#[derive(Debug, Clone, PartialEq, Eq)]
pub struct TeardownWork<H> {
    pub pid: Option<u32>,
    pub stop_tun: bool,
    pub backup: Option<SystemProxyBackup>,
    pub http_proxy: Option<H>,
}

/// Whether two stores agree on everything but their status logs.
pub open spec fn same_but_log<H>(a: ClientStore<H>, b: ClientStore<H>) -> bool {
    &&& a.profile == b.profile
    &&& a.servers == b.servers
    &&& same_but_logs(a.status, b.status)
    &&& a.runtime_pid == b.runtime_pid
    &&& a.tun_active == b.tun_active
    &&& a.system_proxy_backup == b.system_proxy_backup
    &&& a.http_proxy == b.http_proxy
}

/// Whether `after` is `before` with one more log line `line`.
pub open spec fn one_log_line<H>(before: ClientStore<H>, after: ClientStore<H>, line: Seq<char>) -> bool {
    &&& same_but_log(after, before)
    &&& exists|t: u64|
        string_views(after.status.logs@) == logged(string_views(before.status.logs@), t, line)
}

/// Whether the runtime fields of two stores agree.
pub open spec fn same_runtime<H>(a: ClientStore<H>, b: ClientStore<H>) -> bool {
    &&& a.runtime_pid == b.runtime_pid
    &&& a.tun_active == b.tun_active
    &&& a.system_proxy_backup == b.system_proxy_backup
    &&& a.http_proxy == b.http_proxy
}

/// The profile after importing `servers`: a profile without a link takes the
/// first server's link and name.
pub open spec fn profile_after_import(p: ProfileView, servers: Seq<ServerView>) -> ProfileView {
    if p.uri.len() == 0 && servers.len() > 0 {
        ProfileView { uri: servers[0].uri, name: servers[0].name, ..p }
    } else {
        p
    }
}

/// The position of the first server with identifier `id`.
pub open spec fn server_with_id(s: Seq<ServerView>, id: Seq<char>) -> Option<int> {
    crate::servers::id_index(s, id)
}

/// The servers without those whose identifier is `id`.
pub open spec fn without_id(s: Seq<ServerView>, id: Seq<char>) -> Seq<ServerView> {
    s.filter(|x: ServerView| x.id != id)
}

/// The profile after deleting servers, leaving `rest`: a profile whose link
/// is no longer among them takes the first one's, or becomes the default
/// profile without a link when none is left.
pub open spec fn profile_after_delete(p: ProfileView, rest: Seq<ServerView>) -> ProfileView {
    if has_uri(rest, p.uri) {
        p
    } else if rest.len() > 0 {
        ProfileView { name: rest[0].name, uri: rest[0].uri, ..p }
    } else {
        ProfileView { name: "Default"@, uri: Seq::empty(), subscription_url: Seq::empty(), ..p }
    }
}

/// Whether a mode text is the TUN mode.
pub open spec fn is_tun_mode(m: Seq<char>) -> bool {
    m == "tun"@
}

/// The text of the log line that records a connection's system proxy.
pub open spec fn proxy_log_line(tun: bool, http_address: Seq<char>, socks: Seq<char>) -> Seq<char> {
    if tun {
        "System proxy left unchanged; TUN routes system traffic directly"@
    } else {
        "System proxy enabled: http="@ + http_address + " -> socks="@ + socks
    }
}

/// The text of the log line that records the selected mode.
pub open spec fn mode_log_line(tun: bool) -> Seq<char> {
    if tun {
        "TUN mode selected: LibreRTC Net Service started embedded sing-box TUN"@
    } else {
        "Proxy mode selected"@
    }
}

/// A step of starting a connection once the runtime process runs.
#[derive(Debug, Clone, Copy, PartialEq, Eq)]
pub enum ConnectStep {
    /// Wait until the runtime's SOCKS endpoint accepts connections.
    WaitForSocks,
    /// Start the TUN engine of the net service.
    StartTun,
    /// Start the local HTTP proxy in front of the SOCKS endpoint.
    StartHttpProxy,
    /// Point the system proxy at the local HTTP proxy.
    EnableSystemProxy,
}

/// A step that undoes a started one, or stops the runtime.
#[derive(Debug, Clone, Copy, PartialEq, Eq)]
pub enum UndoStep {
    StopTun,
    StopHttpProxy,
    RestoreSystemProxy,
    KillRuntime,
}

/// The steps of starting a connection: in TUN mode the TUN engine, else the
/// HTTP proxy and the system proxy; first of all the wait for the runtime.
pub open spec fn connect_steps_for(tun: bool) -> Seq<ConnectStep> {
    if tun {
        seq![ConnectStep::WaitForSocks, ConnectStep::StartTun]
    } else {
        seq![ConnectStep::WaitForSocks, ConnectStep::StartHttpProxy, ConnectStep::EnableSystemProxy]
    }
}

/// What undoes a step that succeeded (`None`: nothing to undo).
pub open spec fn undo_of(step: ConnectStep) -> Option<UndoStep> {
    match step {
        ConnectStep::WaitForSocks => None,
        ConnectStep::StartTun => Some(UndoStep::StopTun),
        ConnectStep::StartHttpProxy => Some(UndoStep::StopHttpProxy),
        ConnectStep::EnableSystemProxy => Some(UndoStep::RestoreSystemProxy),
    }
}

/// The cleanup after a failed step, when the steps `done` had succeeded:
/// their undo steps, latest first, then stopping the runtime.
pub open spec fn cleanup_for(done: Seq<ConnectStep>) -> Seq<UndoStep>
    decreases done.len(),
{
    if done.len() == 0 {
        seq![UndoStep::KillRuntime]
    } else {
        match undo_of(done.last()) {
            Some(u) => seq![u] + cleanup_for(done.drop_last()),
            None => cleanup_for(done.drop_last()),
        }
    }
}

/// The steps of starting a connection with the runtime profile `runtime`.
pub fn connect_steps(runtime: &ClientProfile) -> (r: Vec<ConnectStep>)
    ensures
        r@ == connect_steps_for(is_tun_mode(runtime.mode@)),
{
    if text_eq(runtime.mode.as_str(), "tun") {
        let r = vec![ConnectStep::WaitForSocks, ConnectStep::StartTun];
        assert(r@ =~= connect_steps_for(true));
        r
    } else {
        let r = vec![ConnectStep::WaitForSocks, ConnectStep::StartHttpProxy, ConnectStep::EnableSystemProxy];
        assert(r@ =~= connect_steps_for(false));
        r
    }
}

/// The cleanup after a failed step, when the steps `done` had succeeded.
pub fn cleanup_steps(done: &[ConnectStep]) -> (r: Vec<UndoStep>)
    ensures
        r@ == cleanup_for(done@),
{
    let mut acc: Vec<UndoStep> = Vec::new();
    let mut i: usize = done.len();
    assert(done@.take(i as int) =~= done@);
    assert(acc@ + cleanup_for(done@.take(i as int)) =~= cleanup_for(done@));
    while i > 0
        invariant
            i <= done@.len(),
            acc@ + cleanup_for(done@.take(i as int)) == cleanup_for(done@),
        decreases i,
    {
        let ghost before = acc@;
        let ghost d = done@.take(i as int);
        assert(d.drop_last() =~= done@.take(i - 1));
        assert(d.last() == done@[i - 1]);
        match done[i - 1] {
            ConnectStep::WaitForSocks => {},
            ConnectStep::StartTun => acc.push(UndoStep::StopTun),
            ConnectStep::StartHttpProxy => acc.push(UndoStep::StopHttpProxy),
            ConnectStep::EnableSystemProxy => acc.push(UndoStep::RestoreSystemProxy),
        }
        proof {
            match undo_of(d.last()) {
                Some(u) => {
                    assert(acc@ == before.push(u));
                    assert(before + cleanup_for(d) =~= acc@ + cleanup_for(done@.take(i - 1)));
                },
                None => {
                    assert(acc@ == before);
                },
            }
        }
        i = i - 1;
    }
    let ghost before = acc@;
    acc.push(UndoStep::KillRuntime);
    assert(done@.take(0) =~= Seq::<ConnectStep>::empty());
    assert(acc@ =~= before + seq![UndoStep::KillRuntime]);
    acc
}

impl<H> ClientStore<H> {
    /// The state at start-up, from the saved configuration (`None` when there
    /// is none), seen by `current_version`. The flag tells whether the
    /// configuration must be written back.
    pub fn new(loaded: Option<ClientConfig>, current_version: &str) -> (r: (ClientStore<H>, bool))
        ensures
            ({
                let (p, s) = match loaded {
                    Some(c) => (c.profile@, server_views(c.servers@)),
                    None => (ClientProfile::initial_view(current_version@), Seq::empty()),
                };
                &&& r.0.profile@ == migrated(p, current_version@)
                &&& server_views(r.0.servers@) == s
                &&& r.1 == (p.last_seen_version != current_version@)
            }),
            r.0.status.state@ == "disconnected"@,
            r.0.status.mode@ == r.0.profile.mode@,
            r.0.status.socks@ == socks_text(r.0.profile@),
            r.0.status.download_bps == 0,
            r.0.status.upload_bps == 0,
            r.0.status.download_bytes == 0,
            r.0.status.upload_bytes == 0,
            r.0.status.started_at@.len() == 0,
            r.0.status.notice@.len() == 0,
            string_views(r.0.status.steps@) == steps_for(r.0.profile.mode@),
            string_views(r.0.status.logs@) == seq!["Client ready"@],
            r.0.status.target is None,
            r.0.runtime_pid is None,
            !r.0.tun_active,
            r.0.system_proxy_backup is None,
            r.0.http_proxy is None,
    {
        let mut config = match loaded {
            Some(c) => c,
            None => {
                let c = ClientConfig::initial(current_version);
                assert(server_views(c.servers@) =~= Seq::<ServerView>::empty());
                c
            },
        };
        let persist = apply_app_version_migration(&mut config, current_version);
        let status = ClientStatus::ready(&config.profile);
        let store = ClientStore {
            profile: config.profile,
            servers: config.servers,
            status,
            runtime_pid: None,
            tun_active: false,
            system_proxy_backup: None,
            http_proxy: None,
        };
        (store, persist)
    }

    /// Appends a time-stamped line to the status log (which keeps the newest
    /// lines only).
    pub fn append_log(&mut self, line: &str)
        ensures
            one_log_line(*old(self), *final(self), line@),
    {
        self.status.push_log(line);
    }

    /// The configuration to write to disk.
    pub fn config(&self) -> (c: ClientConfig)
        ensures
            c.profile@ == self.profile@,
            server_views(c.servers@) == server_views(self.servers@),
    {
        ClientConfig { profile: self.profile.duplicate(), servers: copy_servers(&self.servers) }
    }

    /// A copy of the server list.
    pub fn server_list(&self) -> (r: Vec<ServerProfile>)
        ensures
            server_views(r@) == server_views(self.servers@),
    {
        copy_servers(&self.servers)
    }

    /// Points the status at the profile's mode and SOCKS endpoint.
    fn sync_status_with_profile(&mut self)
        ensures
            final(self).profile == old(self).profile,
            final(self).servers == old(self).servers,
            same_runtime(*final(self), *old(self)),
            final(self).status.mode@ == old(self).profile.mode@,
            final(self).status.socks@ == socks_text(old(self).profile@),
            string_views(final(self).status.steps@) == steps_for(old(self).profile.mode@),
            final(self).status.state == old(self).status.state,
            final(self).status.notice == old(self).status.notice,
            final(self).status.started_at == old(self).status.started_at,
            final(self).status.logs == old(self).status.logs,
            final(self).status.target == old(self).status.target,
    {
        self.status.mode = self.profile.mode.clone();
        self.status.socks = socks_address(&self.profile);
        self.status.steps = planned_steps(self.profile.mode.as_str());
    }

    /// Takes a saved profile (see `prepare_profile`) into use, after the
    /// configuration with it was written.
    pub fn apply_saved_profile(&mut self, profile: ClientProfile) -> (r: ClientProfile)
        ensures
            r@ == profile@,
            final(self).profile@ == profile@,
            final(self).servers == old(self).servers,
            same_runtime(*final(self), *old(self)),
            final(self).status.mode@ == profile.mode@,
            final(self).status.socks@ == socks_text(profile@),
            string_views(final(self).status.steps@) == steps_for(profile.mode@),
            final(self).status.notice@.len() == 0,
            final(self).status.state == old(self).status.state,
            exists|t: u64|
                string_views(final(self).status.logs@) == logged(
                    string_views(old(self).status.logs@),
                    t,
                    "Profile saved: "@ + profile.name@,
                ),
    {
        let r = profile.duplicate();
        self.profile = profile;
        self.sync_status_with_profile();
        self.status.notice = String::new();
        let line = join2("Profile saved: ", self.profile.name.as_str());
        self.append_log(line.as_str());
        r
    }

    /// Marks the welcome screen as dismissed.
    pub fn dismiss_welcome(&mut self)
        ensures
            final(self).profile@ == (ProfileView { welcome_dismissed: true, ..old(self).profile@ }),
            final(self).servers == old(self).servers,
            final(self).status == old(self).status,
            same_runtime(*final(self), *old(self)),
    {
        self.profile.welcome_dismissed = true;
    }

    /// Records the dismissal of the welcome screen and returns the profile.
    pub fn finish_dismiss_welcome(&mut self) -> (r: ClientProfile)
        ensures
            one_log_line(*old(self), *final(self), "Welcome screen dismissed"@),
            r@ == old(self).profile@,
    {
        self.append_log("Welcome screen dismissed");
        self.profile.duplicate()
    }

    /// Imports the links of `raw` (one per line; blank lines and `#` comments
    /// are skipped): each replaces the server of the same identifier or is
    /// added, the list is sorted by name, and a profile without a link takes
    /// the first server. Fails, changing nothing, on the first link that does
    /// not parse or when there is no link.
    pub fn import_servers(&mut self, raw: &str) -> (r: Result<(), String>)
        ensures
            match servers_of_lines(link_lines(raw@)) {
                Err(e) => r matches Err(x) && x@ == e && *final(self) == *old(self),
                Ok(list) => if list.len() == 0 {
                    r matches Err(x) && x@ == "No olcrtc links found"@ && *final(self) == *old(self)
                } else {
                    &&& r is Ok
                    &&& server_views(final(self).servers@) == sort_by_name(
                        merge_all(server_views(old(self).servers@), list),
                    )
                    &&& final(self).profile@ == profile_after_import(
                        old(self).profile@,
                        server_views(final(self).servers@),
                    )
                    &&& final(self).status == old(self).status
                    &&& same_runtime(*final(self), *old(self))
                },
            },
    {
        let imported = servers_from_text(raw)?;
        if imported.len() == 0 {
            return Err(String::from_str("No olcrtc links found"));
        }
        merge_servers(&mut self.servers, &imported);
        self.servers = sort_servers_by_name(&self.servers);
        if self.profile.uri.as_str().is_empty() && self.servers.len() > 0 {
            assert(server_views(self.servers@)[0] == self.servers@[0]@);
            self.profile.uri = self.servers[0].uri.clone();
            self.profile.name = self.servers[0].name.clone();
        }
        Ok(())
    }

    /// Records an import and returns the server list.
    pub fn finish_import(&mut self) -> (r: Vec<ServerProfile>)
        ensures
            one_log_line(*old(self), *final(self), "Profiles imported"@),
            server_views(r@) == server_views(old(self).servers@),
    {
        self.append_log("Profiles imported");
        copy_servers(&self.servers)
    }

    /// Makes the server with identifier `id` the profile's link; fails when
    /// there is no such server, changing nothing.
    pub fn select_server(&mut self, id: &str) -> (r: Result<(), String>)
        ensures
            match server_with_id(server_views(old(self).servers@), id@) {
                None => r matches Err(x) && x@ == "Server profile not found"@ && *final(self)
                    == *old(self),
                Some(i) => {
                    &&& r is Ok
                    &&& final(self).profile@ == (ProfileView {
                        name: old(self).servers@[i].name@,
                        uri: old(self).servers@[i].uri@,
                        subscription_url: Seq::empty(),
                        ..old(self).profile@
                    })
                    &&& final(self).servers == old(self).servers
                    &&& final(self).status == old(self).status
                    &&& same_runtime(*final(self), *old(self))
                },
            },
    {
        let key = String::from_str(id);
        match crate::servers::find_server(&self.servers, &key) {
            None => Err(String::from_str("Server profile not found")),
            Some(i) => {
                self.profile.name = self.servers[i].name.clone();
                self.profile.uri = self.servers[i].uri.clone();
                self.profile.subscription_url = String::new();
                Ok(())
            },
        }
    }

    /// Records a selection (the status follows the profile) and returns the
    /// profile.
    pub fn finish_selection(&mut self) -> (r: ClientProfile)
        ensures
            r@ == old(self).profile@,
            final(self).profile == old(self).profile,
            final(self).servers == old(self).servers,
            same_runtime(*final(self), *old(self)),
            final(self).status.mode@ == old(self).profile.mode@,
            final(self).status.socks@ == socks_text(old(self).profile@),
            string_views(final(self).status.steps@) == steps_for(old(self).profile.mode@),
            final(self).status.state == old(self).status.state,
            final(self).status.notice == old(self).status.notice,
            exists|t: u64|
                string_views(final(self).status.logs@) == logged(
                    string_views(old(self).status.logs@),
                    t,
                    "Selected profile: "@ + old(self).profile.name@,
                ),
    {
        self.sync_status_with_profile();
        let line = join2("Selected profile: ", self.profile.name.as_str());
        self.append_log(line.as_str());
        self.profile.duplicate()
    }

    /// Removes the servers with identifier `id`; fails when there is none,
    /// changing nothing. A profile whose link went away takes the first
    /// remaining server, or becomes the default profile without a link.
    pub fn delete_server(&mut self, id: &str) -> (r: Result<(), String>)
        ensures
            ({
                let rest = without_id(server_views(old(self).servers@), id@);
                if rest.len() == old(self).servers@.len() {
                    r matches Err(x) && x@ == "Server profile not found"@ && *final(self)
                        == *old(self)
                } else {
                    &&& r is Ok
                    &&& server_views(final(self).servers@) == rest
                    &&& final(self).profile@ == profile_after_delete(old(self).profile@, rest)
                    &&& final(self).status == old(self).status
                    &&& same_runtime(*final(self), *old(self))
                }
            }),
    {
        let kept = crate::servers::servers_without_id(&self.servers, id);
        proof {
            server_views(self.servers@).lemma_filter_len(|x: ServerView| x.id != id@);
        }
        if kept.len() == self.servers.len() {
            return Err(String::from_str("Server profile not found"));
        }
        self.servers = kept;
        let uri = chars_of(self.profile.uri.as_str());
        if !crate::servers::contains_uri(&self.servers, &uri) {
            if self.servers.len() > 0 {
                assert(server_views(self.servers@)[0] == self.servers@[0]@);
                self.profile.name = self.servers[0].name.clone();
                self.profile.uri = self.servers[0].uri.clone();
            } else {
                self.profile.name = String::from_str("Default");
                self.profile.uri = String::new();
                self.profile.subscription_url = String::new();
            }
        }
        Ok(())
    }

    /// Records a deletion and returns the server list.
    pub fn finish_deletion(&mut self) -> (r: Vec<ServerProfile>)
        ensures
            one_log_line(*old(self), *final(self), "Profile deleted"@),
            server_views(r@) == server_views(old(self).servers@),
    {
        self.append_log("Profile deleted");
        copy_servers(&self.servers)
    }

    /// The first step of connecting: nothing to do while a runtime runs;
    /// otherwise the normalized profile must be valid (else nothing changes),
    /// and the status turns to connecting.
    pub fn begin_connect(&mut self) -> (r: Result<ConnectStart, String>)
        ensures
            old(self).runtime_pid is Some ==> (r matches Ok(ConnectStart::Running) && *final(self)
                == *old(self)),
            old(self).runtime_pid is None ==> match profile_check(normalized(old(self).profile@)) {
                Err(e) => r matches Err(x) && x@ == e && *final(self) == *old(self),
                Ok(_) => {
                    &&& r matches Ok(ConnectStart::Proceed(p)) && p@ == normalized(
                        old(self).profile@,
                    )
                    &&& final(self).profile == old(self).profile
                    &&& final(self).servers == old(self).servers
                    &&& same_runtime(*final(self), *old(self))
                    &&& final(self).status.state@ == "connecting"@
                    &&& final(self).status.notice@.len() == 0
                    &&& exists|t: u64|
                        string_views(final(self).status.logs@) == logged(
                            string_views(old(self).status.logs@),
                            t,
                            "Resolving profile "@ + normalized(old(self).profile@).name,
                        )
                },
            },
    {
        if self.runtime_pid.is_some() {
            return Ok(ConnectStart::Running);
        }
        let profile = normalize_profile(self.profile.duplicate());
        validate_profile(&profile)?;
        self.status.state = String::from_str("connecting");
        self.status.notice = String::new();
        let line = join2("Resolving profile ", profile.name.as_str());
        let ghost logs0 = string_views(self.status.logs@);
        self.append_log(line.as_str());
        proof {
            let t = choose|t: u64| string_views(self.status.logs@) == logged(logs0, t, line@);
            assert(string_views(self.status.logs@) == logged(
                string_views(old(self).status.logs@),
                t,
                "Resolving profile "@ + normalized(old(self).profile@).name,
            ));
        }
        Ok(ConnectStart::Proceed(profile))
    }

    /// Records a started connection: the profile used, the runtime's process,
    /// what was started for it, and the connected status.
    pub fn commit_connection(
        &mut self,
        profile: ClientProfile,
        runtime: &ClientProfile,
        target: &RuntimeTarget,
        pid: u32,
        tun_active: bool,
        backup: Option<SystemProxyBackup>,
        http_proxy: Option<H>,
        http_address: &str,
    )
        requires
            tun_active == is_tun_mode(runtime.mode@),
            http_proxy is Some <==> !is_tun_mode(runtime.mode@),
            backup is Some <==> !is_tun_mode(runtime.mode@),
        ensures
            final(self).profile@ == profile@,
            final(self).servers == old(self).servers,
            final(self).runtime_pid == Some(pid),
            final(self).tun_active == tun_active,
            final(self).tun_active == is_tun_mode(runtime.mode@),
            final(self).http_proxy is Some <==> !is_tun_mode(runtime.mode@),
            final(self).system_proxy_backup is Some <==> !is_tun_mode(runtime.mode@),
            final(self).system_proxy_backup == backup,
            final(self).http_proxy == http_proxy,
            final(self).status.state@ == "connected"@,
            final(self).status.mode@ == runtime.mode@,
            final(self).status.socks@ == socks_text(runtime@),
            exists|t: u64| final(self).status.started_at@ == decimal(t as nat),
            final(self).status.target matches Some(p) && p.carrier@ == target.carrier@
                && p.transport@ == target.transport@ && p.name@ == target.name@,
            string_views(final(self).status.steps@) == steps_for(runtime.mode@),
            final(self).status.notice == old(self).status.notice,
            final(self).status.download_bps == old(self).status.download_bps,
            final(self).status.upload_bps == old(self).status.upload_bps,
            final(self).status.download_bytes == old(self).status.download_bytes,
            final(self).status.upload_bytes == old(self).status.upload_bytes,
            exists|t1: u64, t2: u64, t3: u64|
                string_views(final(self).status.logs@) == #[trigger] logged_three(
                    string_views(old(self).status.logs@),
                    t1,
                    proxy_log_line(is_tun_mode(runtime.mode@), http_address@, socks_text(runtime@)),
                    t2,
                    "Started "@ + target.carrier@ + "/"@ + target.transport@ + " at "@
                        + socks_text(runtime@),
                    t3,
                    mode_log_line(is_tun_mode(runtime.mode@)),
                ),
    {
        let tun_requested = text_eq(runtime.mode.as_str(), "tun");
        self.profile = profile;
        let socks = socks_address(runtime);
        let ghost logs0 = string_views(self.status.logs@);
        if tun_requested {
            self.append_log("System proxy left unchanged; TUN routes system traffic directly");
        } else {
            let line = join2("System proxy enabled: http=", http_address).concat(" -> socks=").concat(
                socks.as_str(),
            );
            self.append_log(line.as_str());
        }
        let ghost logs1 = string_views(self.status.logs@);
        self.runtime_pid = Some(pid);
        self.tun_active = tun_active;
        self.system_proxy_backup = backup;
        self.http_proxy = http_proxy;
        self.status.state = String::from_str("connected");
        self.status.mode = runtime.mode.clone();
        self.status.socks = socks_address(runtime);
        self.status.started_at = decimal_string(unix_seconds());
        self.status.target = Some(target.public());
        self.status.steps = planned_steps(runtime.mode.as_str());
        let started = join2("Started ", target.carrier.as_str()).concat("/").concat(
            target.transport.as_str(),
        ).concat(" at ").concat(socks.as_str());
        self.append_log(started.as_str());
        let ghost logs2 = string_views(self.status.logs@);
        if tun_requested {
            self.append_log("TUN mode selected: LibreRTC Net Service started embedded sing-box TUN");
        } else {
            self.append_log("Proxy mode selected");
        }
        proof {
            let t1 = choose|t: u64| logs1 == logged(logs0, t, proxy_log_line(is_tun_mode(runtime.mode@), http_address@, socks_text(runtime@)));
            let t2 = choose|t: u64| logs2 == logged(logs1, t, "Started "@ + target.carrier@ + "/"@ + target.transport@ + " at "@ + socks_text(runtime@));
            let t3 = choose|t: u64| string_views(self.status.logs@) == logged(logs2, t, mode_log_line(is_tun_mode(runtime.mode@)));
            assert(string_views(self.status.logs@) == logged_three(
                logs0,
                t1,
                proxy_log_line(is_tun_mode(runtime.mode@), http_address@, socks_text(runtime@)),
                t2,
                "Started "@ + target.carrier@ + "/"@ + target.transport@ + " at "@ + socks_text(
                    runtime@,
                ),
                t3,
                mode_log_line(is_tun_mode(runtime.mode@)),
            ));
        }
    }

    /// When the runtime with process `pid` has exited: if it is still the
    /// client's runtime, clears it and hands back what must be stopped and
    /// restored (`None`: another runtime has taken its place, nothing to do).
    pub fn take_exited_runtime(&mut self, pid: u32) -> (r: Option<TeardownWork<H>>)
        ensures
            old(self).runtime_pid != Some(pid) ==> r is None && *final(self) == *old(self),
            old(self).runtime_pid == Some(pid) ==> (r matches Some(w) && w.pid == Some(pid)
                && w.stop_tun == old(self).tun_active && w.backup
                == old(self).system_proxy_backup && w.http_proxy == old(self).http_proxy
                && final(self).runtime_pid is None && !final(self).tun_active
                && final(self).system_proxy_backup is None && final(self).http_proxy is None
                && final(self).profile == old(self).profile && final(self).servers
                == old(self).servers && final(self).status == old(self).status),
    {
        match self.runtime_pid {
            Some(p) => {
                if p != pid {
                    return None;
                }
            },
            None => {
                return None;
            },
        }
        let stop_tun = self.tun_active;
        self.runtime_pid = None;
        self.tun_active = false;
        let backup = self.system_proxy_backup.take();
        let http_proxy = self.http_proxy.take();
        Some(TeardownWork { pid: Some(pid), stop_tun, backup, http_proxy })
    }

    /// Marks the status disconnected after the runtime has exited.
    pub fn finish_exit(&mut self)
        ensures
            final(self).status.state@ == "disconnected"@,
            final(self).status.started_at@.len() == 0,
            final(self).status.download_bps == 0,
            final(self).status.upload_bps == 0,
            final(self).status.notice == old(self).status.notice,
            final(self).status.logs == old(self).status.logs,
            final(self).status.mode == old(self).status.mode,
            final(self).status.socks == old(self).status.socks,
            final(self).status.target == old(self).status.target,
            final(self).status.steps == old(self).status.steps,
            final(self).status.download_bytes == old(self).status.download_bytes,
            final(self).status.upload_bytes == old(self).status.upload_bytes,
            final(self).profile == old(self).profile,
            final(self).servers == old(self).servers,
            same_runtime(*final(self), *old(self)),
    {
        self.status.state = String::from_str("disconnected");
        self.status.started_at = String::new();
        self.status.download_bps = 0;
        self.status.upload_bps = 0;
    }

    /// The first step of disconnecting: logs the request, clears the runtime
    /// and hands back what must be stopped and restored; the status turns to
    /// disconnected.
    pub fn begin_disconnect(&mut self) -> (w: TeardownWork<H>)
        ensures
            w.pid == old(self).runtime_pid,
            w.stop_tun == old(self).tun_active,
            w.backup == old(self).system_proxy_backup,
            w.http_proxy == old(self).http_proxy,
            final(self).runtime_pid is None,
            !final(self).tun_active,
            final(self).system_proxy_backup is None,
            final(self).http_proxy is None,
            final(self).profile == old(self).profile,
            final(self).servers == old(self).servers,
            final(self).status.state@ == "disconnected"@,
            final(self).status.started_at@.len() == 0,
            final(self).status.notice@.len() == 0,
            final(self).status.download_bps == 0,
            final(self).status.upload_bps == 0,
            final(self).status.mode == old(self).status.mode,
            final(self).status.socks == old(self).status.socks,
            final(self).status.target == old(self).status.target,
            final(self).status.steps == old(self).status.steps,
            final(self).status.download_bytes == old(self).status.download_bytes,
            final(self).status.upload_bytes == old(self).status.upload_bytes,
            exists|t: u64|
                string_views(final(self).status.logs@) == logged(
                    string_views(old(self).status.logs@),
                    t,
                    "Disconnect requested"@,
                ),
    {
        self.append_log("Disconnect requested");
        let pid = self.runtime_pid.take();
        let stop_tun = self.tun_active;
        self.tun_active = false;
        let backup = self.system_proxy_backup.take();
        let http_proxy = self.http_proxy.take();
        self.status.state = String::from_str("disconnected");
        self.status.started_at = String::new();
        self.status.notice = String::new();
        self.status.download_bps = 0;
        self.status.upload_bps = 0;
        TeardownWork { pid, stop_tun, backup, http_proxy }
    }

    /// Takes the runtime's traffic counters into the status.
    pub fn apply_stats(&mut self, download_bps: u64, upload_bps: u64, download_bytes: u64, upload_bytes: u64)
        ensures
            final(self).status.download_bps == download_bps,
            final(self).status.upload_bps == upload_bps,
            final(self).status.download_bytes == download_bytes,
            final(self).status.upload_bytes == upload_bytes,
            final(self).status.state == old(self).status.state,
            final(self).status.mode == old(self).status.mode,
            final(self).status.socks == old(self).status.socks,
            final(self).status.started_at == old(self).status.started_at,
            final(self).status.notice == old(self).status.notice,
            final(self).status.target == old(self).status.target,
            final(self).status.steps == old(self).status.steps,
            final(self).status.logs == old(self).status.logs,
            final(self).profile == old(self).profile,
            final(self).servers == old(self).servers,
            same_runtime(*final(self), *old(self)),
    {
        self.status.download_bps = download_bps;
        self.status.upload_bps = upload_bps;
        self.status.download_bytes = download_bytes;
        self.status.upload_bytes = upload_bytes;
    }
}

/// The message for a poisoned lock on the client state.
pub fn lock_error<T>(_err: T) -> (msg: String)
    ensures
        msg@ == "internal state lock failed"@,
{
    String::from_str("internal state lock failed")
}

/// Cleans and checks a profile that the user saves.
pub fn prepare_profile(profile: ClientProfile) -> (r: Result<ClientProfile, String>)
    ensures
        match saved_profile_check(normalized(profile@)) {
            Ok(_) => r matches Ok(p) && p@ == normalized(profile@),
            Err(e) => r matches Err(x) && x@ == e,
        },
{
    let p = normalize_profile(profile);
    validate_saved_profile(&p)?;
    Ok(p)
}

} // verus!

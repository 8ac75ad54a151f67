//! Starting the runtime: choosing the target, the runtime's command line,
//! update checks, allowed external links and the runtime's statistics lines.
use vstd::prelude::*;
use vstd::string::*;

use crate::payload::Payload;
use crate::profile::{string_views, ClientProfile, ProfileView};
use crate::servers::{link_lines, link_lines_of};
use crate::text::{
    chars_of, decimal, decimal_string, join2, parse_uint, parse_uint_chars, starts_with_chars,
    has_prefix, string_of, string_of_range, strip_start, sub_chars, text_eq, trim, trim_chars,
    views,
};
use crate::uri::{parse_runtime_uri, parse_uri, RuntimeTarget, TargetView};

verus! {

// ---------------------------------------------------------------------------
// Choosing the target
// ---------------------------------------------------------------------------

/// Where the runtime target comes from.
#[derive(Debug, Clone, PartialEq, Eq)]
pub enum TargetPlan {
    /// The profile's own link.
    Ready(RuntimeTarget),
    /// The first link of the subscription at this URL (to be fetched).
    Fetch(String),
}

/// Chooses the runtime target of a profile: its link when it has one (which
/// must parse), else its subscription URL, which the caller fetches.
pub fn resolve_runtime_target(profile: &ClientProfile) -> (r: Result<TargetPlan, String>)
    ensures
        trim(profile.uri@).len() > 0 ==> match parse_uri(profile.uri@) {
            Ok(t) => r matches Ok(TargetPlan::Ready(x)) && x@ == t && x.payload.wf(),
            Err(e) => r matches Err(x) && x@ == e,
        },
        trim(profile.uri@).len() == 0 && trim(profile.subscription_url@).len() == 0 ==> (r matches Err(
            x,
        ) && x@ == "Subscription URL or direct URI is required"@),
        trim(profile.uri@).len() == 0 && trim(profile.subscription_url@).len() > 0 ==> (r matches Ok(
            TargetPlan::Fetch(u),
        ) && u@ == profile.subscription_url@),
{
    let uri = chars_of(profile.uri.as_str());
    if trim_chars(uri.as_slice()).len() > 0 {
        return match parse_runtime_uri(profile.uri.as_str()) {
            Ok(t) => Ok(TargetPlan::Ready(t)),
            Err(e) => Err(e),
        };
    }
    let sub = chars_of(profile.subscription_url.as_str());
    if trim_chars(sub.as_slice()).len() == 0 {
        return Err(String::from_str("Subscription URL or direct URI is required"));
    }
    Ok(TargetPlan::Fetch(profile.subscription_url.clone()))
}

/// The target of a fetched subscription: its first link line, which must
/// parse.
pub fn subscription_target(body: &str) -> (r: Result<RuntimeTarget, String>)
    ensures
        link_lines(body@).len() == 0 ==> (r matches Err(x) && x@
            == "Subscription does not contain an olcrtc URI"@),
        link_lines(body@).len() > 0 ==> match parse_uri(link_lines(body@)[0]) {
            Ok(t) => r matches Ok(x) && x@ == t && x.payload.wf(),
            Err(e) => r matches Err(x) && x@ == e,
        },
{
    let ls = link_lines_of(body);
    if ls.len() == 0 {
        return Err(String::from_str("Subscription does not contain an olcrtc URI"));
    }
    assert(views(ls@)[0] == ls@[0]@);
    let first = string_of(ls[0].as_slice());
    parse_runtime_uri(first.as_str())
}

// ---------------------------------------------------------------------------
// Finding runtime files
// ---------------------------------------------------------------------------

/// A directory in which a runtime file is looked for.
#[derive(Debug, Clone, Copy, PartialEq, Eq)]
pub enum FileBase {
    /// The directory of the client's executable.
    AppDir,
    /// The `resources` directory next to the client's executable.
    AppResources,
    /// The current directory.
    CurrentDir,
}

/// The places a runtime file is looked for, in order (after a configured
/// absolute path): the configured path and the file name next to the app,
/// the file name in its `resources` directory, the configured path in the
/// current directory.
pub open spec fn runtime_file_places(configured: Seq<char>, file_name: Seq<char>) -> Seq<
    (FileBase, Seq<char>),
> {
    seq![
        (FileBase::AppDir, configured),
        (FileBase::AppDir, file_name),
        (FileBase::AppResources, file_name),
        (FileBase::CurrentDir, configured),
    ]
}

/// The texts of a list of places.
pub open spec fn place_views(v: Seq<(FileBase, String)>) -> Seq<(FileBase, Seq<char>)> {
    v.map_values(|x: (FileBase, String)| (x.0, x.1@))
}

/// The places a runtime file is looked for, in order.
pub fn runtime_file_candidates(configured: &str, file_name: &str) -> (r: Vec<(FileBase, String)>)
    ensures
        place_views(r@) == runtime_file_places(configured@, file_name@),
{
    let mut r: Vec<(FileBase, String)> = Vec::new();
    r.push((FileBase::AppDir, String::from_str(configured)));
    r.push((FileBase::AppDir, String::from_str(file_name)));
    r.push((FileBase::AppResources, String::from_str(file_name)));
    r.push((FileBase::CurrentDir, String::from_str(configured)));
    assert(place_views(r@) =~= runtime_file_places(configured@, file_name@));
    r
}

/// The message when no place holds the runtime file `file_name`.
pub fn runtime_file_missing(file_name: &str) -> (r: String)
    ensures
        r@ == "LibreRTC runtime file is missing: expected "@ + file_name@
            + " next to the app or in resources"@,
{
    join2("LibreRTC runtime file is missing: expected ", file_name).concat(
        " next to the app or in resources",
    )
}

// ---------------------------------------------------------------------------
// The runtime's command line
// ---------------------------------------------------------------------------

/// `-key value` arguments for the payload entries, in order.
pub open spec fn payload_args(s: Seq<(Seq<char>, Seq<char>)>) -> Seq<Seq<char>>
    decreases s.len(),
{
    if s.len() == 0 {
        Seq::empty()
    } else {
        payload_args(s.drop_last()) + seq!["-"@ + s.last().0, s.last().1]
    }
}

/// The arguments that start the runtime for a profile and target, with
/// `data_dir` as its data directory.
pub open spec fn runtime_args(p: ProfileView, t: RuntimeTarget, data_dir: Seq<char>) -> Seq<Seq<char>> {
    seq![
        "-mode"@,
        "cnc"@,
        "-carrier"@,
        t.carrier@,
        "-transport"@,
        t.transport@,
        "-id"@,
        t.room_id@,
        "-client-id"@,
        t.client_id@,
        "-key"@,
        t.key@,
        "-link"@,
        "direct"@,
        "-data"@,
        data_dir,
        "-dns"@,
        p.dns,
        "-socks-host"@,
        p.socks_host,
        "-socks-port"@,
        decimal(p.socks_port as nat),
        "-stats-interval"@,
        "1000"@,
    ] + payload_args(t.payload@)
}

/// The runtime's command line (without the program).
pub fn olcrtc_args(profile: &ClientProfile, target: &RuntimeTarget, data_dir: &str) -> (r: Vec<String>)
    ensures
        string_views(r@) == runtime_args(profile@, *target, data_dir@),
{
    let mut args: Vec<String> = Vec::new();
    args.push(String::from_str("-mode"));
    args.push(String::from_str("cnc"));
    args.push(String::from_str("-carrier"));
    args.push(target.carrier.clone());
    args.push(String::from_str("-transport"));
    args.push(target.transport.clone());
    args.push(String::from_str("-id"));
    args.push(target.room_id.clone());
    args.push(String::from_str("-client-id"));
    args.push(target.client_id.clone());
    args.push(String::from_str("-key"));
    args.push(target.key.clone());
    args.push(String::from_str("-link"));
    args.push(String::from_str("direct"));
    args.push(String::from_str("-data"));
    args.push(String::from_str(data_dir));
    args.push(String::from_str("-dns"));
    args.push(profile.dns.clone());
    args.push(String::from_str("-socks-host"));
    args.push(profile.socks_host.clone());
    args.push(String::from_str("-socks-port"));
    args.push(decimal_string(profile.socks_port as u64));
    args.push(String::from_str("-stats-interval"));
    args.push(String::from_str("1000"));
    let ghost head = string_views(args@);
    assert(head =~= runtime_args(profile@, *target, data_dir@).take(24));
    let ghost entries = target.payload@;
    let n = target.payload.len();
    let mut i: usize = 0;
    assert(entries.take(0) =~= Seq::<(Seq<char>, Seq<char>)>::empty());
    assert(head + payload_args(entries.take(0)) =~= head);
    while i < n
        invariant
            i <= n == entries.len(),
            entries == target.payload@,
            string_views(args@) == head + payload_args(entries.take(i as int)),
        decreases n - i,
    {
        let (k, v) = target.payload.entry(i);
        let flag = join2("-", k.as_str());
        let ghost before = string_views(args@);
        args.push(flag);
        args.push(v.clone());
        assert(entries.take(i + 1).drop_last() =~= entries.take(i as int));
        assert(string_views(args@) =~= before + seq!["-"@ + entries[i as int].0, entries[i as int].1]);
        i = i + 1;
    }
    assert(entries.take(n as int) =~= entries);
    assert(string_views(args@) =~= runtime_args(profile@, *target, data_dir@));
    args
}

// ---------------------------------------------------------------------------
// Versions and updates
// ---------------------------------------------------------------------------

/// Whether a character separates version parts.
pub open spec fn is_version_separator(c: char) -> bool {
    c == '.' || c == '-'
}

/// Parts of a version text between `.` and `-`, scanned from the left.
pub open spec fn version_split_from(s: Seq<char>, cur: Seq<char>, acc: Seq<Seq<char>>) -> Seq<
    Seq<char>,
>
    decreases s.len(),
{
    if s.len() == 0 {
        acc.push(cur)
    } else if is_version_separator(s[0]) {
        version_split_from(s.drop_first(), Seq::empty(), acc.push(cur))
    } else {
        version_split_from(s.drop_first(), cur.push(s[0]), acc)
    }
}

/// Parts of a version text between `.` and `-`.
pub open spec fn version_parts(s: Seq<char>) -> Seq<Seq<char>> {
    version_split_from(s, Seq::empty(), Seq::empty())
}

/// The number in the `i`-th part of a version (0 when missing or not a
/// number).
pub open spec fn version_number(s: Seq<char>, i: int) -> nat {
    let parts = version_parts(s);
    if i < parts.len() {
        match parse_uint(parts[i], u64::MAX as nat) {
            Ok(n) => n,
            Err(_) => 0,
        }
    } else {
        0
    }
}

/// Whether version `a` is above version `b`, comparing their first three
/// numbers in order.
pub open spec fn newer(a: Seq<char>, b: Seq<char>) -> bool {
    if version_number(a, 0) != version_number(b, 0) {
        version_number(a, 0) > version_number(b, 0)
    } else if version_number(a, 1) != version_number(b, 1) {
        version_number(a, 1) > version_number(b, 1)
    } else {
        version_number(a, 2) > version_number(b, 2)
    }
}

/// The first three numbers of a version text.
fn version_numbers(s: &str) -> (r: (u64, u64, u64))
    ensures
        r.0 == version_number(s@, 0),
        r.1 == version_number(s@, 1),
        r.2 == version_number(s@, 2),
{
    let v = chars_of(s);
    let mut parts: Vec<Vec<char>> = Vec::new();
    let mut cur: Vec<char> = Vec::new();
    let mut i: usize = 0;
    assert(v@.skip(0) =~= v@);
    assert(views(parts@) =~= Seq::<Seq<char>>::empty());
    assert(cur@ =~= Seq::<char>::empty());
    while i < v.len()
        invariant
            i <= v@.len(),
            v@ == s@,
            version_parts(s@) == version_split_from(v@.skip(i as int), cur@, views(parts@)),
        decreases v.len() - i,
    {
        let ghost rest = v@.skip(i as int);
        assert(rest.drop_first() =~= v@.skip(i + 1));
        if v[i] == '.' || v[i] == '-' {
            proof {
                assert(views(parts@.push(cur)) =~= views(parts@).push(cur@));
            }
            parts.push(cur);
            cur = Vec::new();
            assert(cur@ =~= Seq::<char>::empty());
        } else {
            cur.push(v[i]);
        }
        i = i + 1;
    }
    assert(v@.skip(i as int) =~= Seq::<char>::empty());
    proof {
        assert(views(parts@.push(cur)) =~= views(parts@).push(cur@));
    }
    parts.push(cur);
    let a = part_number(&parts, 0);
    let b = part_number(&parts, 1);
    let c = part_number(&parts, 2);
    (a, b, c)
}

fn part_number(parts: &Vec<Vec<char>>, i: usize) -> (r: u64)
    ensures
        r == (if i < parts@.len() {
            match parse_uint(parts@[i as int]@, u64::MAX as nat) {
                Ok(n) => n,
                Err(_) => 0,
            }
        } else {
            0
        }),
{
    if i < parts.len() {
        match parse_uint_chars(parts[i].as_slice(), u64::MAX) {
            Ok(n) => n,
            Err(_) => 0,
        }
    } else {
        0
    }
}

/// Whether version `latest` is above version `current`: their first three
/// `.`/`-`-separated numbers compared in order (a missing or non-numeric part
/// counts as 0).
pub fn version_newer(latest: &str, current: &str) -> (r: bool)
    ensures
        r == newer(latest@, current@),
{
    let (a0, a1, a2) = version_numbers(latest);
    let (b0, b1, b2) = version_numbers(current);
    if a0 != b0 {
        return a0 > b0;
    }
    if a1 != b1 {
        return a1 > b1;
    }
    a2 > b2
}

/// The releases page of the client.
pub open spec fn releases_url() -> Seq<char> {
    "https://github.com/svllvsxprod/librertc-client/releases"@
}

/// What an update check tells the user.
#[derive(Debug, Clone, PartialEq, Eq)]
pub struct UpdateInfo {
    pub available: bool,
    pub current_version: String,
    pub latest_version: String,
    pub releases_url: String,
}

/// The update information for the latest release tag: the tag without its
/// leading `v`s is the latest version, available when above the current one.
pub fn update_info(tag_name: &str, current_version: &str) -> (r: UpdateInfo)
    ensures
        r.latest_version@ == strip_start(tag_name@, |c: char| c == 'v'),
        r.available == newer(strip_start(tag_name@, |c: char| c == 'v'), current_version@),
        r.current_version@ == current_version@,
        r.releases_url@ == releases_url(),
{
    let t = chars_of(tag_name);
    let mut i: usize = 0;
    while i < t.len() && t[i] == 'v'
        invariant
            i <= t@.len(),
            forall|j: int| 0 <= j < i ==> #[trigger] t@[j] == 'v',
        decreases t.len() - i,
    {
        i = i + 1;
    }
    proof {
        let p = |c: char| c == 'v';
        crate::text::lemma_strip_start_skip(t@, p, i as int);
        if i < t.len() {
            assert(!p(t@.skip(i as int)[0]));
        }
    }
    let latest = string_of_range(t.as_slice(), i, t.len());
    assert(t@.subrange(i as int, t@.len() as int) =~= t@.skip(i as int));
    UpdateInfo {
        available: version_newer(latest.as_str(), current_version),
        current_version: String::from_str(current_version),
        latest_version: latest,
        releases_url: String::from_str("https://github.com/svllvsxprod/librertc-client/releases"),
    }
}

// ---------------------------------------------------------------------------
// External links
// ---------------------------------------------------------------------------

/// The links that may be opened in the system browser.
pub open spec fn allowed_external(url: Seq<char>) -> bool {
    ||| url == "https://t.me/svllvsxprod"@
    ||| url == "https://t.me/openlibrecommunity"@
    ||| url == "https://t.me/tribute/app?startapp=dK9j"@
    ||| url == "https://nowpayments.io/donation/svllvsx"@
    ||| url == "https://github.com/svllvsxprod/librertc-client/releases"@
}

/// Admits a link to be opened only when it is on the allow list.
pub fn check_external_url(url: &str) -> (r: Result<(), String>)
    ensures
        allowed_external(url@) ==> r is Ok,
        !allowed_external(url@) ==> (r matches Err(x) && x@ == "external URL is not allowed"@),
{
    if text_eq(url, "https://t.me/svllvsxprod") || text_eq(url, "https://t.me/openlibrecommunity")
        || text_eq(url, "https://t.me/tribute/app?startapp=dK9j") || text_eq(
        url,
        "https://nowpayments.io/donation/svllvsx",
    ) || text_eq(url, "https://github.com/svllvsxprod/librertc-client/releases") {
        Ok(())
    } else {
        Err(String::from_str("external URL is not allowed"))
    }
}

// ---------------------------------------------------------------------------
// Statistics lines
// ---------------------------------------------------------------------------

/// The prefix of a statistics line of the runtime.
pub open spec fn stats_prefix() -> Seq<char> {
    seq!['O', 'L', 'C', 'R', 'T', 'C', '_', 'S', 'T', 'A', 'T', 'S', ' ']
}

/// The JSON text of a runtime statistics line (`OLCRTC_STATS {...}`), or
/// `None` for another line.
pub fn stats_payload(line: &str) -> (r: Option<String>)
    ensures
        has_prefix(line@, stats_prefix()) ==> (r matches Some(x) && x@ == line@.skip(
            stats_prefix().len() as int,
        )),
        !has_prefix(line@, stats_prefix()) ==> r is None,
{
    let v = chars_of(line);
    let prefix = vec!['O', 'L', 'C', 'R', 'T', 'C', '_', 'S', 'T', 'A', 'T', 'S', ' '];
    assert(prefix@ =~= stats_prefix());
    if !starts_with_chars(v.as_slice(), prefix.as_slice()) {
        return None;
    }
    let rest = string_of_range(v.as_slice(), prefix.len(), v.len());
    Some(rest)
}

} // verus!

//! Properties of what the main operations compute, stated over all inputs:
//! version comparison by numeric value, the runtime's command line, profile
//! cleaning and where the local HTTP proxy sends a request.
use vstd::prelude::*;

use crate::http_proxy::{bracket_pred, header_first_line, header_value, host_port, proxy_request_plan, word_or};
use crate::profile::{normalized, ProfileView};
use crate::runtime::{newer, payload_args, runtime_args, version_number, version_parts, version_split_from};
use crate::uri::RuntimeTarget;
use crate::text::{
    decimal, eq_ignore_case, is_digit, is_space, last_index, lines, words, lemma_decimal_digits, lemma_parse_decimal, lemma_strip_both_noop,
    space_pred, trim,
};

verus! {

// ---------------------------------------------------------------------------
// Versions
// ---------------------------------------------------------------------------

/// The version text `a.b.c`.
pub open spec fn version_text(a: nat, b: nat, c: nat) -> Seq<char> {
    decimal(a) + seq!['.'] + decimal(b) + seq!['.'] + decimal(c)
}

proof fn lemma_split_run(x: Seq<char>, rest: Seq<char>, cur: Seq<char>, acc: Seq<Seq<char>>)
    requires
        forall|j: int| 0 <= j < x.len() ==> is_digit(#[trigger] x[j]),
    ensures
        version_split_from(x + rest, cur, acc) == version_split_from(rest, cur + x, acc),
    decreases x.len(),
{
    if x.len() == 0 {
        assert(x + rest =~= rest);
        assert(cur + x =~= cur);
    } else {
        assert((x + rest)[0] == x[0]);
        assert(is_digit(x[0]));
        assert((x + rest).drop_first() =~= x.drop_first() + rest);
        lemma_split_run(x.drop_first(), rest, cur.push(x[0]), acc);
        assert(cur.push(x[0]) + x.drop_first() =~= cur + x);
    }
}

proof fn lemma_version_parts(a: nat, b: nat, c: nat)
    ensures
        version_parts(version_text(a, b, c)) == seq![decimal(a), decimal(b), decimal(c)],
{
    lemma_decimal_digits(a);
    lemma_decimal_digits(b);
    lemma_decimal_digits(c);
    let da = decimal(a);
    let db = decimal(b);
    let dc = decimal(c);
    let dot = seq!['.'];
    let t = version_text(a, b, c);
    let r1 = dot + (db + (dot + dc));
    assert(t =~= da + r1);
    lemma_split_run(da, r1, seq![], seq![]);
    assert(seq![] + da =~= da);
    assert(r1[0] == '.');
    assert(r1.drop_first() =~= db + (dot + dc));
    lemma_split_run(db, dot + dc, seq![], seq![da]);
    assert(seq![] + db =~= db);
    assert((dot + dc)[0] == '.');
    assert((dot + dc).drop_first() =~= dc);
    lemma_split_run(dc, Seq::empty(), seq![], seq![da].push(db));
    assert(dc + Seq::<char>::empty() =~= dc);
    assert(seq![] + dc =~= dc);
    assert(seq![da].push(db).push(dc) =~= seq![da, db, dc]);
}

/// The numbers of the version `a.b.c` are `a`, `b` and `c`: each part is
/// read whole, so a part of several digits counts by its full value.
pub proof fn law_version_numbers(a: u64, b: u64, c: u64)
    ensures
        version_number(version_text(a as nat, b as nat, c as nat), 0) == a,
        version_number(version_text(a as nat, b as nat, c as nat), 1) == b,
        version_number(version_text(a as nat, b as nat, c as nat), 2) == c,
{
    lemma_version_parts(a as nat, b as nat, c as nat);
    lemma_parse_decimal(a as nat, u64::MAX as nat);
    lemma_parse_decimal(b as nat, u64::MAX as nat);
    lemma_parse_decimal(c as nat, u64::MAX as nat);
}

/// Version `a0.a1.a2` is newer than `b0.b1.b2` exactly when `(a0, a1, a2)`
/// is above `(b0, b1, b2)` in the order of their numbers, first to last.
pub proof fn law_version_newer_by_value(a0: u64, a1: u64, a2: u64, b0: u64, b1: u64, b2: u64)
    ensures
        newer(
            version_text(a0 as nat, a1 as nat, a2 as nat),
            version_text(b0 as nat, b1 as nat, b2 as nat),
        ) <==> (a0 > b0 || (a0 == b0 && (a1 > b1 || (a1 == b1 && a2 > b2)))),
{
    law_version_numbers(a0, a1, a2);
    law_version_numbers(b0, b1, b2);
}

// ---------------------------------------------------------------------------
// The runtime's command line
// ---------------------------------------------------------------------------

#[verifier::spinoff_prover]
proof fn lemma_payload_args(s: Seq<(Seq<char>, Seq<char>)>)
    ensures
        payload_args(s).len() == 2 * s.len(),
        forall|j: int|
            #![trigger s[j]]
            0 <= j < s.len() ==> payload_args(s)[2 * j] == "-"@ + s[j].0 && payload_args(s)[2 * j + 1]
                == s[j].1,
    decreases s.len(),
{
    if s.len() > 0 {
        let u = s.drop_last();
        lemma_payload_args(u);
        let a = payload_args(u);
        let r = payload_args(s);
        assert(r == a + seq!["-"@ + s.last().0, s.last().1]);
        assert forall|j: int| #![trigger s[j]] 0 <= j < s.len() implies r[2 * j] == "-"@ + s[j].0 && r[2 * j + 1]
            == s[j].1 by {
            if j < u.len() {
                assert(r[2 * j] == a[2 * j]);
                assert(r[2 * j + 1] == a[2 * j + 1]);
                assert(u[j] == s[j]);
            } else {
                assert(j == s.len() - 1);
                assert(2 * j == a.len());
                assert(r[2 * j] == "-"@ + s.last().0);
                assert(r[2 * j + 1] == s.last().1);
                assert(s[j] == s.last());
            }
        }
    }
}

/// Each flag of the runtime's command line is followed by the value it
/// names: the target's carrier, transport, room, client ID and key, the data
/// directory, the profile's DNS server, SOCKS host and SOCKS port, and then
/// each payload entry as `-key value`, in order.
pub proof fn law_runtime_args_carry_values(p: ProfileView, t: RuntimeTarget, data_dir: Seq<char>)
    ensures
        ({
            let args = runtime_args(p, t, data_dir);
            &&& args.len() == 24 + 2 * t.payload@.len()
            &&& args[2] == "-carrier"@ && args[3] == t.carrier@
            &&& args[4] == "-transport"@ && args[5] == t.transport@
            &&& args[6] == "-id"@ && args[7] == t.room_id@
            &&& args[8] == "-client-id"@ && args[9] == t.client_id@
            &&& args[10] == "-key"@ && args[11] == t.key@
            &&& args[14] == "-data"@ && args[15] == data_dir
            &&& args[16] == "-dns"@ && args[17] == p.dns
            &&& args[18] == "-socks-host"@ && args[19] == p.socks_host
            &&& args[20] == "-socks-port"@ && args[21] == decimal(p.socks_port as nat)
            &&& forall|j: int|
                #![trigger t.payload@[j]]
                0 <= j < t.payload@.len() ==> args[24 + 2 * j] == "-"@ + t.payload@[j].0
                    && args[25 + 2 * j] == t.payload@[j].1
        }),
{
    let args = runtime_args(p, t, data_dir);
    let pa = payload_args(t.payload@);
    lemma_payload_args(t.payload@);
    assert forall|j: int| #![trigger t.payload@[j]] 0 <= j < t.payload@.len() implies args[24 + 2 * j] == "-"@
        + t.payload@[j].0 && args[25 + 2 * j] == t.payload@[j].1 by {
        assert(t.payload@[j] == t.payload@[j]);
        assert(args[24 + 2 * j] == pa[2 * j]);
        assert(args[25 + 2 * j] == pa[2 * j + 1]);
    }
}

// ---------------------------------------------------------------------------
// Cleaning a profile
// ---------------------------------------------------------------------------

/// Whether a text neither starts nor ends with whitespace.
pub open spec fn tidy(s: Seq<char>) -> bool {
    s.len() > 0 && !is_space(s[0]) && !is_space(s.last())
}

/// Cleaning keeps what the user gave: each text with a default keeps its
/// trimmed value when that is not empty (the default comes in only for a
/// blank text), and is kept exactly when it has no surrounding whitespace;
/// the links are trimmed; a fixed SOCKS port other than 0 and the other
/// settings are kept.
pub proof fn law_normalize_keeps_given_values(p: ProfileView)
    ensures
        trim(p.dns).len() > 0 ==> normalized(p).dns == trim(p.dns),
        trim(p.dns).len() == 0 ==> normalized(p).dns == "1.1.1.1:53"@,
        tidy(p.dns) ==> normalized(p).dns == p.dns,
        trim(p.name).len() > 0 ==> normalized(p).name == trim(p.name),
        trim(p.name).len() == 0 ==> normalized(p).name == "Default"@,
        tidy(p.name) ==> normalized(p).name == p.name,
        trim(p.socks_host).len() > 0 ==> normalized(p).socks_host == trim(p.socks_host),
        trim(p.socks_host).len() == 0 ==> normalized(p).socks_host == "127.0.0.1"@,
        tidy(p.socks_host) ==> normalized(p).socks_host == p.socks_host,
        trim(p.olcrtc_path).len() > 0 ==> normalized(p).olcrtc_path == trim(p.olcrtc_path),
        trim(p.olcrtc_path).len() == 0 ==> normalized(p).olcrtc_path == "olcrtc.exe"@,
        tidy(p.olcrtc_path) ==> normalized(p).olcrtc_path == p.olcrtc_path,
        normalized(p).uri == trim(p.uri),
        normalized(p).subscription_url == trim(p.subscription_url),
        p.proxy_auto || p.socks_port != 0 ==> normalized(p).socks_port == p.socks_port,
        !p.proxy_auto && p.socks_port == 0 ==> normalized(p).socks_port == 8808,
        normalized(p).proxy_auto == p.proxy_auto,
        normalized(p).welcome_dismissed == p.welcome_dismissed,
        normalized(p).last_seen_version == p.last_seen_version,
{
    if tidy(p.dns) {
        lemma_strip_both_noop(p.dns, space_pred());
    }
    if tidy(p.name) {
        lemma_strip_both_noop(p.name, space_pred());
    }
    if tidy(p.socks_host) {
        lemma_strip_both_noop(p.socks_host, space_pred());
    }
    if tidy(p.olcrtc_path) {
        lemma_strip_both_noop(p.olcrtc_path, space_pred());
    }
}

// ---------------------------------------------------------------------------
// Where the local HTTP proxy sends a request
// ---------------------------------------------------------------------------

/// A host name as it stands in a `Host` header or a `CONNECT` target: not
/// empty, without `:`, brackets or whitespace.
pub open spec fn plain_host(h: Seq<char>) -> bool {
    h.len() > 0 && forall|j: int|
        0 <= j < h.len() ==> #[trigger] h[j] != ':' && h[j] != '[' && h[j] != ']' && !is_space(h[j])
}

/// `host:port` with the port in decimal.
pub open spec fn host_with_port(h: Seq<char>, port: u16) -> Seq<char> {
    h + seq![':'] + decimal(port as nat)
}

/// A plain host with an explicit port gives that host and port; a plain host
/// alone gives the default port.
pub proof fn law_host_port(h: Seq<char>, port: u16, default_port: u16)
    requires
        plain_host(h),
    ensures
        host_port(host_with_port(h, port), default_port) == Ok::<(Seq<char>, u16), Seq<char>>((h, port)),
        host_port(h, default_port) == Ok::<(Seq<char>, u16), Seq<char>>((h, default_port)),
{
    let d = decimal(port as nat);
    lemma_decimal_digits(port as nat);
    let v = host_with_port(h, port);
    let n = h.len() as int;
    assert(v[0] == h[0]);
    assert(v.last() == d.last());
    assert(is_digit(d[d.len() - 1]));
    lemma_strip_both_noop(v, space_pred());
    lemma_strip_both_noop(h, space_pred());
    lemma_strip_both_noop(h, bracket_pred());
    assert(trim(v) == v);
    assert(trim(h) == h);
    // the last `:` is the one before the port
    crate::text::lemma_last_index(v, ':');
    assert(v[n] == ':');
    assert forall|j: int| n < j < v.len() implies v[j] != ':' by {
        assert(v[j] == d[j - n - 1]);
        assert(is_digit(d[j - n - 1]));
    }
    match last_index(v, ':') {
        Some(i) => {
            if i < n {
                assert(v[i] == h[i]);
            }
            assert(i == n);
        },
        None => {},
    }
    assert(v.take(n) =~= h);
    crate::text::lemma_first_index_none(h, ']');
    assert(v.skip(n + 1) =~= d);
    lemma_parse_decimal(port as nat, 65535);
    // a host alone has no `:`
    crate::text::lemma_last_index(h, ':');
}

/// The local HTTP proxy sends a plain request to the host and port of its
/// `Host` header (port 80 when the header has none) and opens a `CONNECT`
/// tunnel to the host and port of its target (port 443 when it has none).
pub proof fn law_proxy_target(request: Seq<u8>, header_end: int, header: Seq<char>, h: Seq<char>, port: u16)
    requires
        plain_host(h),
    ensures
        ({
            let ws = words(header_first_line(header));
            let connect = eq_ignore_case(word_or(ws, 0, ""@), "CONNECT"@);
            let host = header_value(lines(header), "Host"@);
            &&& !connect && host == Some(host_with_port(h, port)) ==> proxy_request_plan(
                request,
                header_end,
                header,
            ) == Ok::<(bool, Seq<char>, u16), Seq<char>>((false, h, port))
            &&& !connect && host == Some(h) ==> proxy_request_plan(request, header_end, header)
                == Ok::<(bool, Seq<char>, u16), Seq<char>>((false, h, 80u16))
            &&& connect && word_or(ws, 1, ""@) == host_with_port(h, port) ==> proxy_request_plan(
                request,
                header_end,
                header,
            ) == Ok::<(bool, Seq<char>, u16), Seq<char>>((true, h, port))
            &&& connect && word_or(ws, 1, ""@) == h ==> proxy_request_plan(request, header_end, header)
                == Ok::<(bool, Seq<char>, u16), Seq<char>>((true, h, 443u16))
        }),
{
    law_host_port(h, port, 80);
    law_host_port(h, port, 443);
}

} // verus!

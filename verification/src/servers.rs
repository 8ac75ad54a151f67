//! The list of imported servers: reading links, naming and identifying
//! servers, merging new ones in and keeping the list ordered by name.
use vstd::prelude::*;
use vstd::string::*;

use crate::payload::{compare_text, lemma_text_lt_irreflexive, lemma_text_lt_total, lemma_text_lt_transitive, text_lt, TextOrder};
use crate::profile::{server_views, ServerProfile, ServerView};
use crate::text::{
    chars_eq, chars_of, hex16_string, hex_digits, lines, lines_of, string_of, trim, trim_chars,
    views,
};
use crate::uri::{parse_runtime_uri, parse_uri, RuntimeTarget, TargetView};

verus! {

/// FNV-1a offset basis (64 bits).
pub const FNV_OFFSET: u64 = 0xcbf29ce484222325;

/// FNV-1a prime (64 bits).
pub const FNV_PRIME: u64 = 0x100000001b3;

/// The 64-bit FNV-1a hash of `bytes`.
pub open spec fn fnv_hash(bytes: Seq<u8>) -> u64
    decreases bytes.len(),
{
    if bytes.len() == 0 {
        FNV_OFFSET
    } else {
        (fnv_hash(bytes.drop_last()) ^ (bytes.last() as u64)).wrapping_mul(FNV_PRIME)
    }
}

/// The 64-bit FNV-1a hash of `bytes`.
pub fn fnv1a64(bytes: &[u8]) -> (h: u64)
    ensures
        h == fnv_hash(bytes@),
{
    let mut hash: u64 = FNV_OFFSET;
    let mut i: usize = 0;
    while i < bytes.len()
        invariant
            i <= bytes@.len(),
            hash == fnv_hash(bytes@.take(i as int)),
        decreases bytes.len() - i,
    {
        assert(bytes@.take(i + 1).drop_last() =~= bytes@.take(i as int));
        hash = hash ^ (bytes[i] as u64);
        hash = hash.wrapping_mul(FNV_PRIME);
        i = i + 1;
    }
    assert(bytes@.take(i as int) =~= bytes@);
    hash
}

/// The identifier of a server link: its FNV-1a hash as 16 hex digits.
pub open spec fn server_id_text(uri: Seq<char>) -> Seq<char> {
    hex_digits(fnv_hash(vstd::utf8::encode_utf8(uri)) as nat, 16)
}

/// The identifier of a server link: the FNV-1a hash of its UTF-8 bytes, as
/// 16 lowercase hex digits.
pub fn server_id(uri: &str) -> (id: String)
    ensures
        id@ == server_id_text(uri@),
{
    hex16_string(fnv1a64(uri.as_bytes()))
}

/// The display name of a target: its name, or `carrier/transport` when the
/// name is blank.
pub open spec fn server_name_text(t: TargetView) -> Seq<char> {
    if trim(t.name).len() == 0 {
        t.carrier + "/"@ + t.transport
    } else {
        t.name
    }
}

/// The display name of a target.
pub fn server_name(target: &RuntimeTarget) -> (name: String)
    ensures
        name@ == server_name_text(target@),
{
    let n = chars_of(target.name.as_str());
    let t = trim_chars(n.as_slice());
    if t.len() == 0 {
        let s = target.carrier.clone().concat("/");
        s.concat(target.transport.as_str())
    } else {
        target.name.clone()
    }
}

/// Whether a trimmed line holds a link: not empty, not a `#` comment.
pub open spec fn is_link_line(l: Seq<char>) -> bool {
    l.len() > 0 && l[0] != '#'
}

/// The trimmed link lines of a text, in order.
pub open spec fn link_lines(raw: Seq<char>) -> Seq<Seq<char>> {
    lines(raw).map_values(|l: Seq<char>| trim(l)).filter(|l: Seq<char>| is_link_line(l))
}

/// The trimmed lines of `raw` that hold links.
pub fn link_lines_of(raw: &str) -> (r: Vec<Vec<char>>)
    ensures
        views(r@) == link_lines(raw@),
{
    let all = chars_of(raw);
    let ls = lines_of(all.as_slice());
    let ghost trimmed = lines(raw@).map_values(|l: Seq<char>| trim(l));
    let ghost pred = |l: Seq<char>| is_link_line(l);
    let mut r: Vec<Vec<char>> = Vec::new();
    let mut i: usize = 0;
    assert(trimmed.take(0).filter(pred) =~= Seq::<Seq<char>>::empty()) by {
        reveal(Seq::filter);
    }
    assert(views(r@) =~= Seq::<Seq<char>>::empty());
    while i < ls.len()
        invariant
            i <= ls@.len(),
            views(ls@) == lines(raw@),
            trimmed == lines(raw@).map_values(|l: Seq<char>| trim(l)),
            pred == (|l: Seq<char>| is_link_line(l)),
            views(r@) == trimmed.take(i as int).filter(pred),
        decreases ls.len() - i,
    {
        let t = trim_chars(ls[i].as_slice());
        assert(views(ls@)[i as int] == ls@[i as int]@);
        assert(t@ == trimmed[i as int]);
        assert(trimmed.take(i + 1) =~= trimmed.take(i as int).push(trimmed[i as int]));
        proof {
            trimmed.take(i as int).lemma_filter_push(trimmed[i as int], pred);
        }
        if t.len() > 0 && t[0] != '#' {
            let ghost before = views(r@);
            r.push(t);
            assert(views(r@) =~= before.push(t@));
        }
        i = i + 1;
    }
    assert(trimmed.take(i as int) =~= trimmed);
    r
}

/// The server entry for link text `uri` that parses to `t`.
pub open spec fn server_from(uri: Seq<char>, t: TargetView) -> ServerView {
    ServerView {
        id: server_id_text(uri),
        name: server_name_text(t),
        uri,
        carrier: t.carrier,
        transport: t.transport,
    }
}

/// The servers that the link lines `ls` describe, or the message of the
/// first line that does not parse.
pub open spec fn servers_of_lines(ls: Seq<Seq<char>>) -> Result<Seq<ServerView>, Seq<char>>
    decreases ls.len(),
{
    if ls.len() == 0 {
        Ok(Seq::empty())
    } else {
        match servers_of_lines(ls.drop_last()) {
            Err(e) => Err(e),
            Ok(list) => match parse_uri(ls.last()) {
                Err(e) => Err(e),
                Ok(t) => Ok(list.push(server_from(ls.last(), t))),
            },
        }
    }
}

/// The servers that the links in `raw` describe, one per link line.
pub fn servers_from_text(raw: &str) -> (r: Result<Vec<ServerProfile>, String>)
    ensures
        match servers_of_lines(link_lines(raw@)) {
            Ok(list) => r matches Ok(v) && server_views(v@) == list,
            Err(e) => r matches Err(x) && x@ == e,
        },
{
    let ls = link_lines_of(raw);
    let ghost all = views(ls@);
    let mut out: Vec<ServerProfile> = Vec::new();
    let mut i: usize = 0;
    assert(all.take(0) =~= Seq::<Seq<char>>::empty());
    assert(server_views(out@) =~= Seq::<ServerView>::empty());
    while i < ls.len()
        invariant
            i <= ls@.len(),
            all == views(ls@),
            all == link_lines(raw@),
            servers_of_lines(all.take(i as int)) == Ok::<Seq<ServerView>, Seq<char>>(
                server_views(out@),
            ),
        decreases ls.len() - i,
    {
        let value = string_of(ls[i].as_slice());
        assert(value@ == all[i as int]);
        let ghost prefix = all.take(i + 1);
        assert(prefix.drop_last() =~= all.take(i as int));
        assert(prefix.last() == value@);
        let target = match parse_runtime_uri(value.as_str()) {
            Ok(t) => t,
            Err(e) => {
                proof {
                    lemma_servers_error_persists(all, i as int + 1);
                }
                return Err(e);
            },
        };
        let server = ServerProfile {
            id: server_id(value.as_str()),
            name: server_name(&target),
            uri: value,
            carrier: target.carrier,
            transport: target.transport,
        };
        let ghost before = server_views(out@);
        out.push(server);
        assert(server_views(out@) =~= before.push(server@));
        i = i + 1;
    }
    assert(all.take(i as int) =~= all);
    Ok(out)
}

/// Once a prefix of the lines fails, the whole list fails with the same
/// message.
proof fn lemma_servers_error_persists(ls: Seq<Seq<char>>, k: int)
    requires
        0 <= k <= ls.len(),
        servers_of_lines(ls.take(k)) is Err,
    ensures
        servers_of_lines(ls) == servers_of_lines(ls.take(k)),
    decreases ls.len() - k,
{
    if k < ls.len() {
        assert(ls.drop_last().take(k) =~= ls.take(k));
        lemma_servers_error_persists(ls.drop_last(), k);
    } else {
        assert(ls.take(k) =~= ls);
    }
}

// ---------------------------------------------------------------------------
// Merging and ordering
// ---------------------------------------------------------------------------

/// The position of the first server with identifier `id`.
pub open spec fn id_index(s: Seq<ServerView>, id: Seq<char>) -> Option<int>
    decreases s.len(),
{
    if s.len() == 0 {
        None
    } else if s[0].id == id {
        Some(0)
    } else {
        match id_index(s.drop_first(), id) {
            Some(i) => Some(i + 1),
            None => None,
        }
    }
}

pub proof fn lemma_id_index(s: Seq<ServerView>, id: Seq<char>)
    ensures
        match id_index(s, id) {
            Some(i) => 0 <= i < s.len() && s[i].id == id && forall|j: int|
                0 <= j < i ==> s[j].id != id,
            None => forall|j: int| 0 <= j < s.len() ==> s[j].id != id,
        },
    decreases s.len(),
{
    if s.len() > 0 {
        lemma_id_index(s.drop_first(), id);
        assert forall|j: int| 0 < j < s.len() implies s[j] == s.drop_first()[j - 1] by {}
    }
}

/// `s` with `x` in place of its first server of the same identifier, or with
/// `x` appended when there is none.
pub open spec fn merge_one(s: Seq<ServerView>, x: ServerView) -> Seq<ServerView> {
    match id_index(s, x.id) {
        Some(i) => s.update(i, x),
        None => s.push(x),
    }
}

/// `s` with each of `xs` merged in, in order.
pub open spec fn merge_all(s: Seq<ServerView>, xs: Seq<ServerView>) -> Seq<ServerView>
    decreases xs.len(),
{
    if xs.len() == 0 {
        s
    } else {
        merge_one(merge_all(s, xs.drop_last()), xs.last())
    }
}

/// The position of the first server in `v` with identifier `id`.
pub fn find_server(v: &Vec<ServerProfile>, id: &String) -> (r: Option<usize>)
    ensures
        match id_index(server_views(v@), id@) {
            Some(i) => r matches Some(k) && k == i && i < v@.len(),
            None => r is None,
        },
{
    let ghost s = server_views(v@);
    let k = chars_of(id.as_str());
    let mut i: usize = 0;
    while i < v.len()
        invariant
            i <= v@.len(),
            s == server_views(v@),
            k@ == id@,
            forall|j: int| 0 <= j < i ==> s[j].id != id@,
        decreases v.len() - i,
    {
        let c = chars_of(v[i].id.as_str());
        assert(s[i as int] == v@[i as int]@);
        if chars_eq(c.as_slice(), k.as_slice()) {
            proof {
                lemma_id_index(s, id@);
                assert(s[i as int].id == id@);
                match id_index(s, id@) {
                    Some(m) => {
                        if m < i {
                        } else if m > i {
                            assert(s[i as int].id != id@);
                        }
                    },
                    None => {
                        assert(s[i as int].id != id@);
                    },
                }
            }
            return Some(i);
        }
        i = i + 1;
    }
    proof {
        lemma_id_index(s, id@);
    }
    None
}

/// Merges `incoming` into `servers`: a server replaces the first one with the
/// same identifier, or is appended.
pub fn merge_servers(servers: &mut Vec<ServerProfile>, incoming: &Vec<ServerProfile>)
    ensures
        server_views(final(servers)@) == merge_all(
            server_views(old(servers)@),
            server_views(incoming@),
        ),
{
    let ghost base = server_views(servers@);
    let ghost xs = server_views(incoming@);
    let mut done: usize = 0;
    assert(xs.take(0) =~= Seq::<ServerView>::empty());
    while done < incoming.len()
        invariant
            done <= incoming@.len(),
            xs == server_views(incoming@),
            server_views(servers@) == merge_all(base, xs.take(done as int)),
        decreases incoming.len() - done,
    {
        let x = incoming[done].duplicate();
        assert(x@ == xs[done as int]);
        let ghost s0 = server_views(servers@);
        match find_server(servers, &x.id) {
            Some(i) => {
                servers.set(i, x);
                assert(server_views(servers@) =~= s0.update(i as int, x@));
            },
            None => {
                servers.push(x);
                assert(server_views(servers@) =~= s0.push(x@));
            },
        }
        assert(xs.take(done + 1).drop_last() =~= xs.take(done as int));
        done = done + 1;
    }
    assert(xs.take(done as int) =~= xs);
}

/// `t` (ordered by name) with `x` placed after every server whose name is not
/// above its own.
pub open spec fn insert_by_name(t: Seq<ServerView>, x: ServerView) -> Seq<ServerView>
    decreases t.len(),
{
    if t.len() == 0 {
        seq![x]
    } else if text_lt(x.name, t.last().name) {
        insert_by_name(t.drop_last(), x).push(t.last())
    } else {
        t.push(x)
    }
}

/// `s` stably sorted by name (`slice::sort_by` on `String::cmp` of names).
pub open spec fn sort_by_name(s: Seq<ServerView>) -> Seq<ServerView>
    decreases s.len(),
{
    if s.len() == 0 {
        s
    } else {
        insert_by_name(sort_by_name(s.drop_last()), s.last())
    }
}

proof fn lemma_insert_at(t: Seq<ServerView>, x: ServerView, j: int)
    requires
        0 <= j <= t.len(),
        forall|k: int| j <= k < t.len() ==> text_lt(x.name, #[trigger] t[k].name),
        j == 0 || !text_lt(x.name, t[j - 1].name),
    ensures
        insert_by_name(t, x) == t.insert(j, x),
    decreases t.len(),
{
    if t.len() == 0 {
        assert(t.insert(j, x) =~= seq![x]);
    } else if j == t.len() {
        assert(t.insert(j, x) =~= t.push(x));
    } else {
        lemma_insert_at(t.drop_last(), x, j);
        assert(t.insert(j, x) =~= t.drop_last().insert(j, x).push(t.last()));
    }
}

/// Sorts servers by name, keeping the order of servers with equal names.
pub fn sort_servers_by_name(servers: &Vec<ServerProfile>) -> (r: Vec<ServerProfile>)
    ensures
        server_views(r@) == sort_by_name(server_views(servers@)),
{
    let ghost s = server_views(servers@);
    let mut r: Vec<ServerProfile> = Vec::new();
    let mut done: usize = 0;
    assert(s.take(0) =~= Seq::<ServerView>::empty());
    assert(server_views(r@) =~= Seq::<ServerView>::empty());
    while done < servers.len()
        invariant
            done <= servers@.len(),
            s == server_views(servers@),
            server_views(r@) == sort_by_name(s.take(done as int)),
        decreases servers.len() - done,
    {
        let x = servers[done].duplicate();
        assert(x@ == s[done as int]);
        let ghost t = server_views(r@);
        let xn = chars_of(x.name.as_str());
        let mut j = r.len();
        while j > 0
            invariant
                j <= r@.len(),
                t == server_views(r@),
                xn@ == x.name@,
                forall|k: int| j <= k < t.len() ==> text_lt(x@.name, #[trigger] t[k].name),
            ensures
                j <= r@.len(),
                forall|k: int| j <= k < t.len() ==> text_lt(x@.name, #[trigger] t[k].name),
                j == 0 || !text_lt(x@.name, t[j - 1].name),
            decreases j,
        {
            let yn = chars_of(r[j - 1].name.as_str());
            match compare_text(xn.as_slice(), yn.as_slice()) {
                TextOrder::Less => {},
                _ => {
                    break;
                },
            }
            j = j - 1;
        }
        proof {
            lemma_insert_at(t, x@, j as int);
        }
        r.insert(j, x);
        assert(server_views(r@) =~= t.insert(j as int, x@));
        assert(s.take(done + 1).drop_last() =~= s.take(done as int));
        done = done + 1;
    }
    assert(s.take(done as int) =~= s);
    r
}

/// Whether the servers are in non-descending name order.
pub open spec fn sorted_by_name(s: Seq<ServerView>) -> bool {
    forall|i: int, j: int| 0 <= i < j < s.len() ==> !text_lt(#[trigger] s[j].name, #[trigger] s[i].name)
}

pub proof fn lemma_insert_by_name_sorted(t: Seq<ServerView>, x: ServerView)
    requires
        sorted_by_name(t),
    ensures
        sorted_by_name(insert_by_name(t, x)),
        insert_by_name(t, x).to_multiset() == t.to_multiset().insert(x),
    decreases t.len(),
{
    broadcast use vstd::seq_lib::group_to_multiset_ensures;

    if t.len() == 0 {
        assert(t =~= Seq::<ServerView>::empty());
        assert(insert_by_name(t, x) =~= seq![x]);
        assert(seq![x] =~= Seq::<ServerView>::empty().push(x));
    } else if text_lt(x.name, t.last().name) {
        let u = t.drop_last();
        lemma_insert_by_name_sorted(u, x);
        let w = insert_by_name(u, x);
        let r = w.push(t.last());
        assert(t =~= u.push(t.last()));
        assert forall|i: int, j: int| 0 <= i < j < r.len() implies !text_lt(
            #[trigger] r[j].name,
            #[trigger] r[i].name,
        ) by {
            if j == r.len() - 1 {
                // every element of w is u's or x, none above t.last()
                assert(w.to_multiset().count(w[i]) > 0);
                assert(u.to_multiset().insert(x).count(w[i]) > 0);
                if w[i] == x {
                    lemma_text_lt_irreflexive(x.name);
                    if text_lt(t.last().name, x.name) {
                        lemma_text_lt_transitive(x.name, t.last().name, x.name);
                    }
                } else {
                    assert(u.to_multiset().count(w[i]) > 0);
                    assert(u.contains(w[i]));
                    let k = choose|k: int| 0 <= k < u.len() && u[k] == w[i];
                    assert(t[k] == u[k]);
                    assert(!text_lt(t[t.len() - 1].name, t[k].name));
                }
            }
        }
    } else {
        assert forall|i: int, j: int| 0 <= i < j < t.push(x).len() implies !text_lt(
            #[trigger] t.push(x)[j].name,
            #[trigger] t.push(x)[i].name,
        ) by {
            if j == t.len() {
                if i < t.len() - 1 {
                    assert(!text_lt(t.last().name, t[i].name));
                    lemma_text_lt_total(x.name, t.last().name);
                    if text_lt(x.name, t[i].name) {
                        if x.name == t.last().name {
                        } else {
                            lemma_text_lt_transitive(t.last().name, x.name, t[i].name);
                        }
                    }
                }
            }
        }
    }
}

/// Sorting by name yields an ordered list with the same servers.
pub proof fn lemma_sort_by_name(s: Seq<ServerView>)
    ensures
        sorted_by_name(sort_by_name(s)),
        sort_by_name(s).to_multiset() == s.to_multiset(),
    decreases s.len(),
{
    broadcast use vstd::seq_lib::group_to_multiset_ensures;

    if s.len() > 0 {
        lemma_sort_by_name(s.drop_last());
        lemma_insert_by_name_sorted(sort_by_name(s.drop_last()), s.last());
        assert(s =~= s.drop_last().push(s.last()));
    }
}

/// Whether some server has the link `uri`.
pub open spec fn has_uri(s: Seq<ServerView>, uri: Seq<char>) -> bool {
    exists|i: int| 0 <= i < s.len() && #[trigger] s[i].uri == uri
}

/// Whether some server has the link `uri`.
pub fn contains_uri(servers: &Vec<ServerProfile>, uri: &Vec<char>) -> (r: bool)
    ensures
        r == has_uri(server_views(servers@), uri@),
{
    let ghost s = server_views(servers@);
    let mut i: usize = 0;
    while i < servers.len()
        invariant
            i <= servers@.len(),
            s == server_views(servers@),
            forall|j: int| 0 <= j < i ==> s[j].uri != uri@,
        decreases servers.len() - i,
    {
        let c = chars_of(servers[i].uri.as_str());
        assert(s[i as int] == servers@[i as int]@);
        if chars_eq(c.as_slice(), uri.as_slice()) {
            assert(s[i as int].uri == uri@);
            return true;
        }
        i = i + 1;
    }
    false
}

/// The servers whose identifier is not `id`, in order.
pub fn servers_without_id(servers: &Vec<ServerProfile>, id: &str) -> (r: Vec<ServerProfile>)
    ensures
        server_views(r@) == server_views(servers@).filter(|x: ServerView| x.id != id@),
{
    let ghost s = server_views(servers@);
    let ghost pred = |x: ServerView| x.id != id@;
    let k = chars_of(id);
    let mut r: Vec<ServerProfile> = Vec::new();
    let mut i: usize = 0;
    assert(s.take(0).filter(pred) =~= Seq::<ServerView>::empty()) by {
        reveal(Seq::filter);
    }
    assert(server_views(r@) =~= Seq::<ServerView>::empty());
    while i < servers.len()
        invariant
            i <= servers@.len(),
            s == server_views(servers@),
            k@ == id@,
            pred == (|x: ServerView| x.id != id@),
            server_views(r@) == s.take(i as int).filter(pred),
        decreases servers.len() - i,
    {
        assert(s[i as int] == servers@[i as int]@);
        assert(s.take(i + 1) =~= s.take(i as int).push(s[i as int]));
        proof {
            s.take(i as int).lemma_filter_push(s[i as int], pred);
        }
        let c = chars_of(servers[i].id.as_str());
        if !chars_eq(c.as_slice(), k.as_slice()) {
            let ghost before = server_views(r@);
            let d = servers[i].duplicate();
            r.push(d);
            assert(server_views(r@) =~= before.push(d@));
        }
        i = i + 1;
    }
    assert(s.take(i as int) =~= s);
    r
}

} // verus!

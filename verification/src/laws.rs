//! Properties that hold across the library's operations.
use vstd::prelude::*;

use crate::profile::{normalized, profile_check, saved_profile_check, ProfileView, ServerView};
use crate::runtime::{newer, version_number};
use crate::uri::TargetView;
use crate::http_proxy::{
    crlf_at, decoded, first_crlf, http_scheme, origin_path, rewrite_result, word_or,
};
use vstd::utf8::{encode_scalar, encode_utf8};
use crate::servers::{id_index, insert_by_name, lemma_id_index, merge_all, merge_one, sort_by_name};
use crate::registry::{apply_change, apply_changes, enable_changes, restore_changes, saved_value, RegChange};
use crate::store::{cleanup_for, undo_of, ConnectStep, UndoStep};
use crate::status::{keep_recent, log_entry, logged, LOG_LIMIT};
use crate::text::{ascii_lower_seq, first_index, has_prefix, is_space, split_from, words, words_from, lemma_strip_both_noop, lemma_trim_idempotent, space_pred, trim};

verus! {

proof fn lemma_literal_trimmed(s: Seq<char>)
    requires
        s.len() > 0,
        !is_space(s[0]),
        !is_space(s.last()),
    ensures
        trim(s) == s,
{
    lemma_strip_both_noop(s, space_pred());
}

/// Normalizing a normalized profile changes nothing.
pub proof fn law_normalize_idempotent(p: ProfileView)
    ensures
        normalized(normalized(p)) == normalized(p),
{
    let q = normalized(p);
    reveal_strlit("tun");
    reveal_strlit("proxy");
    reveal_strlit("ru");
    reveal_strlit("en");
    reveal_strlit("Default");
    reveal_strlit("127.0.0.1");
    reveal_strlit("1.1.1.1:53");
    reveal_strlit("olcrtc.exe");
    lemma_literal_trimmed("tun"@);
    lemma_literal_trimmed("proxy"@);
    lemma_literal_trimmed("ru"@);
    lemma_literal_trimmed("en"@);
    lemma_literal_trimmed("Default"@);
    lemma_literal_trimmed("127.0.0.1"@);
    lemma_literal_trimmed("1.1.1.1:53"@);
    lemma_literal_trimmed("olcrtc.exe"@);
    lemma_trim_idempotent(p.name);
    lemma_trim_idempotent(p.subscription_url);
    lemma_trim_idempotent(p.uri);
    lemma_trim_idempotent(p.socks_host);
    lemma_trim_idempotent(p.dns);
    lemma_trim_idempotent(p.olcrtc_path);
    assert(ascii_lower_seq("tun"@) =~= "tun"@);
    assert(ascii_lower_seq("proxy"@) =~= "proxy"@);
    assert(ascii_lower_seq("ru"@) =~= "ru"@);
    assert(ascii_lower_seq("en"@) =~= "en"@);
    assert("proxy"@ != "tun"@);
    assert("en"@ != "ru"@);
    assert(normalized(q) =~= q);
}

/// A profile that may connect may also be saved: the connect check is the
/// save check and more.
pub proof fn law_connect_check_implies_save_check(p: ProfileView)
    requires
        profile_check(p) is Ok,
    ensures
        saved_profile_check(p) is Ok,
{
}

/// The status log never holds more than `LOG_LIMIT` lines, and its newest
/// line is the one just appended; below the limit nothing is dropped.
pub proof fn law_log_bounded(logs: Seq<Seq<char>>, t: u64, line: Seq<char>)
    ensures
        logged(logs, t, line).len() <= LOG_LIMIT,
        logged(logs, t, line).last() == log_entry(t, line),
        logs.len() < LOG_LIMIT ==> logged(logs, t, line) == logs.push(log_entry(t, line)),
        logs.len() >= LOG_LIMIT ==> logged(logs, t, line) == logs.push(log_entry(t, line)).skip(
            logs.len() + 1 - LOG_LIMIT,
        ),
{
}

/// No version is newer than itself.
pub proof fn law_version_newer_irreflexive(a: Seq<char>)
    ensures
        !newer(a, a),
{
}

/// Of two versions at most one is newer than the other.
pub proof fn law_version_newer_asymmetric(a: Seq<char>, b: Seq<char>)
    requires
        newer(a, b),
    ensures
        !newer(b, a),
{
}

/// Being newer is transitive.
pub proof fn law_version_newer_transitive(a: Seq<char>, b: Seq<char>, c: Seq<char>)
    requires
        newer(a, b),
        newer(b, c),
    ensures
        newer(a, c),
{
}

/// Whether no two servers share an identifier.
pub open spec fn ids_unique(s: Seq<ServerView>) -> bool {
    forall|i: int, j: int| 0 <= i < j < s.len() ==> #[trigger] s[i].id != #[trigger] s[j].id
}

/// Whether server `x` is in `s`.
pub open spec fn has_server(s: Seq<ServerView>, x: ServerView) -> bool {
    exists|i: int| 0 <= i < s.len() && #[trigger] s[i] == x
}

proof fn lemma_merge_one(s: Seq<ServerView>, x: ServerView)
    requires
        ids_unique(s),
    ensures
        ids_unique(merge_one(s, x)),
        has_server(merge_one(s, x), x),
        forall|y: ServerView| #[trigger] has_server(merge_one(s, x), y) ==> y == x || has_server(s, y),
        forall|y: ServerView| has_server(s, y) && y.id != x.id ==> #[trigger] has_server(merge_one(s, x), y),
{
    lemma_id_index(s, x.id);
    let r = merge_one(s, x);
    match id_index(s, x.id) {
        Some(k) => {
            assert(r[k] == x);
            assert forall|a: int, b: int| 0 <= a < b < r.len() implies #[trigger] r[a].id != #[trigger] r[b].id by {
                if a == k {
                    assert(s[b].id != s[k].id);
                } else if b == k {
                    assert(s[a].id != s[k].id);
                }
            }
            assert forall|y: ServerView| #[trigger] has_server(r, y) implies y == x || has_server(s, y) by {
                let i = choose|i: int| 0 <= i < r.len() && r[i] == y;
                if i != k {
                    assert(s[i] == y);
                }
            }
            assert forall|y: ServerView| has_server(s, y) && y.id != x.id implies #[trigger] has_server(r, y) by {
                let i = choose|i: int| 0 <= i < s.len() && s[i] == y;
                assert(i != k);
                assert(r[i] == y);
            }
        },
        None => {
            assert(r[s.len() as int] == x);
            assert forall|a: int, b: int| 0 <= a < b < r.len() implies #[trigger] r[a].id != #[trigger] r[b].id by {
                if b == s.len() {
                    assert(s[a].id != x.id);
                }
            }
            assert forall|y: ServerView| #[trigger] has_server(r, y) implies y == x || has_server(s, y) by {
                let i = choose|i: int| 0 <= i < r.len() && r[i] == y;
                if i < s.len() {
                    assert(s[i] == y);
                }
            }
            assert forall|y: ServerView| has_server(s, y) && y.id != x.id implies #[trigger] has_server(r, y) by {
                let i = choose|i: int| 0 <= i < s.len() && s[i] == y;
                assert(r[i] == y);
            }
        },
    }
}

proof fn lemma_merge_all(s: Seq<ServerView>, xs: Seq<ServerView>, k: int)
    requires
        ids_unique(s),
        0 <= k < xs.len(),
        forall|j: int| k < j < xs.len() ==> #[trigger] xs[j].id != xs[k].id,
    ensures
        ids_unique(merge_all(s, xs)),
        has_server(merge_all(s, xs), xs[k]),
    decreases xs.len(),
{
    lemma_merge_all_unique(s, xs);
    lemma_merge_all_unique(s, xs.drop_last());
    if k == xs.len() - 1 {
        lemma_merge_one(merge_all(s, xs.drop_last()), xs.last());
    } else {
        assert forall|j: int| k < j < xs.drop_last().len() implies #[trigger] xs.drop_last()[j].id != xs.drop_last()[k].id by {
            assert(xs[j].id != xs[k].id);
        }
        lemma_merge_all(s, xs.drop_last(), k);
        lemma_merge_one(merge_all(s, xs.drop_last()), xs.last());
        assert(xs.last().id != xs[k].id);
    }
}

proof fn lemma_merge_all_unique(s: Seq<ServerView>, xs: Seq<ServerView>)
    requires
        ids_unique(s),
    ensures
        ids_unique(merge_all(s, xs)),
    decreases xs.len(),
{
    if xs.len() > 0 {
        lemma_merge_all_unique(s, xs.drop_last());
        lemma_merge_one(merge_all(s, xs.drop_last()), xs.last());
    }
}

proof fn lemma_insert_by_name_members(t: Seq<ServerView>, x: ServerView)
    ensures
        insert_by_name(t, x).len() == t.len() + 1,
        forall|y: ServerView| #[trigger] has_server(insert_by_name(t, x), y) <==> (y == x || has_server(t, y)),
        ids_unique(t) && !(exists|i: int| 0 <= i < t.len() && #[trigger] t[i].id == x.id) ==> ids_unique(
            insert_by_name(t, x),
        ),
    decreases t.len(),
{
    let r = insert_by_name(t, x);
    if t.len() == 0 {
        assert(r == seq![x]);
        assert forall|y: ServerView| #[trigger] has_server(r, y) <==> (y == x || has_server(t, y)) by {
            if y == x {
                assert(r[0] == x);
            }
        }
    } else if crate::payload::text_lt(x.name, t.last().name) {
        let u = t.drop_last();
        lemma_insert_by_name_members(u, x);
        let w = insert_by_name(u, x);
        assert(r == w.push(t.last()));
        assert forall|y: ServerView| #[trigger] has_server(r, y) <==> (y == x || has_server(t, y)) by {
            if has_server(r, y) {
                let i = choose|i: int| 0 <= i < r.len() && r[i] == y;
                if i < w.len() {
                    assert(has_server(w, y));
                    if y != x {
                        let j = choose|j: int| 0 <= j < u.len() && u[j] == y;
                        assert(t[j] == y);
                    }
                } else {
                    assert(t[t.len() - 1] == y);
                }
            }
            if y == x {
                assert(has_server(w, y));
                let i = choose|i: int| 0 <= i < w.len() && w[i] == y;
                assert(r[i] == y);
            }
            if has_server(t, y) {
                let j = choose|j: int| 0 <= j < t.len() && t[j] == y;
                if j < t.len() - 1 {
                    assert(u[j] == y);
                    assert(has_server(u, y));
                    assert(has_server(w, y));
                    let i = choose|i: int| 0 <= i < w.len() && w[i] == y;
                    assert(r[i] == y);
                } else {
                    assert(r[r.len() - 1] == y);
                }
            }
        }
        if ids_unique(t) && !(exists|i: int| 0 <= i < t.len() && #[trigger] t[i].id == x.id) {
            assert forall|i: int| 0 <= i < u.len() implies #[trigger] u[i].id != x.id by {
                assert(t[i].id != x.id);
            }
            assert(ids_unique(w));
            assert forall|a: int, b: int| 0 <= a < b < r.len() implies #[trigger] r[a].id != #[trigger] r[b].id by {
                if b == r.len() - 1 {
                    assert(has_server(w, w[a]));
                    assert(w[a] == x || has_server(u, w[a]));
                    if w[a] == x {
                        assert(t[t.len() - 1].id != x.id);
                    } else {
                        let j = choose|j: int| 0 <= j < u.len() && u[j] == w[a];
                        assert(t[j] == w[a]);
                        assert(t[j].id != t[t.len() - 1].id);
                    }
                }
            }
        }
    } else {
        assert(r == t.push(x));
        assert forall|y: ServerView| #[trigger] has_server(r, y) <==> (y == x || has_server(t, y)) by {
            if has_server(r, y) {
                let i = choose|i: int| 0 <= i < r.len() && r[i] == y;
                if i < t.len() {
                    assert(t[i] == y);
                }
            }
            if y == x {
                assert(r[t.len() as int] == y);
            }
            if has_server(t, y) {
                let j = choose|j: int| 0 <= j < t.len() && t[j] == y;
                assert(r[j] == y);
            }
        }
        if ids_unique(t) && !(exists|i: int| 0 <= i < t.len() && #[trigger] t[i].id == x.id) {
            assert forall|a: int, b: int| 0 <= a < b < r.len() implies #[trigger] r[a].id != #[trigger] r[b].id by {
                if b == t.len() {
                    assert(t[a].id != x.id);
                }
            }
        }
    }
}

proof fn lemma_sort_members(s: Seq<ServerView>)
    ensures
        sort_by_name(s).len() == s.len(),
        forall|y: ServerView| #[trigger] has_server(sort_by_name(s), y) <==> has_server(s, y),
        ids_unique(s) ==> ids_unique(sort_by_name(s)),
    decreases s.len(),
{
    if s.len() > 0 {
        let u = s.drop_last();
        lemma_sort_members(u);
        let t = sort_by_name(u);
        lemma_insert_by_name_members(t, s.last());
        assert forall|y: ServerView| #[trigger] has_server(sort_by_name(s), y) <==> has_server(s, y) by {
            if has_server(u, y) {
                let j = choose|j: int| 0 <= j < u.len() && u[j] == y;
                assert(s[j] == y);
            }
            if has_server(s, y) {
                let j = choose|j: int| 0 <= j < s.len() && s[j] == y;
                if j < s.len() - 1 {
                    assert(u[j] == y);
                }
            }
            if y == s.last() {
                assert(s[s.len() - 1] == y);
            }
        }
        if ids_unique(s) {
            assert(ids_unique(u)) by {
                assert forall|a: int, b: int| 0 <= a < b < u.len() implies #[trigger] u[a].id != #[trigger] u[b].id by {
                    assert(s[a] == u[a] && s[b] == u[b]);
                }
            }
            assert(!(exists|i: int| 0 <= i < t.len() && #[trigger] t[i].id == s.last().id)) by {
                if exists|i: int| 0 <= i < t.len() && #[trigger] t[i].id == s.last().id {
                    let i = choose|i: int| 0 <= i < t.len() && #[trigger] t[i].id == s.last().id;
                    assert(has_server(t, t[i]));
                    assert(has_server(u, t[i]));
                    let j = choose|j: int| 0 <= j < u.len() && u[j] == t[i];
                    assert(s[j].id != s[s.len() - 1].id);
                }
            }
        }
    }
}

/// After an import, the server of each imported link can be selected by its
/// identifier and gives back that link's entry (the last of the imported
/// entries with that identifier): the list keeps one server per identifier.
pub proof fn law_import_then_select(s: Seq<ServerView>, xs: Seq<ServerView>, k: int)
    requires
        ids_unique(s),
        0 <= k < xs.len(),
        forall|j: int| k < j < xs.len() ==> #[trigger] xs[j].id != xs[k].id,
    ensures
        ids_unique(sort_by_name(merge_all(s, xs))),
        id_index(sort_by_name(merge_all(s, xs)), xs[k].id) matches Some(i) && sort_by_name(
            merge_all(s, xs),
        )[i] == xs[k],
{
    lemma_merge_all(s, xs, k);
    let m = merge_all(s, xs);
    lemma_sort_members(m);
    let r = sort_by_name(m);
    assert(has_server(r, xs[k]));
    let p = choose|p: int| 0 <= p < r.len() && r[p] == xs[k];
    lemma_id_index(r, xs[k].id);
    match id_index(r, xs[k].id) {
        Some(i) => {
            if i != p {
                if i < p {
                    assert(r[i].id != r[p].id);
                } else {
                    assert(r[p].id != r[i].id);
                }
            }
        },
        None => {
            assert(r[p].id == xs[k].id);
        },
    }
}

proof fn lemma_merge_one_keeps(s: Seq<ServerView>, x: ServerView)
    ensures
        forall|y: ServerView| has_server(s, y) && y.id != x.id ==> #[trigger] has_server(merge_one(s, x), y),
        forall|y: ServerView| #[trigger] has_server(merge_one(s, x), y) ==> y == x || has_server(s, y),
{
    lemma_id_index(s, x.id);
    let r = merge_one(s, x);
    assert forall|y: ServerView| has_server(s, y) && y.id != x.id implies #[trigger] has_server(r, y) by {
        let i = choose|i: int| 0 <= i < s.len() && s[i] == y;
        assert(r[i] == y);
    }
    assert forall|y: ServerView| #[trigger] has_server(r, y) implies y == x || has_server(s, y) by {
        let i = choose|i: int| 0 <= i < r.len() && r[i] == y;
        if i < s.len() && r[i] != x {
            assert(s[i] == y);
        }
    }
}

proof fn lemma_merge_all_keeps(s: Seq<ServerView>, xs: Seq<ServerView>)
    ensures
        forall|y: ServerView|
            has_server(s, y) && (forall|j: int| 0 <= j < xs.len() ==> #[trigger] xs[j].id != y.id)
                ==> #[trigger] has_server(merge_all(s, xs), y),
        forall|y: ServerView|
            #[trigger] has_server(merge_all(s, xs), y) ==> has_server(s, y) || exists|j: int|
                0 <= j < xs.len() && xs[j] == y,
    decreases xs.len(),
{
    if xs.len() > 0 {
        let u = xs.drop_last();
        lemma_merge_all_keeps(s, u);
        let m = merge_all(s, u);
        lemma_merge_one_keeps(m, xs.last());
        assert forall|y: ServerView|
            has_server(s, y) && (forall|j: int| 0 <= j < xs.len() ==> #[trigger] xs[j].id != y.id)
                implies #[trigger] has_server(merge_all(s, xs), y) by {
            assert forall|j: int| 0 <= j < u.len() implies #[trigger] u[j].id != y.id by {
                assert(u[j] == xs[j]);
            }
            assert(has_server(m, y));
            assert(xs[xs.len() - 1].id != y.id);
        }
        assert forall|y: ServerView| #[trigger] has_server(merge_all(s, xs), y) implies has_server(s, y)
            || exists|j: int| 0 <= j < xs.len() && xs[j] == y by {
            if y == xs.last() {
                assert(xs[xs.len() - 1] == y);
            } else {
                assert(has_server(m, y));
                if !has_server(s, y) {
                    let j = choose|j: int| 0 <= j < u.len() && u[j] == y;
                    assert(xs[j] == y);
                }
            }
        }
    }
}

/// An import keeps every server that was in the list before and whose
/// identifier no imported link has, and adds none but the imported ones.
pub proof fn law_import_keeps_other_servers(s: Seq<ServerView>, xs: Seq<ServerView>)
    ensures
        forall|y: ServerView|
            has_server(s, y) && (forall|j: int| 0 <= j < xs.len() ==> #[trigger] xs[j].id != y.id)
                ==> #[trigger] has_server(sort_by_name(merge_all(s, xs)), y),
        forall|y: ServerView|
            #[trigger] has_server(sort_by_name(merge_all(s, xs)), y) ==> has_server(s, y) || exists|j: int|
                0 <= j < xs.len() && xs[j] == y,
{
    lemma_merge_all_keeps(s, xs);
    lemma_sort_members(merge_all(s, xs));
}

/// Importing keeps at most one server per identifier.
pub proof fn law_import_keeps_ids_unique(s: Seq<ServerView>, xs: Seq<ServerView>)
    requires
        ids_unique(s),
    ensures
        ids_unique(sort_by_name(merge_all(s, xs))),
{
    lemma_merge_all_unique(s, xs);
    lemma_sort_members(merge_all(s, xs));
}

/// After an import the servers are ordered by name and are exactly the
/// merged ones.
pub proof fn law_import_sorted(s: Seq<ServerView>, xs: Seq<ServerView>)
    ensures
        crate::servers::sorted_by_name(sort_by_name(merge_all(s, xs))),
        sort_by_name(merge_all(s, xs)).to_multiset() == merge_all(s, xs).to_multiset(),
{
    crate::servers::lemma_sort_by_name(merge_all(s, xs));
}

/// Deleting by identifier leaves no server with that identifier.
pub proof fn law_delete_removes_id(s: Seq<ServerView>, id: Seq<char>)
    ensures
        forall|i: int|
            0 <= i < crate::store::without_id(s, id).len() ==> #[trigger] crate::store::without_id(
                s,
                id,
            )[i].id != id,
{
    assert forall|i: int| 0 <= i < crate::store::without_id(s, id).len() implies #[trigger] crate::store::without_id(s, id)[i].id != id by {
        s.lemma_filter_pred(|x: ServerView| x.id != id, i);
    }
}

proof fn lemma_without_id_unique(s: Seq<ServerView>, id: Seq<char>)
    requires
        ids_unique(s),
    ensures
        ids_unique(crate::store::without_id(s, id)),
    decreases s.len(),
{
    let p = |x: ServerView| x.id != id;
    if s.len() > 0 {
        let u = s.drop_last();
        assert(ids_unique(u)) by {
            assert forall|a: int, b: int| 0 <= a < b < u.len() implies #[trigger] u[a].id != #[trigger] u[b].id by {
                assert(s[a] == u[a] && s[b] == u[b]);
            }
        }
        lemma_without_id_unique(u, id);
        let f = u.filter(p);
        assert(u.push(s.last()) == s);
        u.lemma_filter_push(s.last(), p);
        if p(s.last()) {
            let r = f.push(s.last());
            assert forall|a: int, b: int| 0 <= a < b < r.len() implies #[trigger] r[a].id != #[trigger] r[b].id by {
                if b == f.len() {
                    u.lemma_filter_contains_rev(p, f[a]);
                    let j = choose|j: int| 0 <= j < u.len() && u[j] == f[a];
                    assert(s[j] == u[j]);
                    assert(s[j].id != s[s.len() - 1].id);
                }
            }
        }
    }
}

/// Deleting by identifier keeps every server with another identifier, adds
/// none, and keeps at most one server per identifier.
pub proof fn law_delete_keeps_others(s: Seq<ServerView>, id: Seq<char>)
    ensures
        forall|y: ServerView|
            has_server(s, y) && y.id != id ==> #[trigger] has_server(crate::store::without_id(s, id), y),
        forall|y: ServerView| #[trigger] has_server(crate::store::without_id(s, id), y) ==> has_server(s, y),
        ids_unique(s) ==> ids_unique(crate::store::without_id(s, id)),
{
    let p = |x: ServerView| x.id != id;
    let r = crate::store::without_id(s, id);
    assert forall|y: ServerView| has_server(s, y) && y.id != id implies #[trigger] has_server(r, y) by {
        let i = choose|i: int| 0 <= i < s.len() && s[i] == y;
        s.lemma_filter_contains(p, i);
    }
    assert forall|y: ServerView| #[trigger] has_server(r, y) implies has_server(s, y) by {
        let i = choose|i: int| 0 <= i < r.len() && r[i] == y;
        s.lemma_filter_contains_rev(p, y);
    }
    if ids_unique(s) {
        lemma_without_id_unique(s, id);
    }
}

/// After a failed connection step, the cleanup stops the runtime last, and
/// the steps it undoes are exactly those among the steps that had succeeded.
pub proof fn law_cleanup_undoes_done_steps(done: Seq<ConnectStep>)
    ensures
        cleanup_for(done).len() > 0,
        cleanup_for(done).last() == UndoStep::KillRuntime,
        forall|u: UndoStep|
            #[trigger] cleanup_for(done).contains(u) <==> (u == UndoStep::KillRuntime || exists|j: int|
                0 <= j < done.len() && undo_of(#[trigger] done[j]) == Some(u)),
    decreases done.len(),
{
    if done.len() > 0 {
        let d = done.drop_last();
        law_cleanup_undoes_done_steps(d);
        let c = cleanup_for(d);
        assert forall|u: UndoStep|
            #[trigger] cleanup_for(done).contains(u) <==> (u == UndoStep::KillRuntime || exists|j: int|
                0 <= j < done.len() && undo_of(#[trigger] done[j]) == Some(u)) by {
            if exists|j: int| 0 <= j < done.len() && undo_of(#[trigger] done[j]) == Some(u) {
                let j = choose|j: int| 0 <= j < done.len() && undo_of(#[trigger] done[j]) == Some(u);
                if j < d.len() {
                    assert(d[j] == done[j]);
                    assert(c.contains(u));
                    let i = choose|i: int| 0 <= i < c.len() && c[i] == u;
                    match undo_of(done.last()) {
                        Some(v) => {
                            assert(cleanup_for(done)[i + 1] == u);
                        },
                        None => {},
                    }
                } else {
                    assert(cleanup_for(done)[0] == u);
                }
            }
            if u == UndoStep::KillRuntime {
                assert(c[c.len() - 1] == u);
                match undo_of(done.last()) {
                    Some(v) => {
                        assert(cleanup_for(done)[c.len() as int] == u);
                    },
                    None => {},
                }
            }
            if cleanup_for(done).contains(u) && u != UndoStep::KillRuntime {
                let i = choose|i: int| 0 <= i < cleanup_for(done).len() && cleanup_for(done)[i] == u;
                match undo_of(done.last()) {
                    Some(v) => {
                        if i == 0 {
                            assert(undo_of(done[done.len() - 1]) == Some(u));
                        } else {
                            assert(c[i - 1] == u);
                            assert(c.contains(u));
                            let j = choose|j: int| 0 <= j < d.len() && undo_of(#[trigger] d[j]) == Some(u);
                            assert(done[j] == d[j]);
                        }
                    },
                    None => {
                        assert(c[i] == u);
                        assert(c.contains(u));
                        let j = choose|j: int| 0 <= j < d.len() && undo_of(#[trigger] d[j]) == Some(u);
                        assert(done[j] == d[j]);
                    },
                }
            }
        }
    } else {
        assert(cleanup_for(done) == seq![UndoStep::KillRuntime]);
        assert forall|u: UndoStep| #[trigger] cleanup_for(done).contains(u) <==> u == UndoStep::KillRuntime by {
            if u == UndoStep::KillRuntime {
                assert(cleanup_for(done)[0] == u);
            }
        }
    }
}

/// Characters that mark the parts of a link.
pub open spec fn is_link_mark(ch: char) -> bool {
    ||| ch == '?'
    ||| ch == '#'
    ||| ch == '@'
    ||| ch == '%'
    ||| ch == '$'
    ||| ch == '<'
    ||| ch == '>'
    ||| ch == '&'
    ||| ch == '='
}

/// A field of a link: no marks and no whitespace in it.
pub open spec fn plain_field(s: Seq<char>) -> bool {
    forall|j: int| 0 <= j < s.len() ==> !is_link_mark(#[trigger] s[j]) && !is_space(s[j])
}

/// A payload item `key=value`.
pub open spec fn item_text(e: (Seq<char>, Seq<char>)) -> Seq<char> {
    e.0 + seq!['='] + e.1
}

/// Payload items joined with `&`.
pub open spec fn join_items(s: Seq<(Seq<char>, Seq<char>)>) -> Seq<char>
    decreases s.len(),
{
    if s.len() == 0 {
        Seq::empty()
    } else if s.len() == 1 {
        item_text(s[0])
    } else {
        item_text(s[0]) + seq!['&'] + join_items(s.drop_first())
    }
}

/// The map `m` with the entries `s` set in order (a later entry overrides an
/// earlier one with the same key).
pub open spec fn pairs_into(s: Seq<(Seq<char>, Seq<char>)>, m: Map<Seq<char>, Seq<char>>) -> Map<
    Seq<char>,
    Seq<char>,
>
    decreases s.len(),
{
    if s.len() == 0 {
        m
    } else {
        pairs_into(s.drop_first(), m.insert(s[0].0, s[0].1))
    }
}

/// The link made of its parts; with `section` the payload items stand in a
/// `<...>` section (which may be empty), without it there is no section.
pub open spec fn link_of(
    carrier: Seq<char>,
    transport: Seq<char>,
    items: Seq<(Seq<char>, Seq<char>)>,
    section: bool,
    room: Seq<char>,
    key: Seq<char>,
    client: Seq<char>,
    name: Seq<char>,
) -> Seq<char> {
    crate::uri::scheme() + carrier + seq!['?'] + transport_part(transport, items, section) + seq!['@']
        + room
        + seq!['#'] + secret_part(key, client, name)
}

/// The transport and, with `section`, the payload section of a link.
pub open spec fn transport_part(
    transport: Seq<char>,
    items: Seq<(Seq<char>, Seq<char>)>,
    section: bool,
) -> Seq<char> {
    if section {
        transport + seq!['<'] + join_items(items) + seq!['>']
    } else {
        transport
    }
}

/// The key, client ID and name of a link.
pub open spec fn secret_part(key: Seq<char>, client: Seq<char>, name: Seq<char>) -> Seq<char> {
    key + seq!['%'] + client + seq!['$'] + name
}

/// Whether the keys are non-empty and keys and values are link fields.
pub open spec fn plain_items(s: Seq<(Seq<char>, Seq<char>)>) -> bool {
    forall|j: int| 0 <= j < s.len() ==> #[trigger] s[j].0.len() > 0 && plain_field(s[j].0) && plain_field(s[j].1)
}

proof fn lemma_first_at(a: Seq<char>, b: Seq<char>, ch: char)
    requires
        forall|j: int| 0 <= j < a.len() ==> a[j] != ch,
        b.len() > 0,
        b[0] == ch,
    ensures
        first_index(a + b, ch) == Some(a.len() as int),
        (a + b).take(a.len() as int) == a,
        (a + b).skip(a.len() as int + 1) == b.drop_first(),
{
    crate::text::lemma_first_index_at(a + b, ch, a.len() as int);
    assert((a + b).take(a.len() as int) =~= a);
    assert((a + b).skip(a.len() as int + 1) =~= b.drop_first());
}

proof fn lemma_split_plain(a: Seq<char>, b: Seq<char>, sep: char, cur: Seq<char>, acc: Seq<Seq<char>>)
    requires
        forall|j: int| 0 <= j < a.len() ==> a[j] != sep,
    ensures
        split_from(a + b, sep, cur, acc) == split_from(b, sep, cur + a, acc),
    decreases a.len(),
{
    if a.len() == 0 {
        assert(a + b =~= b);
        assert(cur + a =~= cur);
    } else {
        assert((a + b)[0] == a[0]);
        assert((a + b).drop_first() =~= a.drop_first() + b);
        lemma_split_plain(a.drop_first(), b, sep, cur.push(a[0]), acc);
        assert(cur.push(a[0]) + a.drop_first() =~= cur + a);
    }
}

proof fn lemma_split_join(s: Seq<(Seq<char>, Seq<char>)>, acc: Seq<Seq<char>>)
    requires
        s.len() > 0,
        plain_items(s),
    ensures
        split_from(join_items(s), '&', seq![], acc) == acc + s.map_values(|e: (Seq<char>, Seq<char>)| item_text(e)),
    decreases s.len(),
{
    let it = item_text(s[0]);
    assert(plain_field(s[0].0) && plain_field(s[0].1));
    assert forall|j: int| 0 <= j < it.len() implies it[j] != '&' by {
        if j < s[0].0.len() {
            assert(!is_link_mark(s[0].0[j]));
        } else if j > s[0].0.len() {
            assert(it[j] == s[0].1[j - s[0].0.len() - 1]);
            assert(!is_link_mark(s[0].1[j - s[0].0.len() - 1]));
        }
    }
    if s.len() == 1 {
        lemma_split_plain(it, Seq::empty(), '&', seq![], acc);
        assert(it + Seq::<char>::empty() =~= it);
        assert(seq![] + it =~= it);
        assert(acc + s.map_values(|e: (Seq<char>, Seq<char>)| item_text(e)) =~= acc.push(it));
    } else {
        let rest = s.drop_first();
        assert(plain_items(rest)) by {
            assert forall|j: int| 0 <= j < rest.len() implies #[trigger] rest[j].0.len() > 0
                && plain_field(rest[j].0) && plain_field(rest[j].1) by {
                assert(rest[j] == s[j + 1]);
            }
        }
        assert(join_items(s) =~= it + (seq!['&'] + join_items(rest)));
        lemma_split_plain(it, seq!['&'] + join_items(rest), '&', seq![], acc);
        assert(seq![] + it =~= it);
        assert((seq!['&'] + join_items(rest)).drop_first() =~= join_items(rest));
        lemma_split_join(rest, acc.push(it));
        assert(acc.push(it) + rest.map_values(|e: (Seq<char>, Seq<char>)| item_text(e)) =~= acc
            + s.map_values(|e: (Seq<char>, Seq<char>)| item_text(e)));
    }
}

proof fn lemma_payload_pairs(s: Seq<(Seq<char>, Seq<char>)>, m: Map<Seq<char>, Seq<char>>)
    requires
        plain_items(s),
    ensures
        crate::uri::payload_items(s.map_values(|e: (Seq<char>, Seq<char>)| item_text(e)), m) == Some(
            pairs_into(s, m),
        ),
    decreases s.len(),
{
    let items = s.map_values(|e: (Seq<char>, Seq<char>)| item_text(e));
    if s.len() > 0 {
        let k = s[0].0;
        let v = s[0].1;
        assert(plain_field(k));
        assert forall|j: int| 0 <= j < k.len() implies k[j] != '=' by {
            assert(!is_link_mark(k[j]));
        }
        assert(items[0] == k + (seq!['='] + v));
        lemma_first_at(k, seq!['='] + v, '=');
        assert((seq!['='] + v).drop_first() =~= v);
        let rest = s.drop_first();
        assert(plain_items(rest)) by {
            assert forall|j: int| 0 <= j < rest.len() implies #[trigger] rest[j].0.len() > 0
                && plain_field(rest[j].0) && plain_field(rest[j].1) by {
                assert(rest[j] == s[j + 1]);
            }
        }
        assert(items.drop_first() =~= rest.map_values(|e: (Seq<char>, Seq<char>)| item_text(e)));
        lemma_payload_pairs(rest, m.insert(k, v));
    }
}

proof fn lemma_join_without(s: Seq<(Seq<char>, Seq<char>)>, ch: char)
    requires
        plain_items(s),
        is_link_mark(ch),
        ch != '&',
        ch != '=',
    ensures
        forall|j: int| 0 <= j < join_items(s).len() ==> join_items(s)[j] != ch,
    decreases s.len(),
{
    if s.len() > 0 {
        let it = item_text(s[0]);
        assert(plain_field(s[0].0) && plain_field(s[0].1));
        assert forall|j: int| 0 <= j < it.len() implies it[j] != ch by {
            if j < s[0].0.len() {
                assert(!is_link_mark(s[0].0[j]));
            } else if j > s[0].0.len() {
                assert(it[j] == s[0].1[j - s[0].0.len() - 1]);
                assert(!is_link_mark(s[0].1[j - s[0].0.len() - 1]));
            }
        }
        if s.len() > 1 {
            let rest = s.drop_first();
            assert(plain_items(rest)) by {
                assert forall|j: int| 0 <= j < rest.len() implies #[trigger] rest[j].0.len() > 0
                    && plain_field(rest[j].0) && plain_field(rest[j].1) by {
                    assert(rest[j] == s[j + 1]);
                }
            }
            lemma_join_without(rest, ch);
            let jn = join_items(s);
            assert(jn == it + seq!['&'] + join_items(rest));
            assert forall|j: int| 0 <= j < jn.len() implies jn[j] != ch by {
                if j < it.len() {
                } else if j > it.len() {
                    assert(jn[j] == join_items(rest)[j - it.len() - 1]);
                }
            }
        }
    }
}

proof fn lemma_transport_part(t: Seq<char>, items: Seq<(Seq<char>, Seq<char>)>, section: bool)
    requires
        plain_field(t),
        plain_items(items),
        section || items.len() == 0,
    ensures
        crate::uri::split_transport(transport_part(t, items, section)) == Ok::<(Seq<char>, Map<Seq<char>, Seq<char>>), Seq<char>>((t, pairs_into(items, Map::empty()))),
        forall|j: int|
            0 <= j < transport_part(t, items, section).len() ==> #[trigger] transport_part(t, items, section)[j] != '#'
                && transport_part(t, items, section)[j] != '@' && transport_part(t, items, section)[j] != '?',
{
    let left = transport_part(t, items, section);
    assert forall|j: int| 0 <= j < t.len() implies t[j] != '<' by {
        assert(!is_link_mark(t[j]));
    }
    if !section {
        crate::text::lemma_first_index_none(t, '<');
        assert forall|j: int| 0 <= j < left.len() implies #[trigger] left[j] != '#' && left[j] != '@'
            && left[j] != '?' by {
            assert(!is_link_mark(t[j]));
        }
    } else {
        let jn = join_items(items);
        lemma_join_without(items, '#');
        lemma_join_without(items, '@');
        lemma_join_without(items, '?');
        assert(left =~= t + (seq!['<'] + jn + seq!['>']));
        lemma_first_at(t, seq!['<'] + jn + seq!['>'], '<');
        assert(left.last() == '>');
        assert(crate::text::last_index(left, '>') == Some(left.len() - 1));
        assert(left.subrange(t.len() as int + 1, left.len() - 1) =~= jn);
        if items.len() == 0 {
            assert(jn =~= Seq::<char>::empty());
            let empty = Seq::<char>::empty();
            assert(split_from(empty, '&', seq![], seq![]) == seq![empty]);
            assert(seq![empty].drop_first() =~= Seq::<Seq<char>>::empty());
            assert(crate::uri::payload_items(seq![empty], Map::empty()) == Some(
                Map::<Seq<char>, Seq<char>>::empty(),
            ));
        } else {
            lemma_split_join(items, seq![]);
            assert(Seq::<Seq<char>>::empty() + items.map_values(|e: (Seq<char>, Seq<char>)| item_text(e))
                =~= items.map_values(|e: (Seq<char>, Seq<char>)| item_text(e)));
            lemma_payload_pairs(items, Map::empty());
        }
        assert forall|j: int| 0 <= j < left.len() implies #[trigger] left[j] != '#' && left[j] != '@'
            && left[j] != '?' by {
            if j < t.len() {
                assert(!is_link_mark(t[j]));
            } else if j > t.len() && j < left.len() - 1 {
                assert(left[j] == jn[j - t.len() - 1]);
            }
        }
    }
}

/// Which keys the entries set, and to what.
#[verifier::rlimit(40)]
#[verifier::spinoff_prover]
proof fn lemma_pairs_into(s: Seq<(Seq<char>, Seq<char>)>, m: Map<Seq<char>, Seq<char>>)
    ensures
        forall|k: Seq<char>|
            #[trigger] pairs_into(s, m).contains_key(k) <==> (m.contains_key(k) || exists|j: int|
                0 <= j < s.len() && s[j].0 == k),
        forall|k: Seq<char>|
            m.contains_key(k) && !(exists|j: int| 0 <= j < s.len() && s[j].0 == k) ==> #[trigger] pairs_into(s, m)[k]
                == m[k],
        forall|j: int|
            0 <= j < s.len() && (forall|l: int| j < l < s.len() ==> s[l].0 != s[j].0) ==> pairs_into(s, m)[#[trigger] s[j].0]
                == s[j].1,
    decreases s.len(),
{
    if s.len() > 0 {
        let rest = s.drop_first();
        let m2 = m.insert(s[0].0, s[0].1);
        lemma_pairs_into(rest, m2);
        let r = pairs_into(s, m);
        assert(r == pairs_into(rest, m2));
        assert forall|k: Seq<char>| #[trigger] r.contains_key(k) <==> (m.contains_key(k) || exists|j: int|
            0 <= j < s.len() && s[j].0 == k) by {
            if exists|j: int| 0 <= j < rest.len() && rest[j].0 == k {
                let j = choose|j: int| 0 <= j < rest.len() && rest[j].0 == k;
                assert(s[j + 1].0 == k);
            }
            if exists|j: int| 0 <= j < s.len() && s[j].0 == k {
                let j = choose|j: int| 0 <= j < s.len() && s[j].0 == k;
                if j > 0 {
                    assert(rest[j - 1].0 == k);
                }
            }
        }
        assert forall|k: Seq<char>|
            m.contains_key(k) && !(exists|j: int| 0 <= j < s.len() && s[j].0 == k) implies #[trigger] r[k]
                == m[k] by {
            assert(s[0].0 != k);
            if exists|j: int| 0 <= j < rest.len() && rest[j].0 == k {
                let j = choose|j: int| 0 <= j < rest.len() && rest[j].0 == k;
                assert(s[j + 1].0 == k);
            }
        }
        assert forall|j: int|
            0 <= j < s.len() && (forall|l: int| j < l < s.len() ==> s[l].0 != s[j].0) implies r[#[trigger] s[j].0]
                == s[j].1 by {
            if j == 0 {
                if exists|i: int| 0 <= i < rest.len() && rest[i].0 == s[0].0 {
                    let i = choose|i: int| 0 <= i < rest.len() && rest[i].0 == s[0].0;
                    assert(s[i + 1].0 != s[0].0);
                }
                assert(m2.contains_key(s[0].0));
            } else {
                assert(rest[j - 1] == s[j]);
                assert forall|l: int| j - 1 < l < rest.len() implies #[trigger] rest[l].0 != rest[j - 1].0 by {
                    assert(rest[l] == s[l + 1]);
                }
                assert(pairs_into(rest, m2)[rest[j - 1].0] == rest[j - 1].1);
            }
        }
    }
}

proof fn lemma_secret_part(k: Seq<char>, i: Seq<char>, n: Seq<char>)
    requires
        k.len() > 0,
        i.len() > 0,
        plain_field(k),
        plain_field(i),
    ensures
        crate::uri::split_secret(secret_part(k, i, n)) == Ok::<(Seq<char>, Seq<char>, Seq<char>), Seq<char>>((k, i, n)),
{
    assert forall|j: int| 0 <= j < k.len() implies k[j] != '%' by {
        assert(!is_link_mark(k[j]));
    }
    assert forall|j: int| 0 <= j < i.len() implies i[j] != '$' by {
        assert(!is_link_mark(i[j]));
    }
    let sp = secret_part(k, i, n);
    assert(sp =~= k + (seq!['%'] + (i + (seq!['$'] + n))));
    lemma_first_at(k, seq!['%'] + (i + (seq!['$'] + n)), '%');
    assert((seq!['%'] + (i + (seq!['$'] + n))).drop_first() =~= i + (seq!['$'] + n));
    lemma_first_at(i, seq!['$'] + n, '$');
    assert((seq!['$'] + n).drop_first() =~= n);
}

/// Parsing a link made of its parts gives those parts back: the carrier,
/// transport, room, key and client ID (non-empty), the name, and the payload
/// items (non-empty keys), all free of whitespace and of the characters that
/// mark a link's parts, with a payload section (empty or not) or, when there
/// are no items, without one. The payload is the items' map: it holds exactly
/// the items' keys, each with its last item's value (so with distinct keys it
/// is the map of the items).
#[verifier::rlimit(50)]
#[verifier::spinoff_prover]
pub proof fn law_parse_link_round_trip(
    carrier: Seq<char>,
    transport: Seq<char>,
    items: Seq<(Seq<char>, Seq<char>)>,
    section: bool,
    room: Seq<char>,
    key: Seq<char>,
    client: Seq<char>,
    name: Seq<char>,
)
    requires
        section || items.len() == 0,
        carrier.len() > 0,
        transport.len() > 0,
        room.len() > 0,
        key.len() > 0,
        client.len() > 0,
        plain_field(carrier),
        plain_field(transport),
        plain_field(room),
        plain_field(key),
        plain_field(client),
        plain_field(name),
        plain_items(items),
    ensures
        crate::uri::parse_uri(link_of(carrier, transport, items, section, room, key, client, name)) == Ok::<TargetView, Seq<char>>(
            TargetView {
                carrier,
                transport,
                room_id: room,
                key,
                client_id: client,
                name,
                payload: pairs_into(items, Map::empty()),
            },
        ),
        forall|k: Seq<char>|
            #[trigger] pairs_into(items, Map::empty()).contains_key(k) <==> exists|j: int|
                0 <= j < items.len() && items[j].0 == k,
        forall|j: int|
            0 <= j < items.len() && (forall|l: int| j < l < items.len() ==> items[l].0 != items[j].0)
                ==> pairs_into(items, Map::empty())[#[trigger] items[j].0] == items[j].1,
{
    lemma_pairs_into(items, Map::empty());
    let left = transport_part(transport, items, section);
    let secret = secret_part(key, client, name);
    lemma_transport_part(transport, items, section);
    lemma_secret_part(key, client, name);
    let link = link_of(carrier, transport, items, section, room, key, client, name);
    // no whitespace at either end
    reveal_strlit("olcrtc://");
    assert(crate::uri::scheme() =~= "olcrtc://"@);
    assert(link[0] == 'o');
    if name.len() > 0 {
        assert(link.last() == name.last());
        assert(!is_space(name[name.len() - 1]));
    } else {
        assert(link.last() == '$');
    }
    lemma_strip_both_noop(link, space_pred());
    assert(trim(link) == link);
    assert(link.take(9) =~= crate::uri::scheme());
    let after = left + seq!['@'] + room + seq!['#'] + secret;
    assert(link.skip(9) =~= carrier + (seq!['?'] + after));
    assert forall|j: int| 0 <= j < carrier.len() implies carrier[j] != '?' by {
        assert(!is_link_mark(carrier[j]));
    }
    lemma_first_at(carrier, seq!['?'] + after, '?');
    assert((seq!['?'] + after).drop_first() =~= after);
    let before_secret = left + seq!['@'] + room;
    assert(after =~= before_secret + (seq!['#'] + secret));
    assert forall|j: int| 0 <= j < before_secret.len() implies before_secret[j] != '#' by {
        if j < left.len() {
        } else if j > left.len() {
            assert(before_secret[j] == room[j - left.len() - 1]);
            assert(!is_link_mark(room[j - left.len() - 1]));
        }
    }
    lemma_first_at(before_secret, seq!['#'] + secret, '#');
    assert((seq!['#'] + secret).drop_first() =~= secret);
    assert(before_secret =~= left + (seq!['@'] + room));
    lemma_first_at(left, seq!['@'] + room, '@');
    assert((seq!['@'] + room).drop_first() =~= room);
}


// ---------------------------------------------------------------------------
// Rewriting proxy requests
// ---------------------------------------------------------------------------

proof fn lemma_encode_concat(a: Seq<char>, b: Seq<char>)
    ensures
        encode_utf8(a + b) == encode_utf8(a) + encode_utf8(b),
    decreases a.len(),
{
    if a.len() == 0 {
        assert(a + b =~= b);
        assert(encode_utf8(a) + encode_utf8(b) =~= encode_utf8(b));
    } else {
        assert((a + b)[0] == a[0]);
        assert((a + b).drop_first() =~= a.drop_first() + b);
        lemma_encode_concat(a.drop_first(), b);
        assert(encode_utf8(a + b) =~= encode_scalar(a[0] as u32) + (encode_utf8(a.drop_first())
            + encode_utf8(b)));
    }
}

proof fn lemma_scalar_no_cr(c: char)
    requires
        c != '\r',
    ensures
        forall|j: int| 0 <= j < encode_scalar(c as u32).len() ==> #[trigger] encode_scalar(c as u32)[j] != 13u8,
{
    let v = c as u32;
    assert(v != 13u32);
    if v <= 0x7F {
        assert((v & 0x7F) as u8 != 13u8) by (bit_vector)
            requires
                v <= 0x7F,
                v != 13u32,
        ;
    } else {
        assert(forall|x: u8| (0xC0u8 | x) != 13u8) by (bit_vector);
        assert(forall|x: u8| (0xE0u8 | x) != 13u8) by (bit_vector);
        assert(forall|x: u8| (0xF0u8 | x) != 13u8) by (bit_vector);
        assert(forall|x: u8| (0x80u8 | x) != 13u8) by (bit_vector);
    }
}

proof fn lemma_encode_no_cr(s: Seq<char>)
    requires
        forall|j: int| 0 <= j < s.len() ==> #[trigger] s[j] != '\r',
    ensures
        forall|j: int| 0 <= j < encode_utf8(s).len() ==> #[trigger] encode_utf8(s)[j] != 13u8,
    decreases s.len(),
{
    if s.len() > 0 {
        lemma_scalar_no_cr(s[0]);
        assert forall|j: int| 0 <= j < s.drop_first().len() implies s.drop_first()[j] != '\r' by {
            assert(s.drop_first()[j] == s[j + 1]);
        }
        lemma_encode_no_cr(s.drop_first());
        let h = encode_scalar(s[0] as u32);
        assert forall|j: int| 0 <= j < encode_utf8(s).len() implies encode_utf8(s)[j] != 13u8 by {
            if j >= h.len() {
                assert(encode_utf8(s)[j] == encode_utf8(s.drop_first())[j - h.len()]);
            }
        }
    }
}

/// A word: not empty, no whitespace in it.
spec fn is_word(w: Seq<char>) -> bool {
    w.len() > 0 && forall|k: int| 0 <= k < w.len() ==> !is_space(#[trigger] w[k])
}

proof fn lemma_words_are_words(s: Seq<char>, cur: Seq<char>, acc: Seq<Seq<char>>)
    requires
        forall|i: int| 0 <= i < acc.len() ==> is_word(#[trigger] acc[i]),
        forall|k: int| 0 <= k < cur.len() ==> !is_space(#[trigger] cur[k]),
    ensures
        forall|i: int| 0 <= i < words_from(s, cur, acc).len() ==> is_word(#[trigger] words_from(s, cur, acc)[i]),
    decreases s.len(),
{
    let acc2 = if cur.len() > 0 { acc.push(cur) } else { acc };
    assert forall|i: int| 0 <= i < acc2.len() implies is_word(#[trigger] acc2[i]) by {
        if i < acc.len() {
            assert(acc2[i] == acc[i]);
        } else {
            assert(acc2[i] == cur);
        }
    }
    if s.len() == 0 {
        assert(words_from(s, cur, acc) == acc2);
    } else if is_space(s[0]) {
        assert(words_from(s, cur, acc) == words_from(s.drop_first(), seq![], acc2));
        lemma_words_are_words(s.drop_first(), seq![], acc2);
    } else {
        let c2 = cur.push(s[0]);
        assert forall|k: int| 0 <= k < c2.len() implies !is_space(#[trigger] c2[k]) by {
            if k < cur.len() {
                assert(c2[k] == cur[k]);
            }
        }
        assert(words_from(s, cur, acc) == words_from(s.drop_first(), c2, acc));
        lemma_words_are_words(s.drop_first(), c2, acc);
    }
}

proof fn lemma_words_plain(a: Seq<char>, rest: Seq<char>, cur: Seq<char>, acc: Seq<Seq<char>>)
    requires
        forall|k: int| 0 <= k < a.len() ==> !is_space(#[trigger] a[k]),
    ensures
        words_from(a + rest, cur, acc) == words_from(rest, cur + a, acc),
    decreases a.len(),
{
    if a.len() == 0 {
        assert(a + rest =~= rest);
        assert(cur + a =~= cur);
    } else {
        assert((a + rest)[0] == a[0]);
        assert((a + rest).drop_first() =~= a.drop_first() + rest);
        lemma_words_plain(a.drop_first(), rest, cur.push(a[0]), acc);
        assert(cur.push(a[0]) + a.drop_first() =~= cur + a);
    }
}

proof fn lemma_words_three(m: Seq<char>, p: Seq<char>, v: Seq<char>)
    requires
        is_word(m),
        is_word(p),
        is_word(v),
    ensures
        words(m + " "@ + p + " "@ + v) == seq![m, p, v],
{
    reveal_strlit(" ");
    let sp = seq![' '];
    assert(" "@ =~= sp);
    let s = m + sp + p + sp + v;
    let t1 = sp + (p + (sp + v));
    assert(s =~= m + t1);
    lemma_words_plain(m, t1, seq![], seq![]);
    assert(seq![] + m =~= m);
    assert(is_space(' '));
    assert(t1[0] == ' ');
    assert(t1.drop_first() =~= p + (sp + v));
    lemma_words_plain(p, sp + v, seq![], seq![m]);
    assert(seq![] + p =~= p);
    assert((sp + v)[0] == ' ');
    assert((sp + v).drop_first() =~= v);
    lemma_words_plain(v, Seq::empty(), seq![], seq![m].push(p));
    assert(v + Seq::<char>::empty() =~= v);
    assert(seq![] + v =~= v);
    assert(seq![m].push(p).push(v) =~= seq![m, p, v]);
}

proof fn lemma_crlf_bytes()
    ensures
        encode_utf8("\r\n"@) == seq![13u8, 10u8],
{
    reveal_strlit("\r\n");
    let s = "\r\n"@;
    assert(s =~= seq!['\r', '\n']);
    assert(('\r' as u32) == 13u32);
    assert(('\n' as u32) == 10u32);
    assert((13u32 & 0x7F) as u8 == 13u8) by (bit_vector);
    assert((10u32 & 0x7F) as u8 == 10u8) by (bit_vector);
    assert(encode_scalar(13u32) == seq![13u8]);
    assert(encode_scalar(10u32) == seq![10u8]);
    assert(s.drop_first() =~= seq!['\n']);
    assert(seq!['\n'].drop_first() =~= Seq::<char>::empty());
    assert(encode_utf8(Seq::<char>::empty()) =~= Seq::<u8>::empty());
    assert(encode_utf8(seq!['\n']) =~= seq![10u8]);
    assert(encode_utf8(s) =~= seq![13u8, 10u8]);
}

/// A head line without `\r`, then `\r\n`, then anything: the first `\r\n` is
/// the one after the head line, and the bytes before it decode to the line.
proof fn lemma_head_line(line: Seq<char>, tail: Seq<u8>)
    requires
        forall|q: int| 0 <= q < line.len() ==> #[trigger] line[q] != '\r',
    ensures
        ({
            let r = encode_utf8(line + "\r\n"@) + tail;
            let n = encode_utf8(line).len() as int;
            &&& first_crlf(r) == Some(n)
            &&& decoded(r.take(n)) == line
            &&& r.skip(n + 2) == tail
        }),
{
    lemma_crlf_bytes();
    lemma_encode_concat(line, "\r\n"@);
    lemma_encode_no_cr(line);
    let r = encode_utf8(line + "\r\n"@) + tail;
    let n = encode_utf8(line).len() as int;
    assert(r =~= encode_utf8(line) + (seq![13u8, 10u8] + tail));
    assert(crlf_at(r, n));
    assert forall|j: int| 0 <= j < n implies !crlf_at(r, j) by {
        assert(r[j] == encode_utf8(line)[j]);
    }
    let k2 = choose|i: int| crlf_at(r, i) && forall|j: int| 0 <= j < i ==> !crlf_at(r, j);
    assert(crlf_at(r, k2) && forall|j: int| 0 <= j < k2 ==> !crlf_at(r, j));
    if k2 < n {
        assert(!crlf_at(r, k2));
    } else if k2 > n {
        assert(!crlf_at(r, n));
    }
    assert(r.take(n) =~= encode_utf8(line));
    assert(r.skip(n + 2) =~= tail);
    vstd::utf8::encode_utf8_valid_utf8(line);
    vstd::utf8::encode_utf8_decode_utf8(line);
}

/// The parts of a rewritten first line: method, path and version are words,
/// and the path starts with `/`.
proof fn lemma_rewrite_parts(line: Seq<char>)
    requires
        has_prefix(word_or(words(line), 1, ""@), http_scheme()),
    ensures
        words(line).len() > 1,
        is_word(words(line)[0]),
        is_word(origin_path(word_or(words(line), 1, ""@))),
        origin_path(word_or(words(line), 1, ""@))[0] == '/',
        is_word(word_or(words(line), 2, "HTTP/1.1"@)),
{
    reveal_strlit("");
    reveal_strlit("HTTP/1.1");
    reveal_strlit("/");
    let ws = words(line);
    lemma_words_are_words(line, seq![], seq![]);
    if ws.len() <= 1 {
        assert(""@.len() == 0);
    }
    let target = ws[1];
    assert(is_word(target));
    let after = target.skip(7);
    let p = origin_path(target);
    crate::text::lemma_first_index(after, '/');
    match first_index(after, '/') {
        Some(j) => {
            assert(p =~= after.skip(j));
            assert forall|q: int| 0 <= q < p.len() implies !is_space(#[trigger] p[q]) by {
                assert(p[q] == target[q + j + 7]);
            }
        },
        None => {
            assert("/"@ =~= seq!['/']);
        },
    }
    if ws.len() <= 2 {
        assert("HTTP/1.1"@ =~= seq!['H', 'T', 'T', 'P', '/', '1', '.', '1']);
    }
}

/// The first line that a rewrite sends: method, origin path and version.
spec fn origin_line(line: Seq<char>) -> Seq<char> {
    let ws = words(line);
    word_or(ws, 0, ""@) + " "@ + origin_path(word_or(ws, 1, ""@)) + " "@ + word_or(ws, 2, "HTTP/1.1"@)
}

/// The line a rewrite sends holds no `\r`, and its target is no absolute
/// `http://` URL.
proof fn lemma_origin_line(line: Seq<char>)
    requires
        has_prefix(word_or(words(line), 1, ""@), http_scheme()),
    ensures
        forall|q: int| 0 <= q < origin_line(line).len() ==> #[trigger] origin_line(line)[q] != '\r',
        !has_prefix(word_or(words(origin_line(line)), 1, ""@), http_scheme()),
{
    reveal_strlit(" ");
    let ws = words(line);
    lemma_rewrite_parts(line);
    let m = ws[0];
    let p = origin_path(word_or(ws, 1, ""@));
    let v = word_or(ws, 2, "HTTP/1.1"@);
    let line2 = origin_line(line);
    assert(line2 == m + " "@ + p + " "@ + v);
    assert(" "@ =~= seq![' ']);
    assert forall|q: int| 0 <= q < line2.len() implies #[trigger] line2[q] != '\r' by {
        if q < m.len() {
            assert(!is_space(m[q]));
        } else if q > m.len() && q < m.len() + 1 + p.len() {
            assert(line2[q] == p[q - m.len() - 1]);
            assert(!is_space(p[q - m.len() - 1]));
        } else if q > m.len() + 1 + p.len() {
            assert(line2[q] == v[q - m.len() - 2 - p.len()]);
            assert(!is_space(v[q - m.len() - 2 - p.len()]));
        }
    }
    lemma_words_three(m, p, v);
    assert(word_or(words(line2), 1, ""@) == p);
    assert(!has_prefix(p, http_scheme())) by {
        if has_prefix(p, http_scheme()) {
            assert(p.take(7)[0] == p[0]);
        }
    }
}

/// A request whose rewrite keeps it.
proof fn lemma_rewrite_keeps(r: Seq<u8>, n: int)
    requires
        first_crlf(r) == Some(n),
        !has_prefix(word_or(words(decoded(r.take(n))), 1, ""@), http_scheme()),
    ensures
        rewrite_result(r) == r,
{
}

proof fn lemma_min_crlf(s: Seq<u8>, i: int)
    requires
        crlf_at(s, i),
    ensures
        exists|k: int| crlf_at(s, k) && forall|j: int| 0 <= j < k ==> !crlf_at(s, j),
    decreases i,
{
    if exists|j: int| 0 <= j < i && crlf_at(s, j) {
        let j = choose|j: int| 0 <= j < i && crlf_at(s, j);
        lemma_min_crlf(s, j);
    } else {
        assert(crlf_at(s, i) && forall|j: int| 0 <= j < i ==> !crlf_at(s, j));
    }
}

/// The first `\r\n` is a `\r\n`, and none comes before it.
proof fn lemma_first_crlf_is_crlf(s: Seq<u8>)
    ensures
        first_crlf(s) matches Some(e) ==> crlf_at(s, e) && forall|j: int| 0 <= j < e ==> !crlf_at(s, j),
{
    if exists|i: int| crlf_at(s, i) {
        let i = choose|i: int| crlf_at(s, i);
        lemma_min_crlf(s, i);
    }
}

/// The form of a rewritten request.
proof fn lemma_rewritten_form(request: Seq<u8>, e: int)
    requires
        first_crlf(request) == Some(e),
        has_prefix(word_or(words(decoded(request.take(e))), 1, ""@), http_scheme()),
    ensures
        rewrite_result(request) == encode_utf8(origin_line(decoded(request.take(e))) + "\r\n"@)
            + request.skip(e + 2),
{
}

/// A request made of a head line (no `\r`, no absolute `http://` target),
/// `\r\n` and a tail is kept by a rewrite and ends with the tail.
proof fn lemma_head_line_kept(r: Seq<u8>, line: Seq<char>, tail: Seq<u8>)
    requires
        r == encode_utf8(line + "\r\n"@) + tail,
        forall|q: int| 0 <= q < line.len() ==> #[trigger] line[q] != '\r',
        !has_prefix(word_or(words(line), 1, ""@), http_scheme()),
    ensures
        rewrite_result(r) == r,
{
    lemma_head_line(line, tail);
    let n = encode_utf8(line).len() as int;
    lemma_rewrite_keeps(r, n);
}

proof fn lemma_tail_suffix(h: Seq<u8>, tail: Seq<u8>)
    ensures
        tail.is_suffix_of(h + tail),
{
    assert(tail =~= (h + tail).subrange(h.len() as int, (h + tail).len() as int));
}

/// A rewritten request is left unchanged by a second rewrite, and it ends with
/// the request's bytes after its first `\r\n`.
proof fn lemma_rewritten_stable(request: Seq<u8>, e: int)
    requires
        first_crlf(request) == Some(e),
        has_prefix(word_or(words(decoded(request.take(e))), 1, ""@), http_scheme()),
    ensures
        rewrite_result(rewrite_result(request)) == rewrite_result(request),
        request.skip(e + 2).is_suffix_of(rewrite_result(request)),
{
    let line = decoded(request.take(e));
    lemma_rewritten_form(request, e);
    lemma_origin_line(line);
    lemma_head_line_kept(rewrite_result(request), origin_line(line), request.skip(e + 2));
    lemma_tail_suffix(encode_utf8(origin_line(line) + "\r\n"@), request.skip(e + 2));
}

/// What `rewrite_http_proxy_request` sends keeps the request's tail after its
/// first `\r\n` (headers and body), sends a request without `\r\n` or without
/// an absolute `http://` target unchanged, and is left unchanged by a second
/// rewrite.
pub proof fn law_rewrite_keeps_tail_and_is_stable(request: Seq<u8>)
    ensures
        first_crlf(request) is None ==> rewrite_result(request) == request,
        first_crlf(request) matches Some(e) ==> request.skip(e + 2).is_suffix_of(rewrite_result(request)),
        first_crlf(request) matches Some(e) && !has_prefix(
            word_or(words(decoded(request.take(e))), 1, ""@),
            http_scheme(),
        ) ==> rewrite_result(request) == request,
        rewrite_result(rewrite_result(request)) == rewrite_result(request),
{
    match first_crlf(request) {
        None => {},
        Some(e) => {
            lemma_first_crlf_is_crlf(request);
            let target = word_or(words(decoded(request.take(e))), 1, ""@);
            if !has_prefix(target, http_scheme()) {
                assert(request.skip(e + 2) =~= request.subrange(
                    request.len() - request.skip(e + 2).len(),
                    request.len() as int,
                ));
            } else {
                lemma_rewritten_stable(request, e);
            }
        },
    }
}

proof fn lemma_apply_three(reg: Map<Seq<char>, Seq<char>>, cs: Seq<RegChange>)
    requires
        cs.len() == 3,
    ensures
        apply_changes(reg, cs) == apply_change(apply_change(apply_change(reg, cs[0]), cs[1]), cs[2]),
{
    let r1 = apply_change(reg, cs[0]);
    let r2 = apply_change(r1, cs[1]);
    let r3 = apply_change(r2, cs[2]);
    let c1 = cs.drop_first();
    let c2 = c1.drop_first();
    let c3 = c2.drop_first();
    assert(c1[0] == cs[1]);
    assert(c2[0] == cs[2]);
    assert(c3.len() == 0);
    assert(apply_changes(r3, c3) == r3);
    assert(apply_changes(r2, c2) == apply_changes(r3, c3));
    assert(apply_changes(r1, c1) == apply_changes(r2, c2));
}

/// Restoring the proxy settings saved from the registry `reg` puts back each
/// of the three values (a value that was not set is deleted) and leaves every
/// other value of `other` alone; so turning the system proxy on and then
/// restoring what was saved before gives back the registry as it was. The
/// saved values are taken to be the registry's values.
pub proof fn law_restore_undoes_enable(reg: Map<Seq<char>, Seq<char>>, other: Map<Seq<char>, Seq<char>>, address: Seq<char>)
    ensures
        ({
            let back = apply_changes(
                other,
                restore_changes(
                    saved_value(reg, "ProxyEnable"@),
                    saved_value(reg, "ProxyServer"@),
                    saved_value(reg, "ProxyOverride"@),
                ),
            );
            forall|n: Seq<char>|
                #![trigger back.contains_key(n)]
                #![trigger back[n]]
                saved_value(back, n) == if n == "ProxyEnable"@ || n == "ProxyServer"@ || n
                    == "ProxyOverride"@ {
                    saved_value(reg, n)
                } else {
                    saved_value(other, n)
                }
        }),
        apply_changes(
            apply_changes(reg, enable_changes(address)),
            restore_changes(
                saved_value(reg, "ProxyEnable"@),
                saved_value(reg, "ProxyServer"@),
                saved_value(reg, "ProxyOverride"@),
            ),
        ) == reg,
{
    reveal_strlit("ProxyEnable");
    reveal_strlit("ProxyServer");
    reveal_strlit("ProxyOverride");
    let pe = "ProxyEnable"@;
    let ps = "ProxyServer"@;
    let po = "ProxyOverride"@;
    assert(pe[5] != ps[5]);
    assert(pe[5] != po[5]);
    assert(ps.len() != po.len());
    let rc = restore_changes(saved_value(reg, pe), saved_value(reg, ps), saved_value(reg, po));
    lemma_apply_three(other, rc);
    let back = apply_changes(other, rc);
    assert forall|n: Seq<char>|
        #![trigger back.contains_key(n)]
        #![trigger back[n]]
        saved_value(back, n) == if n == pe || n == ps || n == po {
            saved_value(reg, n)
        } else {
            saved_value(other, n)
        } by {}
    let on = apply_changes(reg, enable_changes(address));
    lemma_apply_three(reg, enable_changes(address));
    lemma_apply_three(on, rc);
    let r2 = apply_changes(on, rc);
    assert forall|n: Seq<char>| #[trigger] r2.contains_key(n) <==> reg.contains_key(n) by {}
    assert forall|n: Seq<char>| r2.contains_key(n) implies #[trigger] r2[n] == reg[n] by {}
    assert(r2 =~= reg);
}

/// Whitespace around a link does not change what it means.
pub proof fn law_parse_ignores_surrounding_space(s: Seq<char>)
    ensures
        crate::uri::parse_uri(trim(s)) == crate::uri::parse_uri(s),
{
    lemma_trim_idempotent(s);
}

} // verus!

//! `olcrtc://` links and the runtime targets they describe.
//!
//! A link has the shape
//! `olcrtc://CARRIER?TRANSPORT[<k=v&k=v>]@ROOM#KEY%CLIENT[$NAME]`.
use vstd::prelude::*;

use crate::payload::Payload;
use crate::text::{
    chars_of, first_index, has_prefix, index_of, last_index, last_index_of, split_chars, split_on,
    starts_with_chars, string_of, sub_chars, trim, trim_chars, views,
};

verus! {

/// What a runtime target holds, as plain values.
pub struct TargetView {
    pub carrier: Seq<char>,
    pub transport: Seq<char>,
    pub room_id: Seq<char>,
    pub key: Seq<char>,
    pub client_id: Seq<char>,
    pub name: Seq<char>,
    pub payload: Map<Seq<char>, Seq<char>>,
}

/// A parsed `olcrtc://` link: where and how the runtime connects.
#[derive(Debug, Clone, PartialEq, Eq)]
pub struct RuntimeTarget {
    pub carrier: String,
    pub transport: String,
    pub room_id: String,
    pub key: String,
    pub client_id: String,
    pub name: String,
    pub payload: Payload,
}

/// The part of a runtime target that may be shown to the user.
#[derive(Debug, Clone, PartialEq, Eq)]
pub struct PublicTarget {
    pub carrier: String,
    pub transport: String,
    pub name: String,
}

impl View for RuntimeTarget {
    type V = TargetView;

    open spec fn view(&self) -> TargetView {
        TargetView {
            carrier: self.carrier@,
            transport: self.transport@,
            room_id: self.room_id@,
            key: self.key@,
            client_id: self.client_id@,
            name: self.name@,
            payload: self.payload.as_map(),
        }
    }
}

impl RuntimeTarget {
    /// The carrier, transport and name, without the secrets.
    pub fn public(&self) -> (p: PublicTarget)
        ensures
            p.carrier@ == self.carrier@,
            p.transport@ == self.transport@,
            p.name@ == self.name@,
    {
        PublicTarget {
            carrier: self.carrier.clone(),
            transport: self.transport.clone(),
            name: self.name.clone(),
        }
    }
}

/// `olcrtc://`
pub open spec fn scheme() -> Seq<char> {
    seq!['o', 'l', 'c', 'r', 't', 'c', ':', '/', '/']
}

/// The payload map written by the `&`-separated `key=value` items, read from
/// the left into `m`: empty items are skipped, a later item overrides an
/// earlier one with the same key, and an item without `=` or with an empty
/// key makes the payload invalid (`None`).
pub open spec fn payload_items(items: Seq<Seq<char>>, m: Map<Seq<char>, Seq<char>>) -> Option<
    Map<Seq<char>, Seq<char>>,
>
    decreases items.len(),
{
    if items.len() == 0 {
        Some(m)
    } else {
        let item = items[0];
        if item.len() == 0 {
            payload_items(items.drop_first(), m)
        } else {
            match first_index(item, '=') {
                None => None,
                Some(e) => if e == 0 {
                    None
                } else {
                    payload_items(items.drop_first(), m.insert(item.take(e), item.skip(e + 1)))
                },
            }
        }
    }
}

/// The transport and payload of the part before `@`: a `<...>` section runs
/// from the first `<` to the last `>` and holds the payload items.
pub open spec fn split_transport(left: Seq<char>) -> Result<
    (Seq<char>, Map<Seq<char>, Seq<char>>),
    Seq<char>,
> {
    match first_index(left, '<') {
        None => Ok((left, Map::empty())),
        Some(start) => match last_index(left, '>') {
            None => Err("URI payload is invalid"@),
            Some(end) => if end <= start {
                Err("URI payload is invalid"@)
            } else {
                match payload_items(split_on(left.subrange(start + 1, end), '&'), Map::empty()) {
                    None => Err("URI payload item is invalid"@),
                    Some(m) => Ok((left.take(start), m)),
                }
            },
        },
    }
}

/// The fields after `#`: shared key, client ID and optional name.
pub open spec fn split_secret(secret: Seq<char>) -> Result<(Seq<char>, Seq<char>, Seq<char>), Seq<char>> {
    match first_index(secret, '%') {
        None => Err("URI shared key is required"@),
        Some(p) => {
            let key = secret.take(p);
            let tail = secret.skip(p + 1);
            if key.len() == 0 {
                Err("URI shared key is required"@)
            } else {
                let client_id = match first_index(tail, '$') {
                    Some(d) => tail.take(d),
                    None => tail,
                };
                let name = match first_index(tail, '$') {
                    Some(d) => tail.skip(d + 1),
                    None => Seq::empty(),
                };
                if client_id.len() == 0 {
                    Err("URI client ID is required"@)
                } else {
                    Ok((key, client_id, name))
                }
            }
        },
    }
}

/// What an `olcrtc://` link means, or the message that rejects it. The link is
/// trimmed first; `carrier` runs up to the first `?`, the part up to the first
/// `#` after it holds transport and room (split at its first `@`), the rest
/// holds key and client.
pub open spec fn parse_uri(input: Seq<char>) -> Result<TargetView, Seq<char>> {
    let raw = trim(input);
    if raw.len() == 0 {
        Err("URI is required"@)
    } else if !has_prefix(raw, scheme()) {
        Err("URI must start with olcrtc://"@)
    } else {
        let rest = raw.skip(9);
        match first_index(rest, '?') {
            None => Err("URI carrier is required"@),
            Some(q) => {
                let carrier = rest.take(q);
                let after = rest.skip(q + 1);
                if carrier.len() == 0 {
                    Err("URI carrier is required"@)
                } else {
                    match first_index(after, '#') {
                        None => Err("URI key is required"@),
                        Some(h) => {
                            let before_secret = after.take(h);
                            let secret = after.skip(h + 1);
                            match first_index(before_secret, '@') {
                                None => Err("URI room ID is required"@),
                                Some(a) => {
                                    let left = before_secret.take(a);
                                    let room_id = before_secret.skip(a + 1);
                                    if room_id.len() == 0 {
                                        Err("URI room ID is required"@)
                                    } else {
                                        match split_secret(secret) {
                                            Err(e) => Err(e),
                                            Ok((key, client_id, name)) => match split_transport(
                                                left,
                                            ) {
                                                Err(e) => Err(e),
                                                Ok((transport, payload)) => if transport.len()
                                                    == 0 {
                                                    Err("URI transport is required"@)
                                                } else {
                                                    Ok(
                                                        TargetView {
                                                            carrier,
                                                            transport,
                                                            room_id,
                                                            key,
                                                            client_id,
                                                            name,
                                                            payload,
                                                        },
                                                    )
                                                },
                                            },
                                        }
                                    }
                                },
                            }
                        },
                    }
                }
            },
        }
    }
}

fn fail<T>(msg: &str) -> (r: Result<T, String>)
    ensures
        r matches Err(e) && e@ == msg@,
{
    Err(String::from_str(msg))
}

/// The payload items of `inner` (the text between `<` and `>`).
fn parse_payload(inner: &[char]) -> (r: Option<Payload>)
    ensures
        match payload_items(split_on(inner@, '&'), Map::empty()) {
            Some(m) => r matches Some(p) && p.wf() && p.as_map() == m,
            None => r is None,
        },
{
    let items = split_chars(inner, '&');
    let ghost all = views(items@);
    let mut p = Payload::new();
    let mut i: usize = 0;
    assert(all.skip(0) =~= all);
    while i < items.len()
        invariant
            i <= items@.len(),
            all == views(items@),
            all == split_on(inner@, '&'),
            p.wf(),
            payload_items(all, Map::empty()) == payload_items(all.skip(i as int), p.as_map()),
        decreases items.len() - i,
    {
        let item = &items[i];
        let ghost rest = all.skip(i as int);
        assert(rest[0] == item@);
        assert(rest.drop_first() =~= all.skip(i + 1));
        if item.len() > 0 {
            match index_of(item.as_slice(), '=') {
                None => {
                    return None;
                },
                Some(e) => {
                    if e == 0 {
                        return None;
                    }
                    let k = sub_chars(item.as_slice(), 0, e);
                    let v = sub_chars(item.as_slice(), e + 1, item.len());
                    assert(k@ =~= item@.take(e as int));
                    assert(v@ =~= item@.skip(e + 1));
                    p.insert(string_of(k.as_slice()), string_of(v.as_slice()));
                },
            }
        }
        i = i + 1;
    }
    assert(all.skip(i as int) =~= Seq::<Seq<char>>::empty());
    Some(p)
}

/// Transport and payload of the part before `@`.
fn parse_transport(left: &[char]) -> (r: Result<(Vec<char>, Payload), String>)
    ensures
        match split_transport(left@) {
            Ok((t, m)) => r matches Ok((x, p)) && x@ == t && p.wf() && p.as_map() == m,
            Err(e) => r matches Err(x) && x@ == e,
        },
{
    match index_of(left, '<') {
        None => {
            let t = sub_chars(left, 0, left.len());
            assert(t@ =~= left@);
            Ok((t, Payload::new()))
        },
        Some(start) => {
            match last_index_of(left, '>') {
                None => fail("URI payload is invalid"),
                Some(end) => {
                    if end <= start {
                        return fail("URI payload is invalid");
                    }
                    let inner = sub_chars(left, start + 1, end);
                    match parse_payload(inner.as_slice()) {
                        None => fail("URI payload item is invalid"),
                        Some(p) => {
                            let t = sub_chars(left, 0, start);
                            assert(t@ =~= left@.take(start as int));
                            Ok((t, p))
                        },
                    }
                },
            }
        },
    }
}

/// Shared key, client ID and name after `#`.
fn parse_secret(secret: &[char]) -> (r: Result<(Vec<char>, Vec<char>, Vec<char>), String>)
    ensures
        match split_secret(secret@) {
            Ok((k, c, n)) => r matches Ok((x, y, z)) && x@ == k && y@ == c && z@ == n,
            Err(e) => r matches Err(x) && x@ == e,
        },
{
    let n = secret.len();
    match index_of(secret, '%') {
        None => fail("URI shared key is required"),
        Some(p) => {
            let key = sub_chars(secret, 0, p);
            let tail = sub_chars(secret, p + 1, n);
            assert(key@ =~= secret@.take(p as int));
            assert(tail@ =~= secret@.skip(p + 1));
            if key.len() == 0 {
                return fail("URI shared key is required");
            }
            let (client_id, name) = match index_of(tail.as_slice(), '$') {
                Some(d) => {
                    let c = sub_chars(tail.as_slice(), 0, d);
                    let n = sub_chars(tail.as_slice(), d + 1, tail.len());
                    assert(c@ =~= tail@.take(d as int));
                    assert(n@ =~= tail@.skip(d + 1));
                    (c, n)
                },
                None => {
                    let n: Vec<char> = Vec::new();
                    assert(n@ =~= Seq::<char>::empty());
                    (tail, n)
                },
            };
            if client_id.len() == 0 {
                return fail("URI client ID is required");
            }
            Ok((key, client_id, name))
        },
    }
}

/// Reads an `olcrtc://` link. Every field but the name must be non-empty; on
/// failure the message says which part is missing or malformed.
pub fn parse_runtime_uri(raw: &str) -> (r: Result<RuntimeTarget, String>)
    ensures
        match parse_uri(raw@) {
            Ok(t) => r matches Ok(x) && x@ == t && x.payload.wf(),
            Err(e) => r matches Err(x) && x@ == e,
        },
{
    let all = chars_of(raw);
    let v = trim_chars(all.as_slice());
    if v.len() == 0 {
        return fail("URI is required");
    }
    let scheme_v = vec!['o', 'l', 'c', 'r', 't', 'c', ':', '/', '/'];
    assert(scheme_v@ =~= scheme());
    if !starts_with_chars(v.as_slice(), scheme_v.as_slice()) {
        return fail("URI must start with olcrtc://");
    }
    let rest = sub_chars(v.as_slice(), 9, v.len());
    assert(rest@ =~= v@.skip(9));
    let q = match index_of(rest.as_slice(), '?') {
        None => {
            return fail("URI carrier is required");
        },
        Some(q) => q,
    };
    let carrier = sub_chars(rest.as_slice(), 0, q);
    let after = sub_chars(rest.as_slice(), q + 1, rest.len());
    assert(carrier@ =~= rest@.take(q as int));
    assert(after@ =~= rest@.skip(q + 1));
    if carrier.len() == 0 {
        return fail("URI carrier is required");
    }
    let h = match index_of(after.as_slice(), '#') {
        None => {
            return fail("URI key is required");
        },
        Some(h) => h,
    };
    let before_secret = sub_chars(after.as_slice(), 0, h);
    let secret = sub_chars(after.as_slice(), h + 1, after.len());
    assert(before_secret@ =~= after@.take(h as int));
    assert(secret@ =~= after@.skip(h + 1));
    let a = match index_of(before_secret.as_slice(), '@') {
        None => {
            return fail("URI room ID is required");
        },
        Some(a) => a,
    };
    let left = sub_chars(before_secret.as_slice(), 0, a);
    let room_id = sub_chars(before_secret.as_slice(), a + 1, before_secret.len());
    assert(left@ =~= before_secret@.take(a as int));
    assert(room_id@ =~= before_secret@.skip(a + 1));
    if room_id.len() == 0 {
        return fail("URI room ID is required");
    }
    let (key, client_id, name) = match parse_secret(secret.as_slice()) {
        Ok(x) => x,
        Err(e) => {
            return Err(e);
        },
    };
    let (transport, payload) = match parse_transport(left.as_slice()) {
        Ok(x) => x,
        Err(e) => {
            return Err(e);
        },
    };
    if transport.len() == 0 {
        return fail("URI transport is required");
    }
    Ok(
        RuntimeTarget {
            carrier: string_of(carrier.as_slice()),
            transport: string_of(transport.as_slice()),
            room_id: string_of(room_id.as_slice()),
            key: string_of(key.as_slice()),
            client_id: string_of(client_id.as_slice()),
            name: string_of(name.as_slice()),
            payload,
        },
    )
}

} // verus!

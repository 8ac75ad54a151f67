//! The local HTTP proxy that forwards browser traffic to the SOCKS runtime:
//! reading request headers, deciding where a request goes, rewriting
//! absolute-form requests, and the SOCKS5 messages of a connection.
use vstd::prelude::*;
use vstd::string::*;
use vstd::utf8::{decode_utf8, encode_utf8, valid_utf8};

use crate::text::{
    chars_eq_ignore_case, chars_of, decimal, decimal_string, eq_ignore_case, first_index,
    has_prefix, index_of, int_error_message, int_error_text, join2, last_index, last_index_of,
    lines, lines_of, parse_uint, parse_uint_chars, starts_with_chars, string_of, string_of_range,
    strip_both, sub_chars, trim, trim_chars, views, words, words_of,
};

verus! {

// ---------------------------------------------------------------------------
// Decoding (std)
// ---------------------------------------------------------------------------

/// What `String::from_utf8_lossy` makes of the given bytes.
pub uninterp spec fn lossy_utf8(bytes: Seq<u8>) -> Seq<char>;

/// `String::from_utf8_lossy`: the result is a function of the bytes alone;
/// for valid UTF-8 it is the decoded text (invalid sequences become U+FFFD,
/// which is not stated).
#[verifier::external_body]
fn utf8_lossy(bytes: &[u8]) -> (s: String)
    ensures
        s@ == lossy_utf8(bytes@),
        valid_utf8(bytes@) ==> s@ == decode_utf8(bytes@),
{
    String::from_utf8_lossy(bytes).into_owned()
}

/// The text that `String::from_utf8_lossy` makes of the bytes: their UTF-8
/// decoding when they are valid UTF-8.
pub open spec fn decoded(bytes: Seq<u8>) -> Seq<char> {
    if valid_utf8(bytes) {
        decode_utf8(bytes)
    } else {
        lossy_utf8(bytes)
    }
}

fn copy_bytes(v: &[u8], from: usize, to: usize, out: &mut Vec<u8>)
    requires
        from <= to <= v@.len(),
    ensures
        final(out)@ == old(out)@ + v@.subrange(from as int, to as int),
{
    let mut i = from;
    while i < to
        invariant
            from <= i <= to <= v@.len(),
            out@ == old(out)@ + v@.subrange(from as int, i as int),
        decreases to - i,
    {
        out.push(v[i]);
        assert(v@.subrange(from as int, i + 1) =~= v@.subrange(from as int, i as int).push(
            v@[i as int],
        ));
        i = i + 1;
    }
}

// ---------------------------------------------------------------------------
// Header boundaries
// ---------------------------------------------------------------------------

/// Whether `\r\n\r\n` starts at `i`.
pub open spec fn blank_line_at(s: Seq<u8>, i: int) -> bool {
    0 <= i && i + 4 <= s.len() && s[i] == 13 && s[i + 1] == 10 && s[i + 2] == 13 && s[i + 3] == 10
}

/// Whether `\r\n` starts at `i`.
pub open spec fn crlf_at(s: Seq<u8>, i: int) -> bool {
    0 <= i && i + 2 <= s.len() && s[i] == 13 && s[i + 1] == 10
}

/// The position of the first `\r\n\r\n`, which ends a request's header.
pub fn http_header_end(data: &[u8]) -> (r: Option<usize>)
    ensures
        match r {
            Some(i) => blank_line_at(data@, i as int) && forall|j: int|
                0 <= j < i ==> !blank_line_at(data@, j),
            None => forall|j: int| !blank_line_at(data@, j),
        },
{
    let n = data.len();
    if n < 4 {
        return None;
    }
    let mut i: usize = 0;
    while i <= n - 4
        invariant
            n == data@.len(),
            n >= 4,
            i <= n - 3,
            forall|j: int| 0 <= j < i ==> !blank_line_at(data@, j),
        decreases n - i,
    {
        if data[i] == 13 && data[i + 1] == 10 && data[i + 2] == 13 && data[i + 3] == 10 {
            return Some(i);
        }
        i = i + 1;
    }
    None
}

/// The position of the first `\r\n`, which ends a request's first line.
pub fn first_line_end(data: &[u8]) -> (r: Option<usize>)
    ensures
        match r {
            Some(i) => crlf_at(data@, i as int) && forall|j: int| 0 <= j < i ==> !crlf_at(data@, j),
            None => forall|j: int| !crlf_at(data@, j),
        },
{
    let n = data.len();
    if n < 2 {
        return None;
    }
    let mut i: usize = 0;
    while i <= n - 2
        invariant
            n == data@.len(),
            n >= 2,
            i <= n - 1,
            forall|j: int| 0 <= j < i ==> !crlf_at(data@, j),
        decreases n - i,
    {
        if data[i] == 13 && data[i + 1] == 10 {
            return Some(i);
        }
        i = i + 1;
    }
    None
}

// ---------------------------------------------------------------------------
// Host and port
// ---------------------------------------------------------------------------

pub open spec fn bracket_pred() -> spec_fn(char) -> bool {
    |c: char| c == '[' || c == ']'
}

/// A host without surrounding brackets (`trim_matches(['[', ']'])`).
pub open spec fn unbracket(s: Seq<char>) -> Seq<char> {
    strip_both(s, bracket_pred())
}

/// Host and port of a proxy target (`host:port`, `[v6]:port` or a host
/// alone, which gets `default_port`).
pub open spec fn host_port(value: Seq<char>, default_port: u16) -> Result<(Seq<char>, u16), Seq<char>> {
    let v = trim(value);
    match last_index(v, ':') {
        Some(i) => if first_index(v.take(i), ']') is None {
            match parse_uint(v.skip(i + 1), 65535) {
                Ok(p) => Ok((unbracket(v.take(i)), p as u16)),
                Err(k) => Err("invalid proxy target port: "@ + int_error_text(k)),
            }
        } else {
            Ok((unbracket(v), default_port))
        },
        None => Ok((unbracket(v), default_port)),
    }
}

fn unbracket_chars(v: &[char]) -> (r: String)
    ensures
        r@ == unbracket(v@),
{
    let n = v.len();
    let mut a: usize = 0;
    while a < n && (v[a] == '[' || v[a] == ']')
        invariant
            a <= n == v@.len(),
            forall|j: int| 0 <= j < a ==> (#[trigger] v@[j] == '[' || v@[j] == ']'),
        decreases n - a,
    {
        a = a + 1;
    }
    let ghost p = bracket_pred();
    proof {
        assert forall|j: int| 0 <= j < a implies p(#[trigger] v@[j]) by {}
        crate::text::lemma_strip_start_skip(v@, p, a as int);
        if a < n {
            assert(!p(v@.skip(a as int)[0]));
        }
    }
    let mut b: usize = n;
    while b > a && (v[b - 1] == '[' || v[b - 1] == ']')
        invariant
            a <= b <= n == v@.len(),
            forall|j: int| b <= j < n ==> (#[trigger] v@[j] == '[' || v@[j] == ']'),
        decreases b,
    {
        b = b - 1;
    }
    proof {
        let t = v@.skip(a as int);
        let k = b - a;
        assert forall|j: int| k <= j < t.len() implies p(#[trigger] t[j]) by {
            assert(t[j] == v@[j + a]);
        }
        crate::text::lemma_strip_end_take(t, p, k as int);
        assert(t.take(k as int) =~= v@.subrange(a as int, b as int));
        if b > a {
            assert(!p(t.take(k as int).last()));
        }
    }
    string_of_range(v, a, b)
}

/// Splits a proxy target into host and port; a target without a port (or
/// whose last `:` is inside `[...]`) gets `default_port`.
pub fn parse_host_port(value: &str, default_port: u16) -> (r: Result<(String, u16), String>)
    ensures
        match host_port(value@, default_port) {
            Ok((h, p)) => r matches Ok((x, q)) && x@ == h && q == p,
            Err(e) => r matches Err(x) && x@ == e,
        },
{
    let all = chars_of(value);
    let v = trim_chars(all.as_slice());
    let n = v.len();
    match last_index_of(v.as_slice(), ':') {
        Some(i) => {
            let host = sub_chars(v.as_slice(), 0, i);
            assert(host@ =~= v@.take(i as int));
            match index_of(host.as_slice(), ']') {
                None => {
                    let port_text = sub_chars(v.as_slice(), i + 1, n);
                    assert(port_text@ =~= v@.skip(i + 1));
                    match parse_uint_chars(port_text.as_slice(), 65535) {
                        Ok(p) => Ok((unbracket_chars(host.as_slice()), p as u16)),
                        Err(k) => {
                            let msg = int_error_message(&k);
                            Err(join2("invalid proxy target port: ", msg.as_str()))
                        },
                    }
                },
                Some(_) => Ok((unbracket_chars(v.as_slice()), default_port)),
            }
        },
        None => Ok((unbracket_chars(v.as_slice()), default_port)),
    }
}

// ---------------------------------------------------------------------------
// Header values
// ---------------------------------------------------------------------------

/// The trimmed value of the first header line `name: value` among `ls`
/// (names compared without ASCII case).
pub open spec fn header_value(ls: Seq<Seq<char>>, name: Seq<char>) -> Option<Seq<char>>
    decreases ls.len(),
{
    if ls.len() == 0 {
        None
    } else {
        match first_index(ls[0], ':') {
            Some(c) => if eq_ignore_case(ls[0].take(c), name) {
                Some(trim(ls[0].skip(c + 1)))
            } else {
                header_value(ls.drop_first(), name)
            },
            None => header_value(ls.drop_first(), name),
        }
    }
}

/// The value of header `name` in a header text.
pub fn http_header_value(header: &str, name: &str) -> (r: Option<String>)
    ensures
        match header_value(lines(header@), name@) {
            Some(v) => r matches Some(x) && x@ == v,
            None => r is None,
        },
{
    let all = chars_of(header);
    let n = chars_of(name);
    let ls = lines_of(all.as_slice());
    let ghost s = views(ls@);
    let mut i: usize = 0;
    assert(s.skip(0) =~= s);
    while i < ls.len()
        invariant
            i <= ls@.len(),
            s == views(ls@),
            s == lines(header@),
            n@ == name@,
            header_value(s, name@) == header_value(s.skip(i as int), name@),
        decreases ls.len() - i,
    {
        let line = &ls[i];
        let ghost rest = s.skip(i as int);
        assert(rest[0] == line@);
        assert(rest.drop_first() =~= s.skip(i + 1));
        match index_of(line.as_slice(), ':') {
            Some(c) => {
                let key = sub_chars(line.as_slice(), 0, c);
                assert(key@ =~= line@.take(c as int));
                if chars_eq_ignore_case(key.as_slice(), n.as_slice()) {
                    let value = sub_chars(line.as_slice(), c + 1, line.len());
                    assert(value@ =~= line@.skip(c + 1));
                    let t = trim_chars(value.as_slice());
                    return Some(string_of(t.as_slice()));
                }
            },
            None => {},
        }
        i = i + 1;
    }
    None
}

// ---------------------------------------------------------------------------
// Rewriting absolute-form requests
// ---------------------------------------------------------------------------

/// `http://`
pub open spec fn http_scheme() -> Seq<char> {
    seq!['h', 't', 't', 'p', ':', '/', '/']
}

/// The `i`-th word of a line, or `default` when there is none.
pub open spec fn word_or(ws: Seq<Seq<char>>, i: int, default: Seq<char>) -> Seq<char> {
    if i < ws.len() {
        ws[i]
    } else {
        default
    }
}

/// The path of an absolute `http://` target: from the first `/` after the
/// scheme, `/` when there is none.
pub open spec fn origin_path(target: Seq<char>) -> Seq<char> {
    let after = target.skip(7);
    let path = match first_index(after, '/') {
        Some(j) => after.skip(j),
        None => Seq::empty(),
    };
    if path.len() == 0 {
        "/"@
    } else {
        path
    }
}

/// The request with first line `first_line` (ending at `line_end`) sent to
/// the origin: an absolute `http://` target becomes its path; any other
/// request is sent unchanged.
pub open spec fn rewritten_request(request: Seq<u8>, line_end: int, first_line: Seq<char>) -> Seq<u8> {
    let ws = words(first_line);
    let method = word_or(ws, 0, ""@);
    let target = word_or(ws, 1, ""@);
    let version = word_or(ws, 2, "HTTP/1.1"@);
    if !has_prefix(target, http_scheme()) {
        request
    } else {
        encode_utf8(method + " "@ + origin_path(target) + " "@ + version + "\r\n"@) + request.skip(
            line_end + 2,
        )
    }
}

fn word_or_default(ws: &Vec<Vec<char>>, i: usize, default: &str) -> (r: String)
    ensures
        r@ == word_or(views(ws@), i as int, default@),
{
    if i < ws.len() {
        assert(views(ws@)[i as int] == ws@[i as int]@);
        string_of(ws[i].as_slice())
    } else {
        String::from_str(default)
    }
}

/// The request to send to the origin, given its decoded first line, which
/// ends at `line_end`.
pub fn rewrite_with_first_line(request: &[u8], line_end: usize, first_line: &str) -> (r: Vec<u8>)
    requires
        crlf_at(request@, line_end as int),
    ensures
        r@ == rewritten_request(request@, line_end as int, first_line@),
{
    let line = chars_of(first_line);
    let ws = words_of(line.as_slice());
    let method = word_or_default(&ws, 0, "");
    let target = word_or_default(&ws, 1, "");
    let version = word_or_default(&ws, 2, "HTTP/1.1");
    let mut out: Vec<u8> = Vec::new();
    let tv = chars_of(target.as_str());
    let scheme = vec!['h', 't', 't', 'p', ':', '/', '/'];
    assert(scheme@ =~= http_scheme());
    if !starts_with_chars(tv.as_slice(), scheme.as_slice()) {
        copy_bytes(request, 0, request.len(), &mut out);
        assert(out@ =~= request@);
        return out;
    }
    let after = sub_chars(tv.as_slice(), 7, tv.len());
    assert(after@ =~= tv@.skip(7));
    let path = match index_of(after.as_slice(), '/') {
        Some(j) => {
            let p = sub_chars(after.as_slice(), j, after.len());
            assert(p@ =~= after@.skip(j as int));
            p
        },
        None => {
            let p: Vec<char> = Vec::new();
            assert(p@ =~= Seq::<char>::empty());
            p
        },
    };
    let path_text = if path.len() == 0 {
        String::from_str("/")
    } else {
        string_of(path.as_slice())
    };
    let head = method.concat(" ").concat(path_text.as_str()).concat(" ").concat(
        version.as_str(),
    ).concat("\r\n");
    let bytes = head.as_str().as_bytes();
    copy_bytes(bytes, 0, bytes.len(), &mut out);
    assert(bytes@.subrange(0, bytes@.len() as int) =~= bytes@);
    let total = request.len();
    copy_bytes(request, line_end + 2, total, &mut out);
    assert(request@.subrange(line_end + 2, request@.len() as int) =~= request@.skip(line_end + 2));
    out
}

/// The request to send to the origin: a request whose target is an absolute
/// `http://` URL gets its path as target; others are sent unchanged.
pub fn rewrite_http_proxy_request(request: &[u8]) -> (r: Vec<u8>)
    ensures
        r@ == rewrite_result(request@),
{
    match first_line_end(request) {
        None => {
            let mut out: Vec<u8> = Vec::new();
            copy_bytes(request, 0, request.len(), &mut out);
            assert(out@ =~= request@);
            proof {
                lemma_first_crlf_none(request@);
            }
            out
        },
        Some(e) => {
            let mut head: Vec<u8> = Vec::new();
            copy_bytes(request, 0, e, &mut head);
            assert(head@ =~= request@.take(e as int));
            let first = utf8_lossy(head.as_slice());
            proof {
                lemma_first_crlf_at(request@, e as int);
            }
            rewrite_with_first_line(request, e, first.as_str())
        },
    }
}

/// What is sent to the origin for `request`: the request rewritten by its
/// first line, unchanged when it has no `\r\n`.
pub open spec fn rewrite_result(request: Seq<u8>) -> Seq<u8> {
    match first_crlf(request) {
        Some(e) => rewritten_request(request, e, decoded(request.take(e))),
        None => request,
    }
}

/// The position of the first `\r\n`.
pub open spec fn first_crlf(s: Seq<u8>) -> Option<int> {
    if exists|i: int| crlf_at(s, i) {
        Some(choose|i: int| crlf_at(s, i) && forall|j: int| 0 <= j < i ==> !crlf_at(s, j))
    } else {
        None
    }
}

proof fn lemma_first_crlf_none(s: Seq<u8>)
    requires
        forall|j: int| !crlf_at(s, j),
    ensures
        first_crlf(s) is None,
{
}

proof fn lemma_first_crlf_at(s: Seq<u8>, i: int)
    requires
        crlf_at(s, i),
        forall|j: int| 0 <= j < i ==> !crlf_at(s, j),
    ensures
        first_crlf(s) == Some(i),
{
    let k = choose|k: int| crlf_at(s, k) && forall|j: int| 0 <= j < k ==> !crlf_at(s, j);
    assert(crlf_at(s, k) && forall|j: int| 0 <= j < k ==> !crlf_at(s, j));
    if k < i {
        assert(!crlf_at(s, k));
    } else if k > i {
        assert(!crlf_at(s, i));
    }
}

// ---------------------------------------------------------------------------
// Deciding where a request goes
// ---------------------------------------------------------------------------

/// What the local HTTP proxy does with a request.
#[derive(Debug, Clone, PartialEq, Eq)]
pub enum ProxyRequest {
    /// A `CONNECT` tunnel to `host:port`; `buffered` are the bytes that came
    /// after the header and go to the upstream first.
    Connect { host: String, port: u16, buffered: Vec<u8> },
    /// A plain request for `host:port`, to send as `request`.
    Forward { host: String, port: u16, request: Vec<u8> },
}

/// Whether the characters `\r\n` start at `i`.
pub open spec fn crlf_chars_at(t: Seq<char>, i: int) -> bool {
    0 <= i && i + 1 < t.len() && t[i] == '\r' && t[i + 1] == '\n'
}

/// The first line of a header text: up to its first `\r\n`.
pub open spec fn header_first_line(text: Seq<char>) -> Seq<char> {
    if exists|i: int| crlf_chars_at(text, i) {
        text.take(
            choose|i: int|
                crlf_chars_at(text, i) && forall|j: int| 0 <= j < i ==> !crlf_chars_at(text, j),
        )
    } else {
        text
    }
}

/// What the proxy does with `request`, whose header ends at `header_end` and
/// decodes to `header`.
pub open spec fn proxy_request_plan(request: Seq<u8>, header_end: int, header: Seq<char>) -> Result<
    (bool, Seq<char>, u16),
    Seq<char>,
> {
    let ws = words(header_first_line(header));
    let method = word_or(ws, 0, ""@);
    let target = word_or(ws, 1, ""@);
    if eq_ignore_case(method, "CONNECT"@) {
        match host_port(target, 443) {
            Ok((h, p)) => Ok((true, h, p)),
            Err(e) => Err(e),
        }
    } else {
        match header_value(lines(header), "Host"@) {
            None => Err("HTTP proxy request has no Host header"@),
            Some(v) => match host_port(v, 80) {
                Ok((h, p)) => Ok((false, h, p)),
                Err(e) => Err(e),
            },
        }
    }
}

fn header_first_line_of(text: &Vec<char>) -> (r: Vec<char>)
    ensures
        r@ == header_first_line(text@),
{
    let n = text.len();
    let mut i: usize = 0;
    while n > 0 && i < n - 1
        invariant
            n == text@.len(),
            forall|j: int| 0 <= j < i ==> !crlf_chars_at(text@, j),
        decreases n - i,
    {
        if text[i] == '\r' && text[i + 1] == '\n' {
            proof {
                let t = text@;
                assert(crlf_chars_at(t, i as int));
                let k = choose|k: int|
                    crlf_chars_at(t, k) && forall|j: int| 0 <= j < k ==> !crlf_chars_at(t, j);
                assert(crlf_chars_at(t, k) && forall|j: int| 0 <= j < k ==> !crlf_chars_at(t, j));
                if k < i {
                    assert(!crlf_chars_at(t, k));
                } else if k > i {
                    assert(!crlf_chars_at(t, i as int));
                }
            }
            return sub_chars(text.as_slice(), 0, i);
        }
        i = i + 1;
    }
    assert forall|j: int| !crlf_chars_at(text@, j) by {
        if crlf_chars_at(text@, j) {
            assert(j < i);
        }
    }
    let r = sub_chars(text.as_slice(), 0, n);
    assert(r@ =~= text@);
    r
}

/// Whether `r` is what the proxy does with `request`, whose header ends at
/// `header_end` and decodes to `header`.
pub open spec fn plan_result(
    request: Seq<u8>,
    header_end: int,
    header: Seq<char>,
    r: Result<ProxyRequest, String>,
) -> bool {
    match proxy_request_plan(request, header_end, header) {
        Ok((true, h, p)) => r matches Ok(ProxyRequest::Connect { host, port, buffered }) && host@
            == h && port == p && buffered@ == request.skip(header_end + 4),
        Ok((false, h, p)) => r matches Ok(ProxyRequest::Forward { host, port, request: out })
            && host@ == h && port == p && out@ == rewrite_result(request),
        Err(e) => r matches Err(x) && x@ == e,
    }
}

/// The position of the first `\r\n\r\n`.
pub open spec fn first_blank_line(s: Seq<u8>) -> Option<int> {
    if exists|i: int| blank_line_at(s, i) {
        Some(choose|i: int| blank_line_at(s, i) && forall|j: int| 0 <= j < i ==> !blank_line_at(s, j))
    } else {
        None
    }
}

/// Decides, from the decoded header, where a request goes.
pub fn plan_from_header(request: &[u8], header_end: usize, header: &str) -> (r: Result<ProxyRequest, String>)
    requires
        blank_line_at(request@, header_end as int),
    ensures
        plan_result(request@, header_end as int, header@, r),
{
    let text = chars_of(header);
    let first = header_first_line_of(&text);
    let ws = words_of(first.as_slice());
    let method = word_or_default(&ws, 0, "");
    let target = word_or_default(&ws, 1, "");
    let mv = chars_of(method.as_str());
    let connect = vec!['C', 'O', 'N', 'N', 'E', 'C', 'T'];
    proof {
        reveal_strlit("CONNECT");
    }
    assert(connect@ =~= "CONNECT"@);
    if chars_eq_ignore_case(mv.as_slice(), connect.as_slice()) {
        let (host, port) = match parse_host_port(target.as_str(), 443) {
            Ok(x) => x,
            Err(e) => {
                return Err(e);
            },
        };
        let total = request.len();
        let mut buffered: Vec<u8> = Vec::new();
        copy_bytes(request, header_end + 4, total, &mut buffered);
        assert(buffered@ =~= request@.skip(header_end + 4));
        return Ok(ProxyRequest::Connect { host, port, buffered });
    }
    let value = match http_header_value(header, "Host") {
        Some(v) => v,
        None => {
            return Err(String::from_str("HTTP proxy request has no Host header"));
        },
    };
    let (host, port) = match parse_host_port(value.as_str(), 80) {
        Ok(x) => x,
        Err(e) => {
            return Err(e);
        },
    };
    let out = rewrite_http_proxy_request(request);
    Ok(ProxyRequest::Forward { host, port, request: out })
}

/// Decides where a request that the local HTTP proxy read goes; fails when
/// its header is not complete.
pub fn plan_http_proxy_request(request: &[u8]) -> (r: Result<ProxyRequest, String>)
    ensures
        match first_blank_line(request@) {
            None => r matches Err(x) && x@ == "HTTP proxy request header is incomplete"@,
            Some(e) => plan_result(request@, e, decoded(request@.take(e)), r),
        },
{
    let end = match http_header_end(request) {
        Some(e) => e,
        None => {
            return Err(String::from_str("HTTP proxy request header is incomplete"));
        },
    };
    proof {
        let s = request@;
        let k = choose|k: int| blank_line_at(s, k) && forall|j: int| 0 <= j < k ==> !blank_line_at(s, j);
        assert(blank_line_at(s, end as int));
        assert(blank_line_at(s, k) && forall|j: int| 0 <= j < k ==> !blank_line_at(s, j));
        if k < end {
            assert(!blank_line_at(s, k));
        } else if k > end {
            assert(!blank_line_at(s, end as int));
        }
    }
    let mut head: Vec<u8> = Vec::new();
    copy_bytes(request, 0, end, &mut head);
    assert(head@ =~= request@.take(end as int));
    let header = utf8_lossy(head.as_slice());
    plan_from_header(request, end, header.as_str())
}

// ---------------------------------------------------------------------------
// SOCKS5
// ---------------------------------------------------------------------------

/// The SOCKS5 greeting: version 5, one method, no authentication.
pub fn socks5_greeting() -> (r: Vec<u8>)
    ensures
        r@ == seq![5u8, 1u8, 0u8],
{
    let r = vec![5u8, 1u8, 0u8];
    assert(r@ =~= seq![5u8, 1u8, 0u8]);
    r
}

/// Whether the server accepted the greeting (version 5, no authentication).
pub fn socks5_auth_accepted(reply: &[u8; 2]) -> (b: bool)
    ensures
        b == (reply@[0] == 5 && reply@[1] == 0),
{
    reply[0] == 5 && reply[1] == 0
}

/// The SOCKS5 request to connect to `host:port` by domain name.
pub open spec fn connect_request_bytes(host: Seq<char>, port: u16) -> Seq<u8> {
    let b = encode_utf8(host);
    seq![5u8, 1u8, 0u8, 3u8, b.len() as u8] + b + seq![(port / 256) as u8, (port % 256) as u8]
}

/// The SOCKS5 request to connect to `host:port`; a host name longer than 255
/// bytes cannot be sent.
pub fn socks5_connect_request(host: &str, port: u16) -> (r: Result<Vec<u8>, String>)
    ensures
        encode_utf8(host@).len() > 255 ==> (r matches Err(x) && x@
            == "SOCKS5 target host is too long"@),
        encode_utf8(host@).len() <= 255 ==> (r matches Ok(v) && v@ == connect_request_bytes(
            host@,
            port,
        )),
{
    let bytes = host.as_bytes();
    if bytes.len() > 255 {
        return Err(String::from_str("SOCKS5 target host is too long"));
    }
    let mut out: Vec<u8> = Vec::new();
    out.push(5);
    out.push(1);
    out.push(0);
    out.push(3);
    out.push(bytes.len() as u8);
    copy_bytes(bytes, 0, bytes.len(), &mut out);
    out.push((port / 256) as u8);
    out.push((port % 256) as u8);
    assert(bytes@.subrange(0, bytes@.len() as int) =~= bytes@);
    assert(out@ =~= connect_request_bytes(host@, port));
    Ok(out)
}

/// How many bytes of bound address follow a SOCKS5 reply.
#[derive(Debug, Clone, PartialEq, Eq)]
pub enum SocksAddressTail {
    /// This many bytes (address and port).
    Bytes(usize),
    /// A domain name: one length byte, that many bytes, and the port.
    DomainName,
}

/// Reads the first four bytes of a SOCKS5 reply: success with the kind of
/// bound address that follows, or the failure.
pub fn socks5_reply_tail(reply: &[u8; 4]) -> (r: Result<SocksAddressTail, String>)
    ensures
        !(reply@[0] == 5 && reply@[1] == 0) ==> (r matches Err(x) && x@
            == "SOCKS5 connect failed with code "@ + decimal(reply@[1] as nat)),
        reply@[0] == 5 && reply@[1] == 0 ==> match reply@[3] {
            1u8 => r matches Ok(SocksAddressTail::Bytes(n)) && n == 6,
            3u8 => r matches Ok(SocksAddressTail::DomainName),
            4u8 => r matches Ok(SocksAddressTail::Bytes(n)) && n == 18,
            v => r matches Err(x) && x@ == "SOCKS5 returned unsupported address type "@ + decimal(
                v as nat,
            ),
        },
{
    if reply[0] != 5 || reply[1] != 0 {
        let code = decimal_string(reply[1] as u64);
        return Err(join2("SOCKS5 connect failed with code ", code.as_str()));
    }
    match reply[3] {
        1 => Ok(SocksAddressTail::Bytes(6)),
        3 => Ok(SocksAddressTail::DomainName),
        4 => Ok(SocksAddressTail::Bytes(18)),
        v => {
            let t = decimal_string(v as u64);
            Err(join2("SOCKS5 returned unsupported address type ", t.as_str()))
        },
    }
}

} // verus!

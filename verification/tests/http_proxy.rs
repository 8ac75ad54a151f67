use librertc_client::http_proxy::{
    http_header_end, http_header_value, parse_host_port, plan_http_proxy_request,
    rewrite_http_proxy_request, socks5_auth_accepted, socks5_connect_request, socks5_greeting,
    socks5_reply_tail, ProxyRequest, SocksAddressTail,
};

#[test]
fn header_end_is_first_blank_line() {
    assert_eq!(http_header_end(b"GET / HTTP/1.1\r\nHost: a\r\n\r\nbody\r\n\r\n"), Some(23));
    assert_eq!(http_header_end(b"GET / HTTP/1.1\r\n"), None);
    assert_eq!(http_header_end(b""), None);
    assert_eq!(http_header_end(b"\r\n\r\n"), Some(0));
}

#[test]
fn host_port_forms() {
    assert_eq!(parse_host_port("example.com:8080", 80), Ok(("example.com".to_string(), 8080)));
    assert_eq!(parse_host_port(" example.com ", 443), Ok(("example.com".to_string(), 443)));
    // the last ':' comes after a ']': the whole value is the host
    assert_eq!(parse_host_port("[::1]:8443", 443), Ok(("::1]:8443".to_string(), 443)));
    assert_eq!(parse_host_port("[fe80]", 443), Ok(("fe80".to_string(), 443)));
    assert_eq!(
        parse_host_port("[::1]", 443),
        Err("invalid proxy target port: invalid digit found in string".to_string())
    );
    assert_eq!(parse_host_port("host:+80", 1), Ok(("host".to_string(), 80)));
    assert_eq!(
        parse_host_port("host:x", 80),
        Err("invalid proxy target port: invalid digit found in string".to_string())
    );
    assert_eq!(
        parse_host_port("host:", 80),
        Err("invalid proxy target port: cannot parse integer from empty string".to_string())
    );
    assert_eq!(
        parse_host_port("host:65536", 80),
        Err("invalid proxy target port: number too large to fit in target type".to_string())
    );
    assert_eq!(
        parse_host_port("host:+", 80),
        Err("invalid proxy target port: invalid digit found in string".to_string())
    );
}

#[test]
fn host_port_matches_std_parse_messages() {
    for port in ["x", "", "65536", "+", "-1", "99999x"] {
        let expected = format!("invalid proxy target port: {}", port.parse::<u16>().unwrap_err());
        assert_eq!(parse_host_port(&format!("h:{port}"), 80), Err(expected));
    }
}

#[test]
fn header_value_is_case_insensitive_and_trimmed() {
    let header = "GET / HTTP/1.1\r\nhost:  example.org:81 \r\nX: y\r\n";
    assert_eq!(http_header_value(header, "Host"), Some("example.org:81".to_string()));
    assert_eq!(http_header_value(header, "x"), Some("y".to_string()));
    assert_eq!(http_header_value(header, "Accept"), None);
}

#[test]
fn rewrite_absolute_form() {
    let req = b"GET http://example.com/a/b?c HTTP/1.0\r\nHost: example.com\r\n\r\n";
    assert_eq!(
        rewrite_http_proxy_request(req),
        b"GET /a/b?c HTTP/1.0\r\nHost: example.com\r\n\r\n".to_vec()
    );
    let req = b"GET http://example.com\r\n\r\n";
    assert_eq!(rewrite_http_proxy_request(req), b"GET / HTTP/1.1\r\n\r\n".to_vec());
    let req = b"GET /x HTTP/1.1\r\n\r\n";
    assert_eq!(rewrite_http_proxy_request(req), req.to_vec());
    let req = b"no line end";
    assert_eq!(rewrite_http_proxy_request(req), req.to_vec());
}

#[test]
fn plans_connect_and_forward() {
    let req = b"CONNECT example.com:443 HTTP/1.1\r\nHost: example.com\r\n\r\nhello";
    match plan_http_proxy_request(req).unwrap() {
        ProxyRequest::Connect { host, port, buffered } => {
            assert_eq!(host, "example.com");
            assert_eq!(port, 443);
            assert_eq!(buffered, b"hello".to_vec());
        }
        other => panic!("unexpected {other:?}"),
    }
    let req = b"connect example.org HTTP/1.1\r\n\r\n";
    match plan_http_proxy_request(req).unwrap() {
        ProxyRequest::Connect { host, port, buffered } => {
            assert_eq!(host, "example.org");
            assert_eq!(port, 443);
            assert!(buffered.is_empty());
        }
        other => panic!("unexpected {other:?}"),
    }
    let req = b"GET http://a.test/x HTTP/1.1\r\nHost: a.test\r\n\r\n";
    match plan_http_proxy_request(req).unwrap() {
        ProxyRequest::Forward { host, port, request } => {
            assert_eq!(host, "a.test");
            assert_eq!(port, 80);
            assert_eq!(request, b"GET /x HTTP/1.1\r\nHost: a.test\r\n\r\n".to_vec());
        }
        other => panic!("unexpected {other:?}"),
    }
    assert_eq!(
        plan_http_proxy_request(b"GET / HTTP/1.1\r\n\r\n").unwrap_err(),
        "HTTP proxy request has no Host header"
    );
    assert_eq!(
        plan_http_proxy_request(b"GET / HTTP/1.1\r\n").unwrap_err(),
        "HTTP proxy request header is incomplete"
    );
}

#[test]
fn socks5_messages() {
    assert_eq!(socks5_greeting(), vec![5, 1, 0]);
    assert!(socks5_auth_accepted(&[5, 0]));
    assert!(!socks5_auth_accepted(&[5, 2]));
    assert_eq!(
        socks5_connect_request("ab", 0x1f90).unwrap(),
        vec![5, 1, 0, 3, 2, b'a', b'b', 0x1f, 0x90]
    );
    let long = "x".repeat(256);
    assert_eq!(socks5_connect_request(&long, 1).unwrap_err(), "SOCKS5 target host is too long");
    assert_eq!(socks5_connect_request(&"y".repeat(255), 1).unwrap().len(), 255 + 7);
    assert_eq!(socks5_reply_tail(&[5, 0, 0, 1]), Ok(SocksAddressTail::Bytes(6)));
    assert_eq!(socks5_reply_tail(&[5, 0, 0, 3]), Ok(SocksAddressTail::DomainName));
    assert_eq!(socks5_reply_tail(&[5, 0, 0, 4]), Ok(SocksAddressTail::Bytes(18)));
    assert_eq!(
        socks5_reply_tail(&[5, 0, 0, 9]),
        Err("SOCKS5 returned unsupported address type 9".to_string())
    );
    assert_eq!(
        socks5_reply_tail(&[5, 4, 0, 1]),
        Err("SOCKS5 connect failed with code 4".to_string())
    );
}

#[test]
fn rewrite_keeps_tail_and_is_stable() {
    let req = b"GET http://example.com/a?b HTTP/1.0\r\nHost: example.com\r\n\r\nbody".to_vec();
    let once = rewrite_http_proxy_request(&req);
    assert_eq!(once, b"GET /a?b HTTP/1.0\r\nHost: example.com\r\n\r\nbody".to_vec());
    assert_eq!(rewrite_http_proxy_request(&once), once);
    let plain = b"GET /x HTTP/1.1\r\n\r\n".to_vec();
    assert_eq!(rewrite_http_proxy_request(&plain), plain);
}

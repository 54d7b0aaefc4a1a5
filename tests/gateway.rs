use kiagateway::cursor::Cur;
use kiagateway::host::{is_port, is_valid_http_host, is_valid_sni, to_lower};
use kiagateway::http::{extract_host, find_http_header_end, parse_host_value, trim_ws};
use kiagateway::resolve::Config;
use kiagateway::session::{
    http_error_response, route_http, HeaderProgress, HeaderReader, HttpFailure, HttpRoute,
    IdleWatch, SniProgress, SniReader, PROXY_IDLE_TIMEOUT_MS,
};
use kiagateway::tls::{extract_sni, extract_sni_from_clienthello_handshake, SniScan};

fn s(x: &str) -> Option<String> {
    Some(x.to_string())
}

fn u16be(n: usize) -> [u8; 2] {
    [(n >> 8) as u8, n as u8]
}

fn sni_extension(name_type: u8, name: &[u8]) -> Vec<u8> {
    let mut entry = vec![name_type];
    entry.extend_from_slice(&u16be(name.len()));
    entry.extend_from_slice(name);
    let mut data = u16be(entry.len()).to_vec();
    data.extend_from_slice(&entry);
    let mut ext = vec![0u8, 0u8];
    ext.extend_from_slice(&u16be(data.len()));
    ext.extend_from_slice(&data);
    ext
}

fn hello_with_extensions(exts: &[u8]) -> Vec<u8> {
    let mut body = vec![3u8, 3u8];
    body.extend_from_slice(&[7u8; 32]);
    body.push(0);
    body.extend_from_slice(&[0, 2, 0x13, 0x01]);
    body.extend_from_slice(&[1, 0]);
    body.extend_from_slice(&u16be(exts.len()));
    body.extend_from_slice(exts);
    let mut msg = vec![1u8, 0, (body.len() >> 8) as u8, body.len() as u8];
    msg.extend_from_slice(&body);
    msg
}

fn client_hello(name: &[u8]) -> Vec<u8> {
    hello_with_extensions(&sni_extension(0, name))
}

fn record(content_type: u8, payload: &[u8]) -> Vec<u8> {
    let mut r = vec![content_type, 3, 1];
    r.extend_from_slice(&u16be(payload.len()));
    r.extend_from_slice(payload);
    r
}

#[test]
fn cursor_reads_big_endian_and_fails_closed() {
    let data = [0x01u8, 0x02, 0x03, 0x04, 0x05, 0x06];
    let mut c = Cur::new(&data);
    assert_eq!(c.u8(), Some(0x01));
    assert_eq!(c.u16(), Some(0x0203));
    assert_eq!(c.rem(), 3);
    assert_eq!(c.u24_usize(), Some(0x040506));
    assert_eq!(c.rem(), 0);
    assert_eq!(c.u8(), None);
    assert_eq!(c.i, 6);
}

#[test]
fn cursor_short_read_keeps_position() {
    let data = [0xaau8, 0xbb];
    let mut c = Cur::new(&data);
    assert_eq!(c.u24_usize(), None);
    assert_eq!(c.i, 0);
    assert_eq!(c.skip(3), None);
    assert_eq!(c.i, 0);
    assert_eq!(c.take(2), Some(&data[..]));
    assert_eq!(c.take(usize::MAX), None);
    assert_eq!(c.skip(0), Some(()));
}

#[test]
fn header_end_is_first_blank_line() {
    assert_eq!(find_http_header_end(b"GET / HTTP/1.1\r\nHost: a\r\n\r\nbody\r\n\r\n"), Some(23));
    assert_eq!(find_http_header_end(b"GET / HTTP/1.1\r\n"), None);
    assert_eq!(find_http_header_end(b""), None);
}

#[test]
fn single_host_line_is_lowercased() {
    let req = b"GET / HTTP/1.1\r\nHost: ExAmPlE.CoM\r\nAccept: */*\r\n\r\n";
    assert_eq!(extract_host(req), s("example.com"));
    assert_eq!(extract_host(b"Host: example.com\r\n\r\n"), s("example.com"));
    assert_eq!(extract_host(b"GET / HTTP/1.1\r\nhOsT:example.com\r\n\r\n"), s("example.com"));
}

#[test]
fn duplicate_host_lines_fail() {
    let req = b"GET / HTTP/1.1\r\nHost: a.test\r\nHost: b.test\r\n\r\n";
    assert_eq!(extract_host(req), None);
    let same = b"GET / HTTP/1.1\r\nHost: a.test\r\nhost: a.test\r\n\r\n";
    assert_eq!(extract_host(same), None);
    let bad_first = b"GET / HTTP/1.1\r\nHost: a b\r\nHost: b.test\r\n\r\n";
    assert_eq!(extract_host(bad_first), None);
}

#[test]
fn missing_host_or_bad_text_fails() {
    assert_eq!(extract_host(b"GET / HTTP/1.1\r\nAccept: */*\r\n\r\n"), None);
    let latin1 = b"GET / HTTP/1.1\r\nUser-Agent: \xe9\r\nHost: a.test\r\n\r\n";
    assert_eq!(extract_host(latin1), None);
    let utf8 = "GET / HTTP/1.1\r\nUser-Agent: é\r\nHost: a.test\r\n\r\n";
    assert_eq!(extract_host(utf8.as_bytes()), s("a.test"));
}

#[test]
fn port_is_stripped_when_numeric() {
    assert_eq!(parse_host_value(b"example.com:8080"), s("example.com"));
    assert_eq!(parse_host_value(b"example.com:65535"), s("example.com"));
    assert_eq!(parse_host_value(b"example.com:999999"), None);
    assert_eq!(parse_host_value(b"example.com:65536"), None);
    assert_eq!(parse_host_value(b"example.com:http"), None);
    assert_eq!(parse_host_value(b"example.com:"), None);
    assert_eq!(parse_host_value(b"fe80::1"), None);
    assert_eq!(parse_host_value(b"a:1:2"), None);
    assert_eq!(extract_host(b"Host: example.com:8080\r\n\r\n"), s("example.com"));
    assert_eq!(extract_host(b"Host: example.com:999999\r\n\r\n"), None);
}

#[test]
fn bracketed_literals() {
    assert_eq!(parse_host_value(b"[::1]:443"), s("[::1]"));
    assert_eq!(parse_host_value(b"[::1]"), s("[::1]"));
    assert_eq!(parse_host_value(b"[FE80::1]"), s("[fe80::1]"));
    assert_eq!(parse_host_value(b"[::1"), None);
    assert_eq!(parse_host_value(b"[]"), None);
    assert_eq!(parse_host_value(b"[::1]x"), None);
    assert_eq!(parse_host_value(b"[::1]:99999"), None);
    assert_eq!(parse_host_value(b"[::g]"), None);
    assert_eq!(extract_host(b"Host: [::1]:443\r\n\r\n"), s("[::1]"));
    assert_eq!(extract_host(b"Host: [::1\r\n\r\n"), None);
}

#[test]
fn host_value_edges() {
    assert_eq!(parse_host_value(b"  example.com\t"), s("example.com"));
    assert_eq!(parse_host_value(b"example.com."), s("example.com."));
    assert_eq!(parse_host_value(b""), None);
    assert_eq!(parse_host_value(b"   "), None);
    assert_eq!(parse_host_value(b"exa mple.com"), None);
    assert_eq!(parse_host_value(b"exa_mple.com"), None);
    assert_eq!(parse_host_value(b"example.com:+80"), s("example.com"));
    let long = vec![b'a'; 253];
    assert_eq!(parse_host_value(&long), Some("a".repeat(253)));
    let too_long = vec![b'a'; 254];
    assert_eq!(parse_host_value(&too_long), None);
}

#[test]
fn unicode_whitespace_is_trimmed() {
    let req = "GET / HTTP/1.1\r\nHost:\u{a0}Example.com\u{3000}\r\n\r\n";
    assert_eq!(extract_host(req.as_bytes()), s("example.com"));
    assert_eq!(parse_host_value("\u{2009}a.test\u{85}".as_bytes()), s("a.test"));
    assert_eq!(parse_host_value("\u{a0}".as_bytes()), None);
    assert_eq!(parse_host_value("a\u{a0}b".as_bytes()), None);
    assert_eq!(trim_ws("\u{1680} x \u{205f}".as_bytes()), b"x");
}

#[test]
fn helpers_behave() {
    assert_eq!(trim_ws(b" \t a b \r\n"), b"a b");
    assert_eq!(to_lower(b"AbC-1.Z"), b"abc-1.z".to_vec());
    assert!(is_port(b"0"));
    assert!(is_port(b"00080"));
    assert!(!is_port(b"+"));
    assert!(!is_port(b"-1"));
    assert!(is_valid_http_host(b"a.b-c"));
    assert!(is_valid_http_host(b"[::1]."));
    assert!(!is_valid_http_host(b"[::1"));
    assert!(is_valid_sni(b"backend.test."));
    assert!(!is_valid_sni(b""));
    assert!(!is_valid_sni(b"back end"));
}

#[test]
fn oversize_headers_are_distinct_from_timeout() {
    let mut r = HeaderReader::new();
    let chunk = [b'a'; 1024];
    for _ in 0..32 {
        assert_eq!(r.push(&chunk), HeaderProgress::NeedMore);
    }
    assert_eq!(r.push(b"x"), HeaderProgress::TooLarge);
    assert_ne!(
        http_error_response(HttpFailure::HeadersTooLarge),
        http_error_response(HttpFailure::Timeout)
    );
}

#[test]
fn header_reader_completes_across_reads() {
    let mut r = HeaderReader::new();
    assert_eq!(r.push(b"GET / HTTP/1.1\r\nHost: a.test\r"), HeaderProgress::NeedMore);
    assert_eq!(r.push(b"\n\r\nbody"), HeaderProgress::Complete(32));
    let (head, rest) = r.split_at_head(32);
    assert_eq!(head, b"GET / HTTP/1.1\r\nHost: a.test\r\n\r\n");
    assert_eq!(rest, b"body");
    let mut all = head.to_vec();
    all.extend_from_slice(rest);
    assert_eq!(all, r.buffered());
}

#[test]
fn error_responses_are_exact() {
    assert_eq!(
        http_error_response(HttpFailure::Timeout),
        "HTTP/1.1 408 Request Timeout\r\nConnection: close\r\n\r\n"
    );
    assert_eq!(
        http_error_response(HttpFailure::HeadersTooLarge),
        "HTTP/1.1 431 Request Header Fields Too Large\r\nConnection: close\r\n\r\n"
    );
    assert_eq!(
        http_error_response(HttpFailure::BadRequest),
        "HTTP/1.1 400 Bad Request\r\nConnection: close\r\n\r\n"
    );
    assert_eq!(
        http_error_response(HttpFailure::BadGateway),
        "HTTP/1.1 502 Bad Gateway\r\nConnection: close\r\n\r\n"
    );
}

#[test]
fn resolver_miss_gives_bad_gateway() {
    let mut config = Config::new();
    config.insert("a.test".to_string(), "127.0.0.1:9001".to_string());
    assert_eq!(config.resolve(&"b.test".to_string()), None);
    assert_eq!(config.resolve(&"a.test".to_string()), s("127.0.0.1:9001"));
    let req = b"GET / HTTP/1.1\r\nHost: b.test\r\n\r\n";
    assert_eq!(route_http(&config, req, req.len()), HttpRoute::Reject(HttpFailure::BadGateway));
    let ok = b"GET / HTTP/1.1\r\nHost: A.test\r\n\r\n";
    assert_eq!(route_http(&config, ok, ok.len()), HttpRoute::Forward("127.0.0.1:9001".to_string()));
    let bad = b"GET / HTTP/1.1\r\n\r\n";
    assert_eq!(route_http(&config, bad, bad.len()), HttpRoute::Reject(HttpFailure::BadRequest));
}

#[test]
fn resolver_later_entry_replaces() {
    let mut config = Config::new();
    config.insert("a.test".to_string(), "127.0.0.1:1".to_string());
    config.insert("a.test".to_string(), "127.0.0.1:2".to_string());
    assert_eq!(config.resolve(&"a.test".to_string()), s("127.0.0.1:2"));
    assert_eq!(config.resolve(&"A.test".to_string()), None);
}

#[test]
fn client_hello_yields_server_name() {
    let msg = client_hello(b"Backend.Test");
    assert_eq!(extract_sni_from_clienthello_handshake(&msg), s("backend.test"));
    let data = record(0x16, &msg);
    assert_eq!(extract_sni(&data), SniScan::Found("backend.test".to_string()));
}

#[test]
fn client_hello_split_across_records() {
    let msg = client_hello(b"backend.test");
    let (a, b) = msg.split_at(20);
    let first = record(0x16, a);
    let second = record(0x16, b);
    let mut r = SniReader::new();
    assert_eq!(r.push(&first), SniProgress::NeedMore);
    assert_eq!(r.push(&second[..3]), SniProgress::NeedMore);
    assert_eq!(r.push(&second[3..]), SniProgress::Ready("backend.test".to_string()));
    let mut all = first.clone();
    all.extend_from_slice(&second);
    assert_eq!(r.buffered(), &all[..]);
}

#[test]
fn non_handshake_records_are_skipped() {
    let msg = client_hello(b"backend.test");
    let mut data = record(0x14, &[1]);
    data.extend_from_slice(&record(0x16, &msg));
    assert_eq!(extract_sni(&data), SniScan::Found("backend.test".to_string()));
}

#[test]
fn not_client_hello_fails_fast() {
    let mut msg = client_hello(b"backend.test");
    msg[0] = 0x02;
    let first = record(0x16, &msg[..10]);
    assert_eq!(extract_sni(&first), SniScan::Invalid);
    let mut r = SniReader::new();
    assert_eq!(r.push(&first), SniProgress::Failed);
}

#[test]
fn missing_or_bad_server_name_fails() {
    let no_sni = hello_with_extensions(&[0x00, 0x10, 0x00, 0x00]);
    assert_eq!(extract_sni_from_clienthello_handshake(&no_sni), None);
    assert_eq!(extract_sni(&record(0x16, &no_sni)), SniScan::Invalid);
    let empty = client_hello(b"");
    assert_eq!(extract_sni(&record(0x16, &empty)), SniScan::Invalid);
    let bad = client_hello(b"bad name");
    assert_eq!(extract_sni(&record(0x16, &bad)), SniScan::Invalid);
    let other_type = hello_with_extensions(&sni_extension(1, b"backend.test"));
    assert_eq!(extract_sni(&record(0x16, &other_type)), SniScan::Invalid);
}

#[test]
fn incomplete_and_oversize_tls_input() {
    let msg = client_hello(b"backend.test");
    let data = record(0x16, &msg);
    assert_eq!(extract_sni(&data[..3]), SniScan::NeedMore);
    assert_eq!(extract_sni(&data[..data.len() - 1]), SniScan::NeedMore);
    let mut r = SniReader::new();
    assert_eq!(r.push(&vec![0u8; 32769]), SniProgress::Failed);
    let mut many = Vec::new();
    for _ in 0..8 {
        many.extend_from_slice(&record(0x17, &[0]));
    }
    many.extend_from_slice(&data);
    assert_eq!(extract_sni(&many), SniScan::Invalid);
}

#[test]
fn truncated_length_fields_fail() {
    let mut msg = client_hello(b"backend.test");
    let n = msg.len();
    msg[n - 13] = 0xff;
    assert_eq!(extract_sni_from_clienthello_handshake(&msg), None);
    assert_eq!(extract_sni_from_clienthello_handshake(&[1, 0, 0]), None);
    assert_eq!(extract_sni_from_clienthello_handshake(&[1, 0, 0, 0]), None);
}

#[test]
fn idle_relay_expires_and_resets() {
    let mut w = IdleWatch::new(1000, PROXY_IDLE_TIMEOUT_MS);
    assert!(!w.is_expired(1000 + PROXY_IDLE_TIMEOUT_MS - 1));
    assert!(w.is_expired(1000 + PROXY_IDLE_TIMEOUT_MS));
    w.touch(1000 + PROXY_IDLE_TIMEOUT_MS - 1);
    assert!(!w.is_expired(1000 + PROXY_IDLE_TIMEOUT_MS));
    assert!(!w.is_expired(1000 + 2 * PROXY_IDLE_TIMEOUT_MS - 2));
    assert!(w.is_expired(1000 + 2 * PROXY_IDLE_TIMEOUT_MS - 1));
    assert_eq!(w.remaining(1000 + PROXY_IDLE_TIMEOUT_MS), PROXY_IDLE_TIMEOUT_MS - 1);
    assert_eq!(w.remaining(1000 + 3 * PROXY_IDLE_TIMEOUT_MS), 0);
}

use msgkit::http::{HTTPVerb, HeaderMap, HttpQuery};
use msgkit::parser::{InvalidStateError, ParserError};

#[test]
fn empty_body_get() {
    let q = HttpQuery::from_string(b"GET /lol17 HTTP/1.1\r\ntype: lol\r\n\r\n").unwrap();
    assert_eq!(q.verb, HTTPVerb::GET);
    assert_eq!(q.url, b"/lol17");
    assert_eq!(q.headers.len(), 1);
    assert_eq!(q.headers.get(b"type"), Some(&b" lol"[..]));
    assert_eq!(q.body, b"");
}

#[test]
fn leading_crlf_tolerated() {
    let q = HttpQuery::from_string(b"\r\n\r\nGET /a HTTP/1.1\r\n\r\nHello").unwrap();
    assert_eq!(q.verb, HTTPVerb::GET);
    assert_eq!(q.url, b"/a");
    assert_eq!(q.headers.len(), 0);
    assert_eq!(q.body, b"Hello");
}

#[test]
fn unknown_verb_degrades_to_get() {
    let q = HttpQuery::from_string(b"FROBNICATE / HTTP/1.1\r\n\r\n").unwrap();
    assert_eq!(q.verb, HTTPVerb::GET);
    assert_eq!(q.url, b"/");
}

#[test]
fn every_verb_is_recognised() {
    let table: [(&[u8], HTTPVerb); 8] = [
        (b"GET", HTTPVerb::GET),
        (b"POST", HTTPVerb::POST),
        (b"PUT", HTTPVerb::PUT),
        (b"HEAD", HTTPVerb::HEAD),
        (b"DELETE", HTTPVerb::DELETE),
        (b"OPTIONS", HTTPVerb::OPTIONS),
        (b"TRACE", HTTPVerb::TRACE),
        (b"CONNECT", HTTPVerb::CONNECT),
    ];
    for (name, verb) in table.iter() {
        assert_eq!(HTTPVerb::parse_from_utf8(name), Some(*verb));
        let mut req = name.to_vec();
        req.extend_from_slice(b" /x HTTP/1.1\r\n\r\n");
        assert_eq!(HttpQuery::from_string(&req).unwrap().verb, *verb);
    }
    assert_eq!(HTTPVerb::parse_from_utf8(b"get"), None);
    assert_eq!(HTTPVerb::parse_from_utf8(b"GETS"), None);
    assert_eq!(HTTPVerb::parse_from_utf8(b""), None);
}

#[test]
fn header_line_without_colon_is_invalid() {
    let r = HttpQuery::from_string(b"GET / HTTP/1.1\r\nok: 1\r\nbroken\r\n\r\n");
    assert_eq!(r.err(), Some(ParserError::InvalidData));
    // A colon in the first byte does not count.
    let r = HttpQuery::from_string(b"GET / HTTP/1.1\r\n:value\r\n\r\n");
    assert_eq!(r.err(), Some(ParserError::InvalidData));
}

#[test]
fn other_version_is_invalid() {
    let r = HttpQuery::from_string(b"GET / HTTP/1.0\r\n\r\n");
    assert_eq!(r.err(), Some(ParserError::InvalidData));
    let r = HttpQuery::from_string(b"GET / HTTP/1.1 \r\n\r\n");
    assert_eq!(r.err(), Some(ParserError::InvalidData));
}

#[test]
fn truncated_requests_report_end_of_input() {
    let eof = Some(ParserError::InvalidState(InvalidStateError::EOF));
    assert_eq!(HttpQuery::from_string(b"").err(), eof);
    assert_eq!(HttpQuery::from_string(b"\r\n\r\n").err(), eof);
    assert_eq!(HttpQuery::from_string(b"GET").err(), eof);
    assert_eq!(HttpQuery::from_string(b"GET /").err(), eof);
    assert_eq!(HttpQuery::from_string(b"GET / HTTP/1.1").err(), eof);
    assert_eq!(HttpQuery::from_string(b"GET / HTTP/1.1\r\na: b\r\n").err(), eof);
}

#[test]
fn header_values_keep_colons_and_spaces() {
    let q = HttpQuery::from_string(b"POST /p HTTP/1.1\r\nHost: a:8080\r\nx:\r\n\r\nbody\r\nmore").unwrap();
    assert_eq!(q.verb, HTTPVerb::POST);
    assert_eq!(q.headers.get(b"Host"), Some(&b" a:8080"[..]));
    assert_eq!(q.headers.get(b"x"), Some(&b""[..]));
    assert_eq!(q.headers.get(b"y"), None);
    assert_eq!(q.headers.len(), 2);
    assert_eq!(q.body, b"body\r\nmore");
}

#[test]
fn later_duplicate_header_wins() {
    let q = HttpQuery::from_string(b"GET / HTTP/1.1\r\na: 1\r\nb: 2\r\na: 3\r\n\r\n").unwrap();
    assert_eq!(q.headers.len(), 2);
    assert_eq!(q.headers.get(b"a"), Some(&b" 3"[..]));
    assert_eq!(q.headers.get(b"b"), Some(&b" 2"[..]));
}

#[test]
fn written_request_reads_back() {
    let fields: [(&[u8], &[u8]); 3] = [(b"Host", b"example.org"), (b"X-Empty", b""), (b"Accept", b" */*")];
    let body: &[u8] = b"\x00\x01binary\r\n\r\npayload";
    let mut wire = b"DELETE /items/7?x=1 HTTP/1.1\r\n".to_vec();
    for (name, value) in fields.iter() {
        wire.extend_from_slice(name);
        wire.push(b':');
        wire.extend_from_slice(value);
        wire.extend_from_slice(b"\r\n");
    }
    wire.extend_from_slice(b"\r\n");
    wire.extend_from_slice(body);
    let q = HttpQuery::from_string(&wire).unwrap();
    assert_eq!(q.verb, HTTPVerb::DELETE);
    assert_eq!(q.url, b"/items/7?x=1");
    assert_eq!(q.headers.len(), fields.len());
    for (name, value) in fields.iter() {
        assert_eq!(q.headers.get(name), Some(*value));
    }
    assert_eq!(q.body, body);
}

#[test]
fn header_map_insert_replaces() {
    let mut h = HeaderMap::new();
    assert_eq!(h.len(), 0);
    h.insert(b"k", b"v1");
    h.insert(b"j", b"w");
    h.insert(b"k", b"v2");
    assert_eq!(h.len(), 2);
    assert_eq!(h.get(b"k"), Some(&b"v2"[..]));
    assert_eq!(h.get(b"j"), Some(&b"w"[..]));
    assert_eq!(h.get(b"kk"), None);
}

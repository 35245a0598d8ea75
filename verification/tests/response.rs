use mini_curl::response::{Response, ResponseBody};
use mini_curl::structs::HeaderMap;

fn wire(response: &Response, status: &str) -> Vec<u8> {
    let mut out: Vec<u8> = Vec::new();
    out.extend_from_slice(status.as_bytes());
    out.extend_from_slice(b"\r\n");
    let mut i = 0;
    while i < response.headers.len() {
        out.extend_from_slice(response.headers.name_at(i).as_bytes());
        out.extend_from_slice(b": ");
        out.extend_from_slice(response.headers.value_at(i).as_bytes());
        out.extend_from_slice(b"\r\n");
        i += 1;
    }
    out.extend_from_slice(b"\r\n");
    match &response.body {
        ResponseBody::Text(text) => out.extend_from_slice(text.as_bytes()),
        ResponseBody::Binary(bytes) => out.extend_from_slice(bytes),
    }
    out
}

fn body_bytes(body: &ResponseBody) -> Vec<u8> {
    match body {
        ResponseBody::Text(text) => text.as_bytes().to_vec(),
        ResponseBody::Binary(bytes) => bytes.clone(),
    }
}

fn fields(map: &HeaderMap) -> Vec<(String, String)> {
    let mut out = Vec::new();
    let mut i = 0;
    while i < map.len() {
        out.push((map.name_at(i).clone(), map.value_at(i).clone()));
        i += 1;
    }
    out
}

#[test]
fn parse_splits_at_the_first_empty_line() {
    let raw = b"HTTP/1.1 200 OK\r\nContent-Type: text/html\r\nX-A:  b \r\n\r\nhello\r\n\r\nworld".to_vec();
    let response = Response::parse(raw.clone());
    assert_eq!(response.raw, raw);
    assert_eq!(
        fields(&response.headers),
        vec![
            ("Content-Type".to_string(), "text/html".to_string()),
            ("X-A".to_string(), "b".to_string())
        ]
    );
    assert_eq!(response.body, ResponseBody::Text("hello\r\n\r\nworld".to_string()));
}

#[test]
fn parse_without_empty_line_is_all_body() {
    let raw = b"HTTP/1.1 200 OK\r\nContent-Type: image/png\r\n".to_vec();
    let response = Response::parse(raw.clone());
    assert_eq!(response.headers.len(), 0);
    assert_eq!(
        response.body,
        ResponseBody::Text("HTTP/1.1 200 OK\r\nContent-Type: image/png\r\n".to_string())
    );
    assert_eq!(response.raw, raw);
}

#[test]
fn parse_of_nothing() {
    let response = Response::parse(Vec::new());
    assert_eq!(response.headers.len(), 0);
    assert_eq!(response.body, ResponseBody::Text(String::new()));
}

#[test]
fn parse_skips_the_status_line_even_with_a_colon() {
    let response = Response::parse(b"HTTP/1.1 200 OK: fine\r\nA: b\r\n\r\n".to_vec());
    assert_eq!(fields(&response.headers), vec![("A".to_string(), "b".to_string())]);
    assert_eq!(response.body, ResponseBody::Text(String::new()));
}

#[test]
fn parse_header_lines() {
    let response = Response::parse(
        b"S\r\nno colon\r\nA:1\r\n B : 2:3 \r\nA: 4\r\n:\r\nC:\r\n\r\n".to_vec(),
    );
    assert_eq!(
        fields(&response.headers),
        vec![
            ("A".to_string(), "4".to_string()),
            ("B".to_string(), "2:3".to_string()),
            ("".to_string(), "".to_string()),
            ("C".to_string(), "".to_string()),
        ]
    );
}

#[test]
fn parse_with_bare_line_feeds_in_the_head() {
    let response = Response::parse(b"S\nA: 1\nB: 2\r\n\r\nbody".to_vec());
    assert_eq!(
        fields(&response.headers),
        vec![("A".to_string(), "1".to_string()), ("B".to_string(), "2".to_string())]
    );
    assert_eq!(response.body, ResponseBody::Text("body".to_string()));
}

#[test]
fn parse_replaces_what_is_no_utf8_in_the_head() {
    let response = Response::parse(b"S\r\nA: x\xffy\r\n\r\n".to_vec());
    assert_eq!(response.headers.get("A").unwrap(), "x\u{fffd}y");
}

#[test]
fn json_with_valid_utf8_is_text() {
    let response =
        Response::parse(b"HTTP/1.1 200 OK\r\nContent-Type: application/json\r\n\r\n{\"a\":1}".to_vec());
    assert_eq!(response.body, ResponseBody::Text("{\"a\":1}".to_string()));
}

#[test]
fn png_is_binary_whatever_the_bytes() {
    let response =
        Response::parse(b"HTTP/1.1 200 OK\r\nContent-Type: image/png\r\n\r\nplain text".to_vec());
    assert_eq!(response.body, ResponseBody::Binary(b"plain text".to_vec()));
    let response =
        Response::parse(b"HTTP/1.1 200 OK\r\nContent-Type: image/png\r\n\r\n\x89PNG\xff".to_vec());
    assert_eq!(response.body, ResponseBody::Binary(b"\x89PNG\xff".to_vec()));
}

#[test]
fn no_content_type_and_invalid_utf8_is_binary() {
    let response = Response::parse(b"HTTP/1.1 200 OK\r\nA: b\r\n\r\n\xff\xfe\x00".to_vec());
    assert_eq!(response.body, ResponseBody::Binary(b"\xff\xfe\x00".to_vec()));
}

#[test]
fn no_content_type_and_valid_utf8_is_text() {
    let response = Response::parse("S\r\nA: b\r\n\r\nzäh".as_bytes().to_vec());
    assert_eq!(response.body, ResponseBody::Text("zäh".to_string()));
}

#[test]
fn text_type_with_invalid_utf8_is_empty_binary() {
    let response = Response::parse(b"S\r\nContent-Type: text/plain\r\n\r\nab\xff".to_vec());
    assert_eq!(response.body, ResponseBody::Binary(Vec::new()));
}

#[test]
fn content_type_name_is_matched_exactly() {
    let response = Response::parse(b"S\r\ncontent-type: image/png\r\n\r\nabc".to_vec());
    assert_eq!(response.body, ResponseBody::Text("abc".to_string()));
}

#[test]
fn textual_content_types() {
    for (content_type, expected) in [
        ("text/plain", true),
        ("TEXT/HTML", true),
        ("application/json", true),
        ("application/JSON; charset=utf-8", true),
        ("application/xml", true),
        ("image/svg+xml", true),
        ("application/xhtml", true),
        ("application/octet-stream", false),
        ("image/png", false),
        ("", false),
        ("text", false),
        ("a text/plain", false),
        ("jso", false),
        ("xhtm", false),
    ] {
        assert_eq!(Response::textual(content_type), expected, "{}", content_type);
    }
}

#[test]
fn detect_body_by_the_fields() {
    let mut fields = HeaderMap::new();
    assert_eq!(
        Response::detect_body(&fields, b"abc".to_vec()),
        ResponseBody::Text("abc".to_string())
    );
    assert_eq!(
        Response::detect_body(&fields, b"\xc3".to_vec()),
        ResponseBody::Binary(b"\xc3".to_vec())
    );
    fields.insert("Content-Type".to_string(), "application/octet-stream".to_string());
    assert_eq!(
        Response::detect_body(&fields, b"abc".to_vec()),
        ResponseBody::Binary(b"abc".to_vec())
    );
    fields.insert("Content-Type".to_string(), "text/html".to_string());
    assert_eq!(
        Response::detect_body(&fields, b"abc".to_vec()),
        ResponseBody::Text("abc".to_string())
    );
    assert_eq!(Response::detect_body(&fields, b"\xc3".to_vec()), ResponseBody::Binary(Vec::new()));
}

#[test]
fn header_fields_of_a_head() {
    let map = Response::header_fields("HTTP/1.1 404 Not Found\r\nServer: x\r\nDate: Mon, 01 Jan\r\n\r\n");
    assert_eq!(
        fields(&map),
        vec![
            ("Server".to_string(), "x".to_string()),
            ("Date".to_string(), "Mon, 01 Jan".to_string())
        ]
    );
    assert_eq!(Response::header_fields("").len(), 0);
    assert_eq!(Response::header_fields("A: b").len(), 0);
}

#[test]
fn parsing_again_what_was_parsed_gives_the_same() {
    let samples: [&[u8]; 9] = [
        b"HTTP/1.1 200 OK\r\nContent-Type: application/json\r\nX: 1\r\n\r\n{\"a\":1}",
        b"HTTP/1.1 200 OK\r\nContent-Type: image/png\r\n\r\n\x89PNG\r\n\r\n\xff",
        b"no empty line at all",
        b"S\r\nA:1\r\n B : 2:3 \r\nA: 4\r\n:\r\nC:\r\nnone\r\n\r\nbody\r\n\r\n",
        b"S\r\nContent-Type: text/plain\r\n\r\n\xff",
        b"\r\n\r\n",
        b"S\r\nA\rB: c\rd\r\nE: \xfff\r\n\r\n\xc3\xa4",
        b"",
        b"S\nA: 1\n\nB: 2\r\n\r\nrest",
    ];
    for raw in samples {
        let first = Response::parse(raw.to_vec());
        let again = Response::parse(wire(&first, "HTTP/1.1 200 OK"));
        assert_eq!(fields(&again.headers), fields(&first.headers));
        assert_eq!(body_bytes(&again.body), body_bytes(&first.body));
    }
}

#[test]
fn read_appends_until_the_stream_ends() {
    let mut received: Vec<u8> = Vec::new();
    assert!(Response::read(&mut received, Some(b"abc")));
    assert!(Response::read(&mut received, Some(b"de")));
    assert_eq!(received, b"abcde".to_vec());
    assert!(!Response::read(&mut received, Some(b"")));
    assert_eq!(received, b"abcde".to_vec());
}

#[test]
fn read_stops_at_a_failed_read_and_keeps_what_came() {
    let mut received: Vec<u8> = Vec::new();
    assert!(Response::read(&mut received, Some(b"partial")));
    assert!(!Response::read(&mut received, None));
    assert_eq!(received, b"partial".to_vec());
}

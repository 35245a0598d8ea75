use mini_curl::parser::Target;
use mini_curl::plain::request;

fn plain(url: &str) -> request {
    request::new(&Target::parse(url).unwrap())
}

#[test]
fn plain_get_has_the_fixed_head() {
    let mut r = plain("http://example.com/a/b?x=1");
    assert_eq!(
        String::from_utf8(r.get()).unwrap(),
        "GET /a/b?x=1 HTTP/1.1\r\nHost: example.com\r\nContent-Type: application/x-www-form-urlencoded\r\nContent-Length: 0\r\nConnection: close\r\n\r\n"
    );
}

#[test]
fn plain_get_counts_the_data_and_does_not_send_it() {
    let mut r = plain("http://example.com");
    r.set_data(&"k=v".to_string());
    assert_eq!(
        String::from_utf8(r.get()).unwrap(),
        "GET / HTTP/1.1\r\nHost: example.com\r\nContent-Type: application/x-www-form-urlencoded\r\nContent-Length: 3\r\nConnection: close\r\n\r\n"
    );
}

#[test]
fn plain_post_leaves_the_query_out_and_sends_the_data() {
    let mut r = plain("http://10.0.0.1:8080/form?x=1");
    r.set_data(&"a=ä".to_string());
    assert_eq!(
        String::from_utf8(r.post()).unwrap(),
        "POST /form HTTP/1.1\r\nHost: 10.0.0.1\r\nContent-Type: application/x-www-form-urlencoded\r\nContent-Length: 4\r\nConnection: close\r\n\r\na=ä"
    );
}

#[test]
fn plain_post_without_data() {
    let mut r = plain("http://example.com/");
    assert_eq!(
        String::from_utf8(r.post()).unwrap(),
        "POST / HTTP/1.1\r\nHost: example.com\r\nContent-Type: application/x-www-form-urlencoded\r\nContent-Length: 0\r\nConnection: close\r\n\r\n"
    );
}

#[test]
fn plain_head_is_made_anew_for_each_request() {
    let mut r = plain("http://example.com/");
    r.set_header(&"X: y".to_string()).set_data(&"d".to_string());
    let wire = String::from_utf8(r.get()).unwrap();
    assert!(wire.starts_with("GET / HTTP/1.1\r\nHost: example.com\r\n"));
    assert!(!wire.contains("X: y"));
}

#[test]
fn extract_body_takes_what_follows_the_empty_line() {
    assert_eq!(request::extract_body("HTTP/1.1 200 OK\r\nA: b\r\n\r\nbody\r\n\r\nmore"), "body\r\n\r\nmore");
    assert_eq!(request::extract_body("HTTP/1.1 200 OK\nA: b\n\nbody"), "body");
    assert_eq!(request::extract_body("a\n\nb\r\n\r\nc"), "c");
    assert_eq!(request::extract_body("no empty line\r\n"), "");
    assert_eq!(request::extract_body(""), "");
    assert_eq!(request::extract_body("é\r\n\r\nü"), "ü");
    assert_eq!(request::extract_body("\r\n\r\n"), "");
}

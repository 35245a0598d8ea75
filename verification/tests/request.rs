use mini_curl::error::{Error, Unresolved};
use mini_curl::parser::{Destination, Host, IpAddress, Target};
use mini_curl::requester::Request;
use mini_curl::response::ResponseBody;
use mini_curl::structs::{Contype, Method};

fn request(url: &str) -> Request {
    Request::new(&Target::parse(url).unwrap())
}

fn one_answer() -> Vec<IpAddress> {
    vec![IpAddress::V4([93, 184, 216, 34])]
}

#[test]
fn get_without_headers_or_data() {
    let mut request = request("http://example.com/");
    let exchange = request.http_do("GET".to_string(), &one_answer()).unwrap();
    let head = String::from_utf8(exchange.head.clone()).unwrap();
    assert!(head.starts_with("GET / HTTP/1.1\r\nHost: example.com\r\n"));
    assert!(head.contains("\r\nConnection: close\r\n"));
    assert!(head.ends_with("\r\n\r\n"));
    assert_eq!(exchange.body, None);
    assert_eq!(
        head,
        "GET / HTTP/1.1\r\nHost: example.com\r\nUser-Agent: mini-curl-dragonos/0.1\r\nAccept: */*\r\nContent-Type: application/x-www-form-urlencoded\r\nConnection: close\r\n\r\n"
    );
    assert_eq!(
        exchange.destinations,
        vec![Destination { ip: IpAddress::V4([93, 184, 216, 34]), port: 80 }]
    );
    assert_eq!(exchange.server_name, None);
}

#[test]
fn get_sends_no_body_even_with_data() {
    let mut request = request("http://example.com/");
    request.set_data(&"{\"a\":1}".to_string());
    let exchange = request.http_do("GET".to_string(), &one_answer()).unwrap();
    let head = String::from_utf8(exchange.head).unwrap();
    assert_eq!(exchange.body, None);
    assert!(!head.contains("Content-Length"));
    assert!(head.contains("\r\nContent-Type: application/json\r\n"));
}

#[test]
fn post_with_data_sets_json_and_the_length() {
    let mut request = request("http://example.com/api");
    request.set_data(&"{\"a\": 1}".to_string());
    let exchange = request.http_do("POST".to_string(), &one_answer()).unwrap();
    let head = String::from_utf8(exchange.head).unwrap();
    assert!(head.starts_with("POST /api HTTP/1.1\r\nHost: example.com\r\n"));
    assert!(head.contains("\r\nContent-Type: application/json\r\n"));
    assert!(head.contains("\r\nContent-Length: 8\r\n"));
    assert!(head.ends_with("\r\n\r\n"));
    assert_eq!(exchange.body, Some(b"{\"a\": 1}".to_vec()));
}

#[test]
fn post_length_is_the_number_of_bytes_of_the_data() {
    let mut request = request("http://example.com/");
    request.set_data(&"{\"a\":1}".to_string());
    let (head, body) = request.post();
    let head = String::from_utf8(head).unwrap();
    assert!(head.contains("\r\nContent-Length: 7\r\n"));
    assert_eq!(body, Some(b"{\"a\":1}".to_vec()));

    let mut request = self::request("http://example.com/");
    request.set_data(&"zäh".to_string());
    let (head, body) = request.post();
    assert!(String::from_utf8(head).unwrap().contains("\r\nContent-Length: 4\r\n"));
    assert_eq!(body, Some("zäh".as_bytes().to_vec()));
}

#[test]
fn post_with_empty_data_has_length_zero() {
    let mut request = request("http://example.com/");
    request.set_data(&String::new());
    let (head, body) = request.post();
    assert!(String::from_utf8(head).unwrap().contains("\r\nContent-Length: 0\r\n"));
    assert_eq!(body, Some(Vec::new()));
}

#[test]
fn post_without_data_has_no_body_and_no_length() {
    let mut request = request("http://example.com/");
    let (head, body) = request.post();
    let head = String::from_utf8(head).unwrap();
    assert_eq!(
        head,
        "POST / HTTP/1.1\r\nHost: example.com\r\nUser-Agent: mini-curl-dragonos/0.1\r\nAccept: */*\r\nContent-Type: application/x-www-form-urlencoded\r\nConnection: close\r\n\r\n"
    );
    assert_eq!(body, None);
}

#[test]
fn post_with_form_data() {
    let mut request = request("http://example.com/upload");
    request.set_formdata(b"--b\r\n...--b--\r\n", "b".to_string());
    assert_eq!(request.content_type(), &Contype::FORMDATA("b".to_string()));
    let (head, body) = request.post();
    let head = String::from_utf8(head).unwrap();
    assert!(head.contains("\r\nContent-Type: multipart/form-data; boundary=b\r\n"));
    assert!(head.contains("\r\nContent-Length: 15\r\n"));
    assert_eq!(body, Some(b"--b\r\n...--b--\r\n".to_vec()));
}

#[test]
fn what_is_set_last_goes_out() {
    let mut request = request("http://example.com/");
    request.set_formdata(b"form", "b".to_string());
    request.set_data(&"data!".to_string());
    let (head, body) = request.post();
    assert!(String::from_utf8(head).unwrap().contains("\r\nContent-Type: application/json\r\n"));
    assert_eq!(body, Some(b"data!".to_vec()));

    let mut request = self::request("http://example.com/");
    request.set_data(&"data!".to_string());
    request.set_formdata(b"form", "b".to_string());
    let (_, body) = request.post();
    assert_eq!(body, Some(b"form".to_vec()));
}

#[test]
fn the_path_takes_the_query_as_it_is() {
    let mut request = request("http://example.com/a%20b/c?x=1&y=%C3%A4#frag");
    let head = String::from_utf8(request.get()).unwrap();
    assert!(head.starts_with("GET /a%20b/c?x=1&y=%C3%A4 HTTP/1.1\r\n"));
}

#[test]
fn an_empty_path_is_a_slash() {
    let url = Target {
        scheme: "http".to_string(),
        host: Some(Host::Domain("example.com".to_string())),
        port: None,
        path: String::new(),
        query: Some("q".to_string()),
    };
    let mut request = Request::new(&url);
    let head = String::from_utf8(request.get()).unwrap();
    assert!(head.starts_with("GET /?q HTTP/1.1\r\n"));
}

#[test]
fn host_has_no_port() {
    let mut request = request("http://example.com:8080/");
    let head = String::from_utf8(request.get()).unwrap();
    assert!(head.contains("\r\nHost: example.com\r\n"));
    let mut request = self::request("http://10.1.2.3:8080/");
    let head = String::from_utf8(request.get()).unwrap();
    assert!(head.contains("\r\nHost: 10.1.2.3\r\n"));
}

#[test]
fn construct_header_sets_line_host_and_content_type() {
    let mut request = request("http://example.com/x");
    request.construct_header(Method::POST);
    let header = request.header();
    let line = header.request_line.clone().unwrap();
    assert_eq!(line.method, Method::POST);
    assert_eq!(line.path, "/x");
    assert_eq!(line.version, "HTTP/1.1");
    assert_eq!(header.get("Host").unwrap(), "example.com");
    assert_eq!(header.get("Content-Type").unwrap(), "application/x-www-form-urlencoded");
    assert!(header.get("Connection").is_none());
    assert_eq!(header.header.len(), 4);
}

#[test]
fn new_request_has_the_defaults() {
    let request = request("http://example.com/");
    assert_eq!(request.content_type(), &Contype::FORM);
    assert!(request.response().is_none());
    assert!(request.header().request_line.is_none());
    assert_eq!(request.header().to_string(), "User-Agent: mini-curl-dragonos/0.1\r\nAccept: */*");
    assert_eq!(request.body(), None);
}

#[test]
fn set_header_replaces_the_whole_head() {
    let mut request = request("http://example.com/");
    request.set_header(&"X-Token: abc\r\nAccept: text/html".to_string());
    assert!(request.header().get("User-Agent").is_none());
    assert_eq!(request.header().get("X-Token").unwrap(), "abc");
    assert_eq!(request.header().get("Accept").unwrap(), "text/html");
    assert_eq!(request.header().header.len(), 2);
    let head = String::from_utf8(request.get()).unwrap();
    assert_eq!(
        head,
        "GET / HTTP/1.1\r\nHost: example.com\r\nX-Token: abc\r\nAccept: text/html\r\nContent-Type: application/x-www-form-urlencoded\r\nConnection: close\r\n\r\n"
    );
}

#[test]
fn set_header_with_a_request_line() {
    let mut request = request("http://example.com/");
    request.set_header(&"POST /other HTTP/1.0\r\nA: b\r\n".to_string());
    let line = request.header().request_line.clone().unwrap();
    assert_eq!(line.method, Method::POST);
    assert_eq!(line.path, "/other");
    assert_eq!(line.version, "HTTP/1.0");
    assert_eq!(request.header().header.len(), 1);
}

#[test]
fn add_item_to_header_trims_name_and_value() {
    let mut request = request("http://example.com/");
    request
        .add_item_to_header("  X-A :  1:2  ")
        .add_item_to_header("X-B")
        .add_item_to_header("X-C:")
        .add_item_to_header("Accept: text/html");
    assert_eq!(request.header().get("X-A").unwrap(), "1:2");
    assert_eq!(request.header().get("X-B").unwrap(), "");
    assert_eq!(request.header().get("X-C").unwrap(), "");
    assert_eq!(request.header().get("Accept").unwrap(), "text/html");
    assert_eq!(request.header().header.len(), 5);
}

#[test]
fn setters_chain() {
    let mut request = request("http://example.com/");
    request.set_data(&"d".to_string()).set_formdata(b"f", "b".to_string()).add_item_to_header("A: b");
    assert_eq!(request.content_type(), &Contype::FORMDATA("b".to_string()));
    assert_eq!(request.body(), Some(b"f".to_vec()));
}

#[test]
fn http_do_fails_on_another_method_and_leaves_the_request() {
    let mut request = request("http://example.com/");
    assert_eq!(request.http_do("PUT".to_string(), &one_answer()), Err(Error::UnsupportedMethod));
    assert_eq!(request.http_do("get".to_string(), &one_answer()), Err(Error::UnsupportedMethod));
    assert!(request.header().request_line.is_none());
    assert_eq!(request.header().header.len(), 2);
}

#[test]
fn http_do_fails_first_on_the_destinations() {
    let mut request = request("http://example.com/");
    assert_eq!(
        request.http_do("PUT".to_string(), &vec![]),
        Err(Error::Resolution(Unresolved::NoAddress))
    );
    let mut request = self::request("http://[::1]/");
    assert_eq!(
        request.http_do("GET".to_string(), &one_answer()),
        Err(Error::Resolution(Unresolved::Ipv6Host))
    );
    let mut request = self::request("data:text/plain,x");
    assert_eq!(
        request.http_do("GET".to_string(), &one_answer()),
        Err(Error::Resolution(Unresolved::MissingHost))
    );
    assert!(request.header().request_line.is_none());
}

#[test]
fn https_do_names_the_server_by_the_host() {
    let mut request = request("https://example.com/secure");
    let answers = vec![IpAddress::V4([1, 1, 1, 1]), IpAddress::V4([2, 2, 2, 2])];
    let exchange = request.https_do("GET".to_string(), &answers).unwrap();
    assert_eq!(exchange.server_name, Some("example.com".to_string()));
    assert_eq!(
        exchange.destinations,
        vec![
            Destination { ip: IpAddress::V4([1, 1, 1, 1]), port: 443 },
            Destination { ip: IpAddress::V4([2, 2, 2, 2]), port: 443 },
        ]
    );
    assert!(String::from_utf8(exchange.head).unwrap().starts_with(
        "GET /secure HTTP/1.1\r\nHost: example.com\r\n"
    ));
    assert_eq!(exchange.body, None);
}

#[test]
fn https_do_takes_an_ip_address_for_a_name() {
    let mut request = request("https://1.2.3.4:8443/");
    let exchange = request.https_do("POST".to_string(), &vec![]).unwrap();
    assert_eq!(exchange.server_name, Some("1.2.3.4".to_string()));
    assert_eq!(
        exchange.destinations,
        vec![Destination { ip: IpAddress::V4([1, 2, 3, 4]), port: 8443 }]
    );
}

#[test]
fn https_do_refuses_a_host_that_is_no_server_name() {
    let url = Target {
        scheme: "https".to_string(),
        host: Some(Host::Domain("not a name".to_string())),
        port: None,
        path: "/".to_string(),
        query: None,
    };
    let mut request = Request::new(&url);
    assert_eq!(
        request.https_do("GET".to_string(), &one_answer()),
        Err(Error::Transport("invalid server name".to_string()))
    );
    assert!(request.header().request_line.is_none());
    let url = Target { host: Some(Host::Domain("-a.example".to_string())), ..url };
    let mut request = Request::new(&url);
    assert_eq!(
        request.https_do("GET".to_string(), &one_answer()),
        Err(Error::Transport("invalid server name".to_string()))
    );
}

#[test]
fn https_do_fails_in_the_order_destinations_name_method() {
    let url = Target {
        scheme: "https".to_string(),
        host: Some(Host::Domain("not a name".to_string())),
        port: None,
        path: "/".to_string(),
        query: None,
    };
    let mut request = Request::new(&url);
    assert_eq!(
        request.https_do("PUT".to_string(), &vec![]),
        Err(Error::Resolution(Unresolved::NoAddress))
    );
    assert_eq!(
        request.https_do("PUT".to_string(), &one_answer()),
        Err(Error::Transport("invalid server name".to_string()))
    );
    let mut request = self::request("https://example.com/");
    assert_eq!(request.https_do("PUT".to_string(), &one_answer()), Err(Error::UnsupportedMethod));
}

#[test]
fn https_plan_goes_by_the_flag() {
    let mut request = request("https://example.com/");
    assert_eq!(
        request.https_plan("GET".to_string(), &one_answer(), false),
        Err(Error::Transport("invalid server name".to_string()))
    );
    let exchange = request.https_plan("GET".to_string(), &one_answer(), true).unwrap();
    assert_eq!(exchange.server_name, Some("example.com".to_string()));
}

#[test]
fn fetch_response_attaches_the_response_and_shows_text() {
    let mut request = request("http://example.com/");
    let shown =
        request.fetch_response(b"HTTP/1.1 200 OK\r\nContent-Type: text/plain\r\n\r\nhello".to_vec());
    assert_eq!(shown, "hello");
    let response = request.response().unwrap();
    assert_eq!(response.body, ResponseBody::Text("hello".to_string()));
    assert_eq!(response.headers.get("Content-Type").unwrap(), "text/plain");
    assert_eq!(request.response_output(), Ok(b"hello".to_vec()));
}

#[test]
fn fetch_response_warns_of_a_binary_body() {
    let mut request = request("http://example.com/");
    let shown =
        request.fetch_response(b"HTTP/1.1 200 OK\r\nContent-Type: image/png\r\n\r\n\x89PNG".to_vec());
    assert_eq!(
        shown,
        "Warning: Binary output can mess up your terminal.\nWarning: or consider '--output <FILE>' to save to a file."
    );
    assert_eq!(request.response_output(), Ok(b"\x89PNG".to_vec()));
}

#[test]
fn response_output_fails_without_a_response() {
    let request = request("http://example.com/");
    assert_eq!(request.response_output(), Err(Error::NoResponse));
}

#[test]
fn head_bytes_are_the_head_and_an_empty_line() {
    let request = request("http://example.com/");
    assert_eq!(
        request.head_bytes(),
        b"User-Agent: mini-curl-dragonos/0.1\r\nAccept: */*\r\n\r\n".to_vec()
    );
}

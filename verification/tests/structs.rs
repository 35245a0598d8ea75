use mini_curl::error::{Error, Unresolved};
use mini_curl::structs::{Contype, HeaderMap, Method};

#[test]
fn content_type_texts() {
    assert_eq!(Contype::FORM.to_string(), "application/x-www-form-urlencoded");
    assert_eq!(
        Contype::FORMDATA("----mini-curl-42".to_string()).to_string(),
        "multipart/form-data; boundary=----mini-curl-42"
    );
    assert_eq!(Contype::FORMDATA(String::new()).to_string(), "multipart/form-data; boundary=");
    assert_eq!(Contype::JSON.to_string(), "application/json");
    assert_eq!(Contype::XML.to_string(), "text/xml");
    assert_eq!(Contype::TEXT.to_string(), "text/plain");
    assert_eq!(Contype::STREAM.to_string(), "application/octet-stream");
}

#[test]
fn method_names() {
    assert_eq!(Method::GET.as_str(), "GET");
    assert_eq!(Method::POST.as_str(), "POST");
    assert_eq!(Method::parse("GET"), Some(Method::GET));
    assert_eq!(Method::parse("POST"), Some(Method::POST));
    assert_eq!(Method::parse("get"), None);
    assert_eq!(Method::parse("PUT"), None);
    assert_eq!(Method::parse(""), None);
    assert_eq!(Method::parse("GET "), None);
    assert_eq!(Method::parse_chars(&['P', 'O', 'S', 'T']), Some(Method::POST));
}

#[test]
fn header_map_keeps_the_order_of_first_insertion() {
    let mut map = HeaderMap::new();
    assert_eq!(map.len(), 0);
    map.insert("b".to_string(), "1".to_string());
    map.insert("a".to_string(), "2".to_string());
    map.insert("b".to_string(), "3".to_string());
    assert_eq!(map.len(), 2);
    assert_eq!(map.name_at(0), "b");
    assert_eq!(map.value_at(0), "3");
    assert_eq!(map.name_at(1), "a");
    assert_eq!(map.value_at(1), "2");
    assert_eq!(map.get("a").unwrap(), "2");
    assert!(map.get("c").is_none());
    assert!(map.contains_key("b"));
    assert!(!map.contains_key("B"));
}

#[test]
fn header_map_add_line() {
    let mut map = HeaderMap::new();
    let line: Vec<char> = "  Key :  some value \t".chars().collect();
    map.add_line(&line, &[':'], true);
    assert_eq!(map.get("Key").unwrap(), "some value");
    map.add_line(&line, &[':', ' '], false);
    assert_eq!(map.len(), 2);
    assert_eq!(map.get("  Key ").unwrap(), " some value \t");
    map.add_line(&line, &[':'], false);
    assert_eq!(map.len(), 2);
    assert_eq!(map.get("  Key ").unwrap(), "  some value \t");
    let none: Vec<char> = "no separator".chars().collect();
    map.add_line(&none, &[':'], true);
    map.add_line(&none, &[':', ' '], false);
    assert_eq!(map.len(), 2);
}

#[test]
fn error_messages() {
    assert_eq!(Error::UrlParse.message(), "invalid URL");
    assert_eq!(Error::Resolution(Unresolved::MissingHost).message(), "miss host name");
    assert_eq!(Error::Resolution(Unresolved::Ipv6Host).message(), "not support ipv6");
    assert_eq!(Error::Resolution(Unresolved::UnsupportedScheme).message(), "unsupported scheme");
    assert_eq!(Error::Resolution(Unresolved::NoAddress).message(), "Failed to resolve domain");
    assert_eq!(Error::Transport("refused".to_string()).message(), "refused");
    assert_eq!(Error::Io("a/b.txt".to_string()).message(), "cannot access file: a/b.txt");
    assert_eq!(Error::UnsupportedMethod.message(), "unsupported method");
    assert_eq!(Error::NoResponse.message(), "found none response");
}

use mini_curl::error::{Error, Unresolved};
use mini_curl::parser::{to_adders, Destination, Host, IpAddress, Target};

fn target(scheme: &str, host: Option<Host>, port: Option<u16>) -> Target {
    Target { scheme: scheme.to_string(), host, port, path: "/".to_string(), query: None }
}

const V6: [u8; 16] = [0x20, 0x01, 0x0d, 0xb8, 0, 0, 0, 0, 0, 0, 0, 0, 0, 0, 0, 1];

#[test]
fn ipv4_literal_without_port_goes_to_port_80() {
    let url = target("http", Some(Host::Ipv4([1, 2, 3, 4])), None);
    assert_eq!(
        to_adders(&url, &vec![]),
        Ok(vec![Destination { ip: IpAddress::V4([1, 2, 3, 4]), port: 80 }])
    );
}

#[test]
fn ipv4_literal_with_https_and_no_port_goes_to_port_80() {
    let url = Target::parse("https://1.2.3.4/x").unwrap();
    assert_eq!(url.host, Some(Host::Ipv4([1, 2, 3, 4])));
    assert_eq!(url.port, None);
    assert_eq!(
        to_adders(&url, &vec![]),
        Ok(vec![Destination { ip: IpAddress::V4([1, 2, 3, 4]), port: 80 }])
    );
}

#[test]
fn ipv4_literal_does_not_read_the_answers() {
    let url = target("http", Some(Host::Ipv4([10, 0, 0, 1])), None);
    let answers = vec![IpAddress::V4([9, 9, 9, 9]), IpAddress::V6(V6)];
    assert_eq!(
        to_adders(&url, &answers),
        Ok(vec![Destination { ip: IpAddress::V4([10, 0, 0, 1]), port: 80 }])
    );
}

#[test]
fn ipv4_literal_with_port_goes_to_that_port() {
    for scheme in ["http", "https", "ftp", "gopher"] {
        let url = target(scheme, Some(Host::Ipv4([127, 0, 0, 1])), Some(8080));
        assert_eq!(
            to_adders(&url, &vec![]),
            Ok(vec![Destination { ip: IpAddress::V4([127, 0, 0, 1]), port: 8080 }])
        );
    }
}

#[test]
fn ipv4_literal_with_another_scheme_and_no_port_fails() {
    let url = target("ftp", Some(Host::Ipv4([1, 2, 3, 4])), None);
    assert_eq!(to_adders(&url, &vec![]), Err(Error::Resolution(Unresolved::UnsupportedScheme)));
}

#[test]
fn domain_gets_one_destination_for_each_answer_in_order() {
    let url = target("http", Some(Host::Domain("example.com".to_string())), None);
    let answers =
        vec![IpAddress::V4([93, 184, 216, 34]), IpAddress::V6(V6), IpAddress::V4([93, 184, 216, 34])];
    assert_eq!(
        to_adders(&url, &answers),
        Ok(vec![
            Destination { ip: IpAddress::V4([93, 184, 216, 34]), port: 80 },
            Destination { ip: IpAddress::V6(V6), port: 80 },
            Destination { ip: IpAddress::V4([93, 184, 216, 34]), port: 80 },
        ])
    );
}

#[test]
fn domain_with_https_goes_to_port_443() {
    let url = target("https", Some(Host::Domain("example.com".to_string())), None);
    assert_eq!(
        to_adders(&url, &vec![IpAddress::V4([1, 1, 1, 1])]),
        Ok(vec![Destination { ip: IpAddress::V4([1, 1, 1, 1]), port: 443 }])
    );
}

#[test]
fn domain_with_port_goes_to_that_port() {
    let url = target("ws", Some(Host::Domain("example.com".to_string())), Some(9000));
    assert_eq!(
        to_adders(&url, &vec![IpAddress::V4([1, 1, 1, 1])]),
        Ok(vec![Destination { ip: IpAddress::V4([1, 1, 1, 1]), port: 9000 }])
    );
}

#[test]
fn domain_that_does_not_resolve_fails() {
    let url = target("http", Some(Host::Domain("no-such-host.invalid".to_string())), None);
    assert_eq!(to_adders(&url, &vec![]), Err(Error::Resolution(Unresolved::NoAddress)));
    let url = target("ftp", Some(Host::Domain("no-such-host.invalid".to_string())), None);
    assert_eq!(to_adders(&url, &vec![]), Err(Error::Resolution(Unresolved::NoAddress)));
}

#[test]
fn domain_with_another_scheme_and_no_port_fails() {
    let url = target("ftp", Some(Host::Domain("example.com".to_string())), None);
    assert_eq!(
        to_adders(&url, &vec![IpAddress::V4([1, 1, 1, 1])]),
        Err(Error::Resolution(Unresolved::UnsupportedScheme))
    );
}

#[test]
fn ipv6_literal_fails() {
    let url = Target::parse("http://[::1]:8080/").unwrap();
    assert_eq!(url.host, Some(Host::Ipv6("[::1]".to_string())));
    assert_eq!(
        to_adders(&url, &vec![IpAddress::V6(V6)]),
        Err(Error::Resolution(Unresolved::Ipv6Host))
    );
}

#[test]
fn missing_host_fails() {
    let url = Target::parse("data:text/plain,hello").unwrap();
    assert_eq!(url.host, None);
    assert_eq!(to_adders(&url, &vec![]), Err(Error::Resolution(Unresolved::MissingHost)));
}

#[test]
fn parse_reads_the_parts_of_a_url() {
    let url = Target::parse("HTTP://User@Example.COM:8080/a/b%20c?x=1&y=2#frag").unwrap();
    assert_eq!(
        url,
        Target {
            scheme: "http".to_string(),
            host: Some(Host::Domain("example.com".to_string())),
            port: Some(8080),
            path: "/a/b%20c".to_string(),
            query: Some("x=1&y=2".to_string()),
        }
    );
}

#[test]
fn parse_gives_no_port_for_the_default_of_the_scheme() {
    assert_eq!(Target::parse("http://example.com:80/").unwrap().port, None);
    assert_eq!(Target::parse("https://example.com:443/").unwrap().port, None);
    assert_eq!(Target::parse("https://example.com:80/").unwrap().port, Some(80));
}

#[test]
fn parse_gives_a_slash_for_an_empty_path() {
    let url = Target::parse("http://example.com").unwrap();
    assert_eq!(url.path, "/");
    assert_eq!(url.query, None);
}

#[test]
fn parse_refuses_what_is_no_url() {
    assert_eq!(Target::parse("not a url"), Err(Error::UrlParse));
    assert_eq!(Target::parse(""), Err(Error::UrlParse));
    assert_eq!(Target::parse("http://"), Err(Error::UrlParse));
    assert_eq!(Target::parse("//example.com/"), Err(Error::UrlParse));
}

#[test]
fn host_in_text() {
    assert_eq!(Host::Domain("example.com".to_string()).to_string(), "example.com");
    assert_eq!(Host::Ipv4([1, 2, 3, 4]).to_string(), "1.2.3.4");
    assert_eq!(Host::Ipv4([0, 10, 100, 255]).to_string(), "0.10.100.255");
    assert_eq!(Host::Ipv6("[::1]".to_string()).to_string(), "[::1]");
    assert_eq!(
        Target::parse("http://0x7f.1/").unwrap().host_str(),
        Some("127.0.0.1".to_string())
    );
    assert_eq!(Target::parse("mailto:a@b.c").unwrap().host_str(), None);
}

#[test]
fn lookup_name_is_the_domain() {
    let url = Target::parse("http://example.com/").unwrap();
    assert_eq!(url.lookup_name(), Some(&"example.com".to_string()));
    assert_eq!(Target::parse("http://1.2.3.4/").unwrap().lookup_name(), None);
    assert_eq!(Target::parse("http://[::1]/").unwrap().lookup_name(), None);
    assert_eq!(Target::parse("unix:/run/foo.socket").unwrap().lookup_name(), None);
}

#[test]
fn default_ports() {
    assert_eq!(target("http", None, None).default_port(), Some(80));
    assert_eq!(target("https", None, None).default_port(), Some(443));
    assert_eq!(target("ftp", None, None).default_port(), None);
    assert_eq!(target("", None, None).default_port(), None);
    assert_eq!(target("HTTP", None, None).default_port(), None);
}

#[test]
fn copies_are_equal() {
    let url = Target::parse("https://example.com:8443/p?q").unwrap();
    assert_eq!(url.copy(), url);
    let host = Host::Ipv4([1, 2, 3, 4]);
    assert_eq!(host.copy(), host);
}

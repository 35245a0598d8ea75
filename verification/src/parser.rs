//! Where a request goes: the parts of a URL and the destinations they give.

use crate::error::{Error, ErrorView, Unresolved};
use crate::text::{decimal, push_decimal, str_eq, string_of};
use vstd::prelude::*;

verus! {

/// An IP address.
#[derive(Clone, Copy, Debug, PartialEq, Eq)]
pub enum IpAddress {
    /// An IPv4 address: its four octets.
    V4([u8; 4]),
    /// An IPv6 address: its sixteen octets.
    V6([u8; 16]),
}

/// An address to connect to.
#[derive(Clone, Copy, Debug, PartialEq, Eq)]
pub struct Destination {
    pub ip: IpAddress,
    pub port: u16,
}

/// The host of a URL.
#[derive(Clone, Debug, PartialEq, Eq)]
pub enum Host {
    /// A domain name.
    Domain(String),
    /// An IPv4 address: its four octets.
    Ipv4([u8; 4]),
    /// An IPv6 address, as the URL spells it between its brackets, brackets
    /// included.
    Ipv6(String),
}

/// A `Host` as it counts in contracts.
pub enum HostView {
    Domain(Seq<char>),
    Ipv4([u8; 4]),
    Ipv6(Seq<char>),
}

impl View for Host {
    type V = HostView;

    open spec fn view(&self) -> HostView {
        match *self {
            Host::Domain(name) => HostView::Domain(name@),
            Host::Ipv4(octets) => HostView::Ipv4(octets),
            Host::Ipv6(text) => HostView::Ipv6(text@),
        }
    }
}

/// An IPv4 address in text: four decimal numbers with dots between them.
pub open spec fn dotted(octets: [u8; 4]) -> Seq<char> {
    decimal(octets[0] as nat) + seq!['.'] + decimal(octets[1] as nat) + seq!['.'] + decimal(
        octets[2] as nat,
    ) + seq!['.'] + decimal(octets[3] as nat)
}

impl HostView {
    /// The host as the `Host` field and the TLS handshake name it.
    pub open spec fn text(self) -> Seq<char> {
        match self {
            HostView::Domain(name) => name,
            HostView::Ipv4(octets) => dotted(octets),
            HostView::Ipv6(text) => text,
        }
    }
}

impl Host {
    /// The host as the `Host` field and the TLS handshake name it.
    pub fn to_string(&self) -> (r: String)
        ensures
            r@ == self@.text(),
    {
        match self {
            Host::Domain(name) => name.clone(),
            Host::Ipv4(octets) => {
                let mut out: Vec<char> = Vec::new();
                push_decimal(&mut out, octets[0] as u64);
                out.push('.');
                push_decimal(&mut out, octets[1] as u64);
                out.push('.');
                push_decimal(&mut out, octets[2] as u64);
                out.push('.');
                push_decimal(&mut out, octets[3] as u64);
                assert(out@ =~= dotted(*octets));
                string_of(out.as_slice())
            },
            Host::Ipv6(text) => text.clone(),
        }
    }
}

/// The parts of a URL that a request reads.
#[derive(Clone, Debug, PartialEq, Eq)]
pub struct Target {
    /// The scheme, in small letters, without the colon.
    pub scheme: String,
    /// The host, if the URL has one.
    pub host: Option<Host>,
    /// The port, if the URL gives one that is not the default of its scheme.
    pub port: Option<u16>,
    /// The path.
    pub path: String,
    /// The query, without the question mark, if the URL has one.
    pub query: Option<String>,
}

/// A `Target` as it counts in contracts.
pub struct TargetView {
    pub scheme: Seq<char>,
    pub host: Option<HostView>,
    pub port: Option<u16>,
    pub path: Seq<char>,
    pub query: Option<Seq<char>>,
}

impl View for Target {
    type V = TargetView;

    open spec fn view(&self) -> TargetView {
        TargetView {
            scheme: self.scheme@,
            host: match self.host {
                Some(host) => Some(host@),
                None => None,
            },
            port: self.port,
            path: self.path@,
            query: match self.query {
                Some(query) => Some(query@),
                None => None,
            },
        }
    }
}

/// The error of `url::Url::parse`. Nothing is read from it.
#[verifier::external_type_specification]
#[verifier::external_body]
pub struct ExParseError(url::ParseError);

/// The parts of the URL that `url::Url::parse` reads from `text`, or `None`
/// where it refuses `text`.
pub uninterp spec fn url_parts(text: Seq<char>) -> Option<TargetView>;

/// `url::Url::parse`, and the parsed URL's `scheme`, `host`, `port`, `path` and
/// `query` as the parts of a `Target`; for an IPv6 host, its `host_str`.
#[verifier::external_body]
fn split_url(text: &str) -> (r: Result<Target, url::ParseError>)
    ensures
        match r {
            Ok(parts) => url_parts(text@) == Some(parts@),
            Err(_) => url_parts(text@) is None,
        },
{
    let u = url::Url::parse(text)?;
    let host = match u.host() {
        Some(url::Host::Domain(name)) => Some(Host::Domain(name.into())),
        Some(url::Host::Ipv4(ip)) => Some(Host::Ipv4(ip.octets())),
        Some(url::Host::Ipv6(_)) => Some(Host::Ipv6(u.host_str().unwrap_or_default().into())),
        None => None,
    };
    let query = u.query().map(String::from);
    Ok(Target { scheme: u.scheme().into(), host, port: u.port(), path: u.path().into(), query })
}

/// The port that goes with a scheme where the URL gives none.
pub open spec fn default_port(scheme: Seq<char>) -> Option<u16> {
    if scheme == "http"@ {
        Some(80u16)
    } else if scheme == "https"@ {
        Some(443u16)
    } else {
        None
    }
}

/// Each address with the port.
pub open spec fn with_port(answers: Seq<IpAddress>, port: u16) -> Seq<Destination> {
    Seq::new(answers.len(), |i: int| Destination { ip: answers[i], port })
}

impl TargetView {
    /// The destinations of a request to this URL. `answers` is what the lookup
    /// of the host gave where the host is a domain name, in the order in which
    /// it gave them, and empty where the lookup failed.
    ///
    /// An IPv4 host is its own single destination, at the URL's port or else
    /// at port 80, whether the scheme is `http` or `https`. A domain name gives
    /// one destination for each answer, in that order, at the URL's port or
    /// else at 80 for `http` and 443 for `https`. Without a port, another
    /// scheme gives no destination.
    pub open spec fn destinations(self, answers: Seq<IpAddress>) -> Result<
        Seq<Destination>,
        Unresolved,
    > {
        match self.host {
            None => Err(Unresolved::MissingHost),
            Some(HostView::Ipv6(_)) => Err(Unresolved::Ipv6Host),
            Some(HostView::Ipv4(octets)) => {
                let ip = IpAddress::V4(octets);
                match self.port {
                    Some(port) => Ok(seq![Destination { ip, port }]),
                    None => if default_port(self.scheme) is Some {
                        Ok(seq![Destination { ip, port: 80 }])
                    } else {
                        Err(Unresolved::UnsupportedScheme)
                    },
                }
            },
            Some(HostView::Domain(_)) => {
                if answers.len() == 0 {
                    Err(Unresolved::NoAddress)
                } else {
                    match self.port {
                        Some(port) => Ok(with_port(answers, port)),
                        None => match default_port(self.scheme) {
                            Some(port) => Ok(with_port(answers, port)),
                            None => Err(Unresolved::UnsupportedScheme),
                        },
                    }
                }
            },
        }
    }

    /// The domain name that has to be looked up before the destinations are
    /// known, if the host is one.
    pub open spec fn lookup_name(self) -> Option<Seq<char>> {
        match self.host {
            Some(HostView::Domain(name)) => Some(name),
            _ => None,
        }
    }
}

impl Host {
    /// A copy of this host.
    pub fn copy(&self) -> (r: Host)
        ensures
            r@ == self@,
    {
        match self {
            Host::Domain(name) => Host::Domain(name.clone()),
            Host::Ipv4(octets) => Host::Ipv4(*octets),
            Host::Ipv6(text) => Host::Ipv6(text.clone()),
        }
    }
}

impl Target {
    /// A copy of these parts.
    pub fn copy(&self) -> (r: Target)
        ensures
            r@ == self@,
    {
        Target {
            scheme: self.scheme.clone(),
            host: match &self.host {
                Some(host) => Some(host.copy()),
                None => None,
            },
            port: self.port,
            path: self.path.clone(),
            query: match &self.query {
                Some(query) => Some(query.clone()),
                None => None,
            },
        }
    }

    /// The parts of the URL `text`, as the `url` crate reads them.
    pub fn parse(text: &str) -> (r: Result<Target, Error>)
        ensures
            match r {
                Ok(parts) => url_parts(text@) == Some(parts@),
                Err(e) => url_parts(text@) is None && e@ == ErrorView::UrlParse,
            },
    {
        match split_url(text) {
            Ok(parts) => Ok(parts),
            Err(_) => Err(Error::UrlParse),
        }
    }

    /// The host in text, as the `Host` field names it.
    pub fn host_str(&self) -> (r: Option<String>)
        ensures
            match r {
                Some(text) => self@.host matches Some(host) && text@ == host.text(),
                None => self@.host is None,
            },
    {
        match &self.host {
            Some(host) => Some(host.to_string()),
            None => None,
        }
    }

    /// The domain name that has to be looked up before the destinations are
    /// known, if the host is one.
    pub fn lookup_name(&self) -> (r: Option<&String>)
        ensures
            match r {
                Some(name) => self@.lookup_name() == Some(name@),
                None => self@.lookup_name() is None,
            },
    {
        match &self.host {
            Some(Host::Domain(name)) => Some(name),
            _ => None,
        }
    }

    /// The port that goes with the scheme: 80 for `http`, 443 for `https`.
    pub fn default_port(&self) -> (r: Option<u16>)
        ensures
            r == default_port(self@.scheme),
    {
        if str_eq(self.scheme.as_str(), "http") {
            Some(80)
        } else if str_eq(self.scheme.as_str(), "https") {
            Some(443)
        } else {
            None
        }
    }
}

/// The destinations of a request to `url`, in the order in which they are to
/// be tried: see `TargetView::destinations`. `answers` is what the lookup of
/// the host gave where it is a domain name, and empty where the lookup failed;
/// for another host it is not read.
pub fn to_adders(url: &Target, answers: &Vec<IpAddress>) -> (r: Result<Vec<Destination>, Error>)
    ensures
        match r {
            Ok(found) => url@.destinations(answers@) == Ok::<Seq<Destination>, Unresolved>(found@),
            Err(e) => url@.destinations(answers@) matches Err(why) && e@ == ErrorView::Resolution(
                why,
            ),
        },
{
    match &url.host {
        None => Err(Error::Resolution(Unresolved::MissingHost)),
        Some(Host::Ipv6(_)) => Err(Error::Resolution(Unresolved::Ipv6Host)),
        Some(Host::Ipv4(octets)) => {
            let ip = IpAddress::V4(*octets);
            let port: u16 = match url.port {
                Some(port) => port,
                None => {
                    if url.default_port().is_none() {
                        return Err(Error::Resolution(Unresolved::UnsupportedScheme));
                    }
                    80
                },
            };
            let mut found: Vec<Destination> = Vec::new();
            found.push(Destination { ip, port });
            assert(found@ =~= seq![Destination { ip, port }]);
            Ok(found)
        },
        Some(Host::Domain(_)) => {
            if answers.len() == 0 {
                return Err(Error::Resolution(Unresolved::NoAddress));
            }
            let port: u16 = match url.port {
                Some(port) => port,
                None => match url.default_port() {
                    Some(port) => port,
                    None => {
                        return Err(Error::Resolution(Unresolved::UnsupportedScheme));
                    },
                },
            };
            let mut found: Vec<Destination> = Vec::new();
            let mut i: usize = 0;
            while i < answers.len()
                invariant
                    i <= answers.len(),
                    found@ == with_port(answers@.take(i as int), port),
                decreases answers.len() - i,
            {
                found.push(Destination { ip: answers[i], port });
                assert(found@ =~= with_port(answers@.take(i + 1), port));
                i += 1;
            }
            assert(answers@.take(answers.len() as int) =~= answers@);
            Ok(found)
        },
    }
}

/// A URL whose host is an IPv4 address and that gives no port has one
/// destination, that address at port 80, under `http` and under `https`
/// alike and whatever the lookup gave; under another scheme it has none.
pub proof fn lemma_ipv4_without_port(url: TargetView, answers: Seq<IpAddress>)
    requires
        url.host matches Some(HostView::Ipv4(_)),
        url.port is None,
    ensures
        url.host matches Some(HostView::Ipv4(octets)) && url.destinations(answers) == if url.scheme
            == "http"@ || url.scheme == "https"@ {
            Ok::<Seq<Destination>, Unresolved>(
                seq![Destination { ip: IpAddress::V4(octets), port: 80 }],
            )
        } else {
            Err::<Seq<Destination>, Unresolved>(Unresolved::UnsupportedScheme)
        },
{
}

/// A URL whose host is a domain name for which the lookup gave nothing has
/// no destination, whatever its scheme and port.
pub proof fn lemma_unresolved_domain(url: TargetView)
    requires
        url.host matches Some(HostView::Domain(_)),
    ensures
        url.destinations(Seq::empty()) == Err::<Seq<Destination>, Unresolved>(
            Unresolved::NoAddress,
        ),
{
}

/// The destinations of a domain name are as many as the answers of the
/// lookup and hold them in their order, all at one port.
pub proof fn lemma_domain_order(url: TargetView, answers: Seq<IpAddress>)
    requires
        url.host matches Some(HostView::Domain(_)),
        url.destinations(answers) is Ok,
    ensures
        url.destinations(answers)->Ok_0.len() == answers.len(),
        forall|i: int|
            0 <= i < answers.len() ==> (#[trigger] url.destinations(answers)->Ok_0[i]).ip
                == answers[i],
        forall|i: int, j: int|
            0 <= i < answers.len() && 0 <= j < answers.len() ==> (
            #[trigger] url.destinations(answers)->Ok_0[i]).port == (
            #[trigger] url.destinations(answers)->Ok_0[j]).port,
{
}

} // verus!

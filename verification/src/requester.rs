//! One request: what is set on it, the bytes that go out for it, and the
//! response that is attached to it.

use crate::error::{Error, ErrorView};
use crate::parser::{to_adders, Destination, IpAddress, Target, TargetView};
use crate::response::{parse_response, BodyView, Response, ResponseBody, ResponseView};
use crate::structs::{
    default_fields, parse_head, put, Contype, ContypeView, Field, Header, HeaderView, Method,
    RequestLineView,
};
use crate::text::{
    chars_of, decimal, push_decimal, split_once, split_once_chars, string_of, trim, trim_chars,
};
use vstd::prelude::*;
use vstd::slice::slice_to_vec;
use vstd::utf8::encode_utf8;

verus! {

/// Whether `rustls_pki_types::ServerName` accepts `host` as the name of a
/// server: as a DNS name or as an IP address.
pub uninterp spec fn is_server_name(host: Seq<char>) -> bool;

/// `rustls_pki_types::ServerName::try_from`, on a string slice: whether it
/// gives a name.
#[verifier::external_body]
fn server_name_ok(host: &str) -> (r: bool)
    ensures
        r == is_server_name(host@),
{
    rustls_pki_types::ServerName::try_from(host).is_ok()
}

/// One request.
#[derive(Debug)]
pub struct Request {
    data: Option<String>,
    header: Header,
    url: Target,
    response: Option<Response>,
    formdata: Option<Vec<u8>>,
    ctype: Contype,
}

/// A `Request` as it counts in contracts.
pub struct RequestView {
    pub data: Option<Seq<char>>,
    pub header: HeaderView,
    pub url: TargetView,
    pub response: Option<ResponseView>,
    pub formdata: Option<Seq<u8>>,
    pub ctype: ContypeView,
}

/// What goes out for a request and where it goes.
#[derive(Clone, Debug, PartialEq, Eq)]
pub struct Exchange {
    /// The destinations, in the order in which they are to be tried.
    pub destinations: Vec<Destination>,
    /// The head of the request and the empty line after it.
    pub head: Vec<u8>,
    /// The body of the request, if it has one.
    pub body: Option<Vec<u8>>,
    /// The name that the server has to prove in the TLS handshake, if there
    /// is to be one.
    pub server_name: Option<String>,
}

/// An `Exchange` as it counts in contracts.
pub struct ExchangeView {
    pub destinations: Seq<Destination>,
    pub head: Seq<u8>,
    pub body: Option<Seq<u8>>,
    pub server_name: Option<Seq<char>>,
}

impl View for Exchange {
    type V = ExchangeView;

    open spec fn view(&self) -> ExchangeView {
        ExchangeView {
            destinations: self.destinations@,
            head: self.head@,
            body: match self.body {
                Some(bytes) => Some(bytes@),
                None => None,
            },
            server_name: match self.server_name {
                Some(name) => Some(name@),
                None => None,
            },
        }
    }
}

/// The path of the request line: the URL's path, or a slash where it is
/// empty, then a question mark and the query where the URL has one.
pub open spec fn request_path(url: TargetView) -> Seq<char> {
    (if url.path.len() == 0 {
        seq!['/']
    } else {
        url.path
    }) + match url.query {
        Some(query) => seq!['?'] + query,
        None => Seq::empty(),
    }
}

/// The field that `item` sets: name and value around the first colon, both
/// trimmed; without a colon the trimmed `item` with an empty value.
pub open spec fn item_field(item: Seq<char>) -> Field {
    match split_once(item, seq![':']) {
        Some((name, value)) => (trim(name), trim(value)),
        None => (trim(item), Seq::empty()),
    }
}

/// What is printed for a body: the text, or a warning in two lines.
pub open spec fn shown(body: BodyView) -> Seq<char> {
    match body {
        BodyView::Text(text) => text,
        BodyView::Binary(_) =>
            "Warning: Binary output can mess up your terminal.\nWarning: or consider '--output <FILE>' to save to a file."@,
    }
}

impl RequestView {
    /// The request with the head for `method`: the request line, the `Host`
    /// field and the `Content-Type` field.
    pub open spec fn with_head(self, method: Method) -> RequestView
        recommends
            self.url.host is Some,
    {
        RequestView {
            header: HeaderView {
                request_line: Some(
                    RequestLineView {
                        method,
                        path: request_path(self.url),
                        version: "HTTP/1.1"@,
                    },
                ),
                fields: put(
                    put(self.header.fields, "Host"@, self.url.host->0.text()),
                    "Content-Type"@,
                    self.ctype.text(),
                ),
            },
            ..self
        }
    }

    /// The body that goes out with a `POST`: the form data under a multipart
    /// content type, the data string under `application/json`, else none.
    pub open spec fn body(self) -> Option<Seq<u8>> {
        match self.ctype {
            ContypeView::FORMDATA(_) => self.formdata,
            ContypeView::JSON => match self.data {
                Some(data) => Some(encode_utf8(data)),
                None => None,
            },
            _ => None,
        }
    }

    /// The body that goes out with `method`: none with `GET`.
    pub open spec fn body_for(self, method: Method) -> Option<Seq<u8>> {
        match method {
            Method::GET => None,
            Method::POST => self.body(),
        }
    }

    /// The request as it is sent with `method`: with the head for `method`,
    /// `Connection: close`, and the length of the body where there is one.
    pub open spec fn ready(self, method: Method) -> RequestView
        recommends
            self.url.host is Some,
    {
        let built = self.with_head(method);
        let closing = put(built.header.fields, "Connection"@, "close"@);
        RequestView {
            header: HeaderView {
                request_line: built.header.request_line,
                fields: match self.body_for(method) {
                    Some(body) => put(closing, "Content-Length"@, decimal(body.len())),
                    None => closing,
                },
            },
            ..built
        }
    }

    /// The bytes of the head on the wire, with the empty line that ends it.
    pub open spec fn head_bytes(self) -> Seq<u8> {
        encode_utf8(self.header.text() + "\r\n\r\n"@)
    }

    /// What `http_do` comes to: the request as it is sent and what goes out
    /// for it, or the error. The destinations are settled first, then the
    /// method.
    pub open spec fn planned(self, method: Seq<char>, answers: Seq<IpAddress>) -> Result<
        (RequestView, ExchangeView),
        ErrorView,
    > {
        match self.url.destinations(answers) {
            Err(why) => Err(ErrorView::Resolution(why)),
            Ok(destinations) => match Method::named(method) {
                None => Err(ErrorView::UnsupportedMethod),
                Some(method) => {
                    let sent = self.ready(method);
                    Ok(
                        (
                            sent,
                            ExchangeView {
                                destinations,
                                head: sent.head_bytes(),
                                body: self.body_for(method),
                                server_name: None,
                            },
                        ),
                    )
                },
            },
        }
    }

    /// What `https_do` comes to, where `name_ok` says whether the host can
    /// name the server in the handshake. The destinations are settled first,
    /// then the name, then the method.
    pub open spec fn planned_tls(
        self,
        method: Seq<char>,
        answers: Seq<IpAddress>,
        name_ok: bool,
    ) -> Result<(RequestView, ExchangeView), ErrorView> {
        match self.planned(method, answers) {
            Err(ErrorView::Resolution(why)) => Err(ErrorView::Resolution(why)),
            other => if !name_ok {
                Err(ErrorView::Transport("invalid server name"@))
            } else {
                match other {
                    Ok((sent, exchange)) => Ok(
                        (
                            sent,
                            ExchangeView {
                                server_name: Some(self.url.host->0.text()),
                                ..exchange
                            },
                        ),
                    ),
                    Err(e) => Err(e),
                }
            },
        }
    }
}

impl View for Request {
    type V = RequestView;

    closed spec fn view(&self) -> RequestView {
        RequestView {
            data: match self.data {
                Some(data) => Some(data@),
                None => None,
            },
            header: self.header@,
            url: self.url@,
            response: match self.response {
                Some(response) => Some(response@),
                None => None,
            },
            formdata: match self.formdata {
                Some(bytes) => Some(bytes@),
                None => None,
            },
            ctype: self.ctype@,
        }
    }
}

impl Request {
    /// A request to `url`: nothing set, the default header fields, the
    /// content type of a URL-encoded form.
    pub fn new(url: &Target) -> (r: Self)
        ensures
            r@ == (RequestView {
                data: None,
                header: HeaderView { request_line: None, fields: default_fields() },
                url: url@,
                response: None,
                formdata: None,
                ctype: ContypeView::FORM,
            }),
    {
        Request {
            data: None,
            header: Header::new(),
            url: url.copy(),
            response: None,
            formdata: None,
            ctype: Contype::FORM,
        }
    }

    /// Sets the head for `method`: the request line with the path of the
    /// URL, the `Host` field and the `Content-Type` field.
    pub fn construct_header(&mut self, method: Method)
        requires
            old(self)@.url.host is Some,
        ensures
            final(self)@ == old(self)@.with_head(method),
    {
        let mut path: Vec<char> = Vec::new();
        if self.url.path.as_str().is_empty() {
            path.push('/');
        } else {
            crate::text::push_str(&mut path, self.url.path.as_str());
        }
        match &self.url.query {
            Some(query) => {
                path.push('?');
                crate::text::push_str(&mut path, query.as_str());
            },
            None => {},
        }
        assert(path@ =~= request_path(self@.url));
        let host = match self.url.host_str() {
            Some(text) => text,
            None => String::new(),
        };
        let path = string_of(path.as_slice());
        let content_type = self.ctype.to_string();
        self.header.with_request_line(method, path.as_str(), "HTTP/1.1").set(
            "Host",
            host.as_str(),
        ).set("Content-Type", content_type.as_str());
    }

    /// Puts the head that `_h` spells in the place of the whole head.
    pub fn set_header(&mut self, _h: &String) -> (r: &mut Self)
        ensures
            r@ == (RequestView { header: parse_head(_h@), ..old(self)@ }),
            *final(self) == *final(r),
    {
        self.header = Header::from(_h.as_str());
        self
    }

    /// Sets the header field that `item` spells: see `item_field`.
    pub fn add_item_to_header(&mut self, item: &str) -> (r: &mut Self)
        ensures
            r@ == (RequestView {
                header: HeaderView {
                    request_line: old(self)@.header.request_line,
                    fields: put(
                        old(self)@.header.fields,
                        item_field(item@).0,
                        item_field(item@).1,
                    ),
                },
                ..old(self)@
            }),
            *final(self) == *final(r),
    {
        let given = chars_of(item);
        let mut sep: Vec<char> = Vec::new();
        sep.push(':');
        assert(sep@ =~= seq![':']);
        match split_once_chars(given.as_slice(), sep.as_slice()) {
            Some((name, value)) => {
                let key = string_of(trim_chars(name));
                let value = string_of(trim_chars(value));
                self.header.set(key.as_str(), value.as_str());
            },
            None => {
                let key = string_of(trim_chars(given.as_slice()));
                self.header.set(key.as_str(), "");
                proof {
                    reveal_strlit("");
                    assert(""@ =~= Seq::<char>::empty());
                }
            },
        }
        self
    }

    /// Sets the data string, and the content type `application/json`.
    pub fn set_data(&mut self, _d: &String) -> (r: &mut Self)
        ensures
            r@ == (RequestView { data: Some(_d@), ctype: ContypeView::JSON, ..old(self)@ }),
            *final(self) == *final(r),
    {
        self.data = Some(_d.clone());
        self.ctype = Contype::JSON;
        self
    }

    /// Sets the form data, and the multipart content type with `boundary`.
    pub fn set_formdata(&mut self, d: &[u8], boundary: String) -> (r: &mut Self)
        ensures
            r@ == (RequestView {
                formdata: Some(d@),
                ctype: ContypeView::FORMDATA(boundary@),
                ..old(self)@
            }),
            *final(self) == *final(r),
    {
        self.formdata = Some(slice_to_vec(d));
        self.ctype = Contype::FORMDATA(boundary);
        self
    }

    /// The bytes of the head on the wire, with the empty line that ends it.
    pub fn head_bytes(&self) -> (r: Vec<u8>)
        ensures
            r@ == self@.head_bytes(),
    {
        let text = self.header.to_string().concat("\r\n\r\n");
        slice_to_vec(text.as_str().as_bytes())
    }

    /// The body that goes out with a `POST`.
    pub fn body(&self) -> (r: Option<Vec<u8>>)
        ensures
            match r {
                Some(bytes) => self@.body() == Some(bytes@),
                None => self@.body() is None,
            },
    {
        match &self.ctype {
            Contype::FORMDATA(_) => match &self.formdata {
                Some(bytes) => Some(slice_to_vec(bytes.as_slice())),
                None => None,
            },
            Contype::JSON => match &self.data {
                Some(data) => Some(slice_to_vec(data.as_str().as_bytes())),
                None => None,
            },
            _ => None,
        }
    }

    /// Makes the request ready to go out as a `GET` and returns the bytes to
    /// send: the head and the empty line. A `GET` has no body.
    pub fn get(&mut self) -> (wire: Vec<u8>)
        requires
            old(self)@.url.host is Some,
        ensures
            final(self)@ == old(self)@.ready(Method::GET),
            wire@ == final(self)@.head_bytes(),
    {
        self.construct_header(Method::GET);
        self.header.set("Connection", "close");
        self.head_bytes()
    }

    /// Makes the request ready to go out as a `POST` and returns the bytes to
    /// send: the head with the empty line, and the body if there is one.
    pub fn post(&mut self) -> (wire: (Vec<u8>, Option<Vec<u8>>))
        requires
            old(self)@.url.host is Some,
        ensures
            final(self)@ == old(self)@.ready(Method::POST),
            wire.0@ == final(self)@.head_bytes(),
            match wire.1 {
                Some(bytes) => old(self)@.body() == Some(bytes@),
                None => old(self)@.body() is None,
            },
    {
        self.construct_header(Method::POST);
        self.header.set("Connection", "close");
        let body = self.body();
        match &body {
            Some(bytes) => {
                let mut length: Vec<char> = Vec::new();
                push_decimal(&mut length, bytes.len() as u64);
                assert(length@ =~= decimal(bytes@.len()));
                let length = string_of(length.as_slice());
                self.header.set("Content-Length", length.as_str());
            },
            None => {},
        }
        (self.head_bytes(), body)
    }

    /// Settles where a plain request with the method named `method_str` goes
    /// and what goes out for it: see `RequestView::planned`. `answers` is
    /// what the lookup of the host gave where it is a domain name, and empty
    /// where the lookup failed. On an error the request is left as it was.
    pub fn http_do(&mut self, method_str: String, answers: &Vec<IpAddress>) -> (r: Result<
        Exchange,
        Error,
    >)
        ensures
            match r {
                Ok(exchange) => old(self)@.planned(method_str@, answers@) == Ok::<
                    (RequestView, ExchangeView),
                    ErrorView,
                >((final(self)@, exchange@)),
                Err(e) => old(self)@.planned(method_str@, answers@) == Err::<
                    (RequestView, ExchangeView),
                    ErrorView,
                >(e@) && final(self)@ == old(self)@,
            },
    {
        let destinations = match to_adders(&self.url, answers) {
            Ok(found) => found,
            Err(e) => {
                return Err(e);
            },
        };
        match Method::parse(method_str.as_str()) {
            Some(Method::GET) => {
                let head = self.get();
                Ok(Exchange { destinations, head, body: None, server_name: None })
            },
            Some(Method::POST) => {
                let (head, body) = self.post();
                Ok(Exchange { destinations, head, body, server_name: None })
            },
            None => Err(Error::UnsupportedMethod),
        }
    }

    /// Settles where a request over TLS with the method named `method_str`
    /// goes and what goes out for it, where `name_ok` says whether the host
    /// can name the server in the handshake: see `RequestView::planned_tls`.
    /// On an error the request is left as it was.
    pub fn https_plan(&mut self, method_str: String, answers: &Vec<IpAddress>, name_ok: bool) -> (r:
        Result<Exchange, Error>)
        ensures
            match r {
                Ok(exchange) => old(self)@.planned_tls(method_str@, answers@, name_ok) == Ok::<
                    (RequestView, ExchangeView),
                    ErrorView,
                >((final(self)@, exchange@)),
                Err(e) => old(self)@.planned_tls(method_str@, answers@, name_ok) == Err::<
                    (RequestView, ExchangeView),
                    ErrorView,
                >(e@) && final(self)@ == old(self)@,
            },
    {
        let destinations = match to_adders(&self.url, answers) {
            Ok(found) => found,
            Err(e) => {
                return Err(e);
            },
        };
        if !name_ok {
            return Err(Error::Transport("invalid server name".to_owned()));
        }
        let server_name = self.url.host_str();
        match Method::parse(method_str.as_str()) {
            Some(Method::GET) => {
                let head = self.get();
                Ok(Exchange { destinations, head, body: None, server_name })
            },
            Some(Method::POST) => {
                let (head, body) = self.post();
                Ok(Exchange { destinations, head, body, server_name })
            },
            None => Err(Error::UnsupportedMethod),
        }
    }

    /// Settles where a request over TLS with the method named `method_str`
    /// goes and what goes out for it. The host has to be a name that
    /// `rustls_pki_types::ServerName` accepts: see `https_plan`.
    pub fn https_do(&mut self, method_str: String, answers: &Vec<IpAddress>) -> (r: Result<
        Exchange,
        Error,
    >)
        ensures
            match r {
                Ok(exchange) => old(self)@.planned_tls(
                    method_str@,
                    answers@,
                    old(self)@.url.host matches Some(host) && is_server_name(host.text()),
                ) == Ok::<(RequestView, ExchangeView), ErrorView>((final(self)@, exchange@)),
                Err(e) => old(self)@.planned_tls(
                    method_str@,
                    answers@,
                    old(self)@.url.host matches Some(host) && is_server_name(host.text()),
                ) == Err::<(RequestView, ExchangeView), ErrorView>(e@) && final(self)@ == old(
                    self,
                )@,
            },
    {
        let name_ok = match self.url.host_str() {
            Some(host) => server_name_ok(host.as_str()),
            None => false,
        };
        self.https_plan(method_str, answers, name_ok)
    }

    /// Attaches the response that the bytes `raw` are, and returns what is
    /// printed for it: see `shown`.
    pub fn fetch_response(&mut self, raw: Vec<u8>) -> (r: String)
        ensures
            final(self)@ == (RequestView { response: Some(parse_response(raw@)), ..old(self)@ }),
            r@ == shown(parse_response(raw@).body),
    {
        let response = Response::parse(raw);
        let text = match &response.body {
            ResponseBody::Text(text) => text.clone(),
            ResponseBody::Binary(_) =>
                "Warning: Binary output can mess up your terminal.\nWarning: or consider '--output <FILE>' to save to a file.".to_owned(),
        };
        self.response = Some(response);
        text
    }

    /// The bytes that go to the output file: those of the body of the
    /// response, a text in UTF-8. Without a response there is nothing to
    /// write.
    pub fn response_output(&self) -> (r: Result<Vec<u8>, Error>)
        ensures
            match r {
                Ok(bytes) => self@.response matches Some(response) && bytes@
                    == response.body.bytes(),
                Err(e) => self@.response is None && e@ == ErrorView::NoResponse,
            },
    {
        match &self.response {
            Some(response) => match &response.body {
                ResponseBody::Text(text) => Ok(slice_to_vec(text.as_str().as_bytes())),
                ResponseBody::Binary(bytes) => Ok(slice_to_vec(bytes.as_slice())),
            },
            None => Err(Error::NoResponse),
        }
    }

    /// The response, once one is attached.
    pub fn response(&self) -> (r: Option<&Response>)
        ensures
            match r {
                Some(response) => self@.response == Some(response@),
                None => self@.response is None,
            },
    {
        self.response.as_ref()
    }

    /// The head as it stands.
    pub fn header(&self) -> (r: &Header)
        ensures
            r@ == self@.header,
    {
        &self.header
    }

    /// The content type as it stands.
    pub fn content_type(&self) -> (r: &Contype)
        ensures
            r@ == self@.ctype,
    {
        &self.ctype
    }
}

} // verus!

//! The plain request: a fixed head, written out in one piece, and the data
//! after it.

use crate::parser::{Target, TargetView};
use crate::structs::Method;
use crate::text::{chars_of, decimal, find, find_chars, push_decimal, push_str, string_of};
use vstd::prelude::*;
use vstd::slice::slice_to_vec;
use vstd::utf8::encode_utf8;

verus! {

/// A request with a fixed head.
#[allow(non_camel_case_types)]
#[derive(Debug)]
pub struct request {
    data: Option<String>,
    header: Option<String>,
    url: Target,
}

/// A `request` as it counts in contracts.
pub struct PlainView {
    pub data: Option<Seq<char>>,
    pub header: Option<Seq<char>>,
    pub url: TargetView,
}

impl View for request {
    type V = PlainView;

    closed spec fn view(&self) -> PlainView {
        PlainView {
            data: match self.data {
                Some(data) => Some(data@),
                None => None,
            },
            header: match self.header {
                Some(header) => Some(header@),
                None => None,
            },
            url: self.url@,
        }
    }
}

/// What follows the first empty line of `response`: the first two line
/// endings in a row, or else the first two line feeds in a row. Without an
/// empty line, nothing.
pub open spec fn body_text(response: Seq<char>) -> Seq<char> {
    match find(response, seq!['\r', '\n', '\r', '\n']) {
        Some(at) => response.skip(at + 4),
        None => match find(response, seq!['\n', '\n']) {
            Some(at) => response.skip(at + 2),
            None => Seq::empty(),
        },
    }
}

impl PlainView {
    /// The number of bytes of the data, zero without data.
    pub open spec fn length(self) -> nat {
        match self.data {
            Some(data) => encode_utf8(data).len(),
            None => 0,
        }
    }

    /// The head for `method`, with the empty line that ends it. The path is
    /// that of the URL, or a slash where it is empty; a `GET` has the query
    /// after it. The length is that of the data.
    pub open spec fn head(self, method: Method) -> Seq<char>
        recommends
            self.url.host is Some,
    {
        let path = if self.url.path.len() == 0 {
            seq!['/']
        } else {
            self.url.path
        };
        let query = match (method, self.url.query) {
            (Method::GET, Some(query)) => seq!['?'] + query,
            _ => Seq::empty(),
        };
        method.name() + seq![' '] + path + query + " HTTP/1.1\r\nHost: "@
            + self.url.host->0.text()
            + "\r\nContent-Type: application/x-www-form-urlencoded\r\nContent-Length: "@ + decimal(
            self.length(),
        ) + "\r\nConnection: close\r\n\r\n"@
    }
}

impl request {
    /// A request to `_url`, without data.
    pub fn new(_url: &Target) -> (r: Self)
        ensures
            r@ == (PlainView { data: None, header: None, url: _url@ }),
    {
        request { data: None, header: None, url: _url.copy() }
    }

    /// Sets the head for `method`: see `PlainView::head`.
    pub fn construct_header(&mut self, method: Method)
        requires
            old(self)@.url.host is Some,
        ensures
            final(self)@ == (PlainView { header: Some(old(self)@.head(method)), ..old(self)@ }),
    {
        let mut out: Vec<char> = Vec::new();
        push_str(&mut out, method.as_str());
        out.push(' ');
        if self.url.path.as_str().is_empty() {
            out.push('/');
        } else {
            push_str(&mut out, self.url.path.as_str());
        }
        match method {
            Method::GET => match &self.url.query {
                Some(query) => {
                    out.push('?');
                    push_str(&mut out, query.as_str());
                },
                None => {},
            },
            Method::POST => {},
        }
        let host = match self.url.host_str() {
            Some(text) => text,
            None => String::new(),
        };
        let length: usize = match &self.data {
            Some(data) => data.as_str().as_bytes().len(),
            None => 0,
        };
        push_str(&mut out, " HTTP/1.1\r\nHost: ");
        push_str(&mut out, host.as_str());
        push_str(
            &mut out,
            "\r\nContent-Type: application/x-www-form-urlencoded\r\nContent-Length: ",
        );
        push_decimal(&mut out, length as u64);
        push_str(&mut out, "\r\nConnection: close\r\n\r\n");
        assert(out@ =~= self@.head(method));
        self.header = Some(string_of(out.as_slice()));
    }

    /// Sets the head. The head that goes out is made anew for each request.
    pub fn set_header(&mut self, _h: &String) -> (r: &mut Self)
        ensures
            r@ == (PlainView { header: Some(_h@), ..old(self)@ }),
            *final(self) == *final(r),
    {
        self.header = Some(_h.clone());
        self
    }

    /// Sets the data.
    pub fn set_data(&mut self, _d: &String) -> (r: &mut Self)
        ensures
            r@ == (PlainView { data: Some(_d@), ..old(self)@ }),
            *final(self) == *final(r),
    {
        self.data = Some(_d.clone());
        self
    }

    /// Sets the head for a `GET` and returns the bytes to send: the head.
    pub fn get(&mut self) -> (wire: Vec<u8>)
        requires
            old(self)@.url.host is Some,
        ensures
            final(self)@ == (PlainView {
                header: Some(old(self)@.head(Method::GET)),
                ..old(self)@
            }),
            wire@ == encode_utf8(old(self)@.head(Method::GET)),
    {
        self.construct_header(Method::GET);
        match &self.header {
            Some(head) => slice_to_vec(head.as_str().as_bytes()),
            None => Vec::new(),
        }
    }

    /// Sets the head for a `POST` and returns the bytes to send: the head,
    /// and the data after it.
    pub fn post(&mut self) -> (wire: Vec<u8>)
        requires
            old(self)@.url.host is Some,
        ensures
            final(self)@ == (PlainView {
                header: Some(old(self)@.head(Method::POST)),
                ..old(self)@
            }),
            wire@ == encode_utf8(old(self)@.head(Method::POST)) + match old(self)@.data {
                Some(data) => encode_utf8(data),
                None => Seq::empty(),
            },
    {
        self.construct_header(Method::POST);
        let mut wire: Vec<u8> = match &self.header {
            Some(head) => slice_to_vec(head.as_str().as_bytes()),
            None => Vec::new(),
        };
        match &self.data {
            Some(data) => {
                wire.extend_from_slice(data.as_str().as_bytes());
            },
            None => {
                assert(wire@ + Seq::<u8>::empty() =~= wire@);
            },
        }
        wire
    }

    /// What follows the first empty line of `response`: see `body_text`.
    pub fn extract_body(response: &str) -> (r: String)
        ensures
            r@ == body_text(response@),
    {
        let given = chars_of(response);
        let n: usize = given.len();
        let mut long: Vec<char> = Vec::new();
        long.push('\r');
        long.push('\n');
        long.push('\r');
        long.push('\n');
        let mut short: Vec<char> = Vec::new();
        short.push('\n');
        short.push('\n');
        assert(long@ =~= seq!['\r', '\n', '\r', '\n']);
        assert(short@ =~= seq!['\n', '\n']);
        match find_chars(given.as_slice(), long.as_slice()) {
            Some(at) => {
                proof {
                    crate::text::lemma_find(given@, long@);
                    assert(crate::text::matches_at(given@, long@, at as int));
                }
                let rest: &[char] = &given.as_slice()[at + 4..n];
                assert(rest@ =~= given@.skip(at + 4));
                string_of(rest)
            },
            None => match find_chars(given.as_slice(), short.as_slice()) {
                Some(at) => {
                    proof {
                        crate::text::lemma_find(given@, short@);
                        assert(crate::text::matches_at(given@, short@, at as int));
                    }
                    let rest: &[char] = &given.as_slice()[at + 2..n];
                    assert(rest@ =~= given@.skip(at + 2));
                    string_of(rest)
                },
                None => String::new(),
            },
        }
    }
}

} // verus!

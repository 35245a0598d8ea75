//! The ways in which a request can fail.

use vstd::prelude::*;

verus! {

/// Why a URL gave no destination.
#[derive(Clone, Copy, Debug, PartialEq, Eq, Structural)]
pub enum Unresolved {
    /// The URL has no host.
    MissingHost,
    /// The host is an IPv6 literal.
    Ipv6Host,
    /// No port is given and the scheme has no default port here.
    UnsupportedScheme,
    /// The lookup of the domain name failed or returned no address.
    NoAddress,
}

/// A failure of one request.
#[derive(Clone, Debug, PartialEq, Eq)]
pub enum Error {
    /// The text is no URL.
    UrlParse,
    /// The URL gave no destination.
    Resolution(Unresolved),
    /// Connecting, the handshake, sending or receiving failed; the text says how.
    Transport(String),
    /// A file could not be read or written; the text is its path.
    Io(String),
    /// The method is neither `GET` nor `POST`.
    UnsupportedMethod,
    /// No response has been received yet.
    NoResponse,
}

/// An `Error` with its texts as sequences of characters.
pub enum ErrorView {
    UrlParse,
    Resolution(Unresolved),
    Transport(Seq<char>),
    Io(Seq<char>),
    UnsupportedMethod,
    NoResponse,
}

impl View for Error {
    type V = ErrorView;

    open spec fn view(&self) -> ErrorView {
        match *self {
            Error::UrlParse => ErrorView::UrlParse,
            Error::Resolution(why) => ErrorView::Resolution(why),
            Error::Transport(text) => ErrorView::Transport(text@),
            Error::Io(path) => ErrorView::Io(path@),
            Error::UnsupportedMethod => ErrorView::UnsupportedMethod,
            Error::NoResponse => ErrorView::NoResponse,
        }
    }
}

impl Unresolved {
    /// The message of this failure.
    pub open spec fn text(self) -> Seq<char> {
        match self {
            Unresolved::MissingHost => "miss host name"@,
            Unresolved::Ipv6Host => "not support ipv6"@,
            Unresolved::UnsupportedScheme => "unsupported scheme"@,
            Unresolved::NoAddress => "Failed to resolve domain"@,
        }
    }

    /// The message of this failure.
    pub fn message(&self) -> (r: String)
        ensures
            r@ == self.text(),
    {
        match self {
            Unresolved::MissingHost => "miss host name".to_owned(),
            Unresolved::Ipv6Host => "not support ipv6".to_owned(),
            Unresolved::UnsupportedScheme => "unsupported scheme".to_owned(),
            Unresolved::NoAddress => "Failed to resolve domain".to_owned(),
        }
    }
}

impl ErrorView {
    /// The message of this error.
    pub open spec fn text(self) -> Seq<char> {
        match self {
            ErrorView::UrlParse => "invalid URL"@,
            ErrorView::Resolution(why) => why.text(),
            ErrorView::Transport(text) => text,
            ErrorView::Io(path) => "cannot access file: "@ + path,
            ErrorView::UnsupportedMethod => "unsupported method"@,
            ErrorView::NoResponse => "found none response"@,
        }
    }
}

impl Error {
    /// The message of this error.
    pub fn message(&self) -> (r: String)
        ensures
            r@ == self@.text(),
    {
        match self {
            Error::UrlParse => "invalid URL".to_owned(),
            Error::Resolution(why) => why.message(),
            Error::Transport(text) => text.clone(),
            Error::Io(path) => "cannot access file: ".to_owned().concat(path.as_str()),
            Error::UnsupportedMethod => "unsupported method".to_owned(),
            Error::NoResponse => "found none response".to_owned(),
        }
    }
}

} // verus!

//! What the bytes that a server sent back mean: header fields and a body
//! that is text or binary.

use crate::structs::{add_lines, lookup, Field, HeaderMap};
use crate::text::{
    chars_of, contains, find, find_bytes, find_chars, lemma_find, lines, lines_of, lowercase,
    matches_at, starts_with, to_lower, views,
};
use vstd::prelude::*;
use vstd::slice::slice_to_vec;
use vstd::utf8::{decode_utf8, valid_utf8};

verus! {

/// The text that `String::from_utf8_lossy` makes of `bytes`.
pub uninterp spec fn utf8_lossy(bytes: Seq<u8>) -> Seq<char>;

/// The text that is read from the bytes of a head: the text that they encode
/// where they are valid UTF-8, else what `String::from_utf8_lossy` makes of
/// them.
pub open spec fn head_text(bytes: Seq<u8>) -> Seq<char> {
    if valid_utf8(bytes) {
        decode_utf8(bytes)
    } else {
        utf8_lossy(bytes)
    }
}

/// `String::from_utf8_lossy`: the text of the bytes, with a replacement
/// character for what is no UTF-8. On valid UTF-8 it is the text that the
/// bytes encode.
#[verifier::external_body]
fn decode_lossy(bytes: &[u8]) -> (r: String)
    ensures
        r@ == if valid_utf8(bytes@) {
            decode_utf8(bytes@)
        } else {
            utf8_lossy(bytes@)
        },
{
    String::from_utf8_lossy(bytes).into_owned()
}

/// `String::from_utf8`: the text that the bytes encode where they are valid
/// UTF-8, else the bytes as they were given.
#[verifier::external_body]
fn decode_strict(bytes: Vec<u8>) -> (r: Result<String, Vec<u8>>)
    ensures
        match r {
            Ok(text) => valid_utf8(bytes@) && text@ == decode_utf8(bytes@),
            Err(given) => !valid_utf8(bytes@) && given@ == bytes@,
        },
{
    match String::from_utf8(bytes) {
        Ok(text) => Ok(text),
        Err(e) => Err(e.into_bytes()),
    }
}

/// The body of a response.
#[derive(Clone, Debug, PartialEq, Eq)]
pub enum ResponseBody {
    Text(String),
    Binary(Vec<u8>),
}

/// A `ResponseBody` as it counts in contracts.
pub enum BodyView {
    Text(Seq<char>),
    Binary(Seq<u8>),
}

impl BodyView {
    /// The bytes of the body: the text in UTF-8, or the bytes themselves.
    pub open spec fn bytes(self) -> Seq<u8> {
        match self {
            BodyView::Text(text) => vstd::utf8::encode_utf8(text),
            BodyView::Binary(bytes) => bytes,
        }
    }
}

impl View for ResponseBody {
    type V = BodyView;

    open spec fn view(&self) -> BodyView {
        match *self {
            ResponseBody::Text(text) => BodyView::Text(text@),
            ResponseBody::Binary(bytes) => BodyView::Binary(bytes@),
        }
    }
}

/// A response: the bytes as received, the header fields and the body.
#[derive(Clone, Debug)]
pub struct Response {
    pub raw: Vec<u8>,
    pub headers: HeaderMap,
    pub body: ResponseBody,
}

/// A `Response` as it counts in contracts.
pub struct ResponseView {
    pub raw: Seq<u8>,
    pub headers: Seq<Field>,
    pub body: BodyView,
}

impl View for Response {
    type V = ResponseView;

    open spec fn view(&self) -> ResponseView {
        ResponseView { raw: self.raw@, headers: self.headers.entries(), body: self.body@ }
    }
}

/// The empty line that ends the head: two line endings in a row.
pub open spec fn delimiter() -> Seq<u8> {
    seq![13u8, 10u8, 13u8, 10u8]
}

/// The header fields of a head. The first line, the status line, gives none;
/// each later line with a colon in it gives one: the name before the first
/// colon, the value after it, both trimmed.
pub open spec fn response_fields(head: Seq<char>) -> Seq<Field> {
    let all = lines(head);
    let rest = if all.len() > 0 {
        all.skip(1)
    } else {
        all
    };
    add_lines(Seq::empty(), rest, seq![':'], true)
}

/// Whether a content type announces text: in small letters it begins with
/// `text/` or holds `json`, `xml` or `html`.
pub open spec fn is_textual(content_type: Seq<char>) -> bool {
    let small = to_lower(content_type);
    starts_with(small, "text/"@) || contains(small, "json"@) || contains(small, "xml"@) || contains(
        small,
        "html"@,
    )
}

/// The body that `bytes` are under the header fields `fields`.
pub open spec fn body_of(fields: Seq<Field>, bytes: Seq<u8>) -> BodyView {
    match lookup(fields, "Content-Type"@) {
        Some(content_type) => if is_textual(content_type) {
            if valid_utf8(bytes) {
                BodyView::Text(decode_utf8(bytes))
            } else {
                BodyView::Binary(Seq::empty())
            }
        } else {
            BodyView::Binary(bytes)
        },
        None => if valid_utf8(bytes) {
            BodyView::Text(decode_utf8(bytes))
        } else {
            BodyView::Binary(bytes)
        },
    }
}

/// The response that the bytes `raw` are. The head ends with the first empty
/// line; what follows is the body. Without an empty line all of `raw` is body
/// and there are no header fields.
pub open spec fn parse_response(raw: Seq<u8>) -> ResponseView {
    match find(raw, delimiter()) {
        Some(at) => {
            let fields = response_fields(head_text(raw.take(at + 4)));
            ResponseView { raw, headers: fields, body: body_of(fields, raw.skip(at + 4)) }
        },
        None => ResponseView { raw, headers: Seq::empty(), body: body_of(Seq::empty(), raw) },
    }
}

impl Response {
    /// The response that the bytes `raw` are: see `parse_response`.
    pub fn parse(raw: Vec<u8>) -> (r: Self)
        ensures
            r@ == parse_response(raw@),
    {
        let mark: [u8; 4] = [13, 10, 13, 10];
        assert(mark@ =~= delimiter());
        let n: usize = raw.len();
        match find_bytes(raw.as_slice(), mark.as_slice()) {
            Some(at) => {
                proof {
                    lemma_find(raw@, delimiter());
                    assert(matches_at(raw@, delimiter(), at as int));
                }
                let head_bytes: &[u8] = &raw.as_slice()[0..at + 4];
                let body_bytes: Vec<u8> = slice_to_vec(&raw.as_slice()[at + 4..n]);
                assert(head_bytes@ =~= raw@.take(at + 4));
                assert(body_bytes@ =~= raw@.skip(at + 4));
                let head = decode_lossy(head_bytes);
                let headers = Response::header_fields(head.as_str());
                let body = Response::detect_body(&headers, body_bytes);
                Response { raw, headers, body }
            },
            None => {
                let headers = HeaderMap::new();
                let body = Response::detect_body(&headers, slice_to_vec(raw.as_slice()));
                Response { raw, headers, body }
            },
        }
    }

    /// The header fields of the head `head`: see `response_fields`.
    pub fn header_fields(head: &str) -> (r: HeaderMap)
        ensures
            r.entries() == response_fields(head@),
            r.wf(),
    {
        let text = chars_of(head);
        let all = lines_of(text.as_slice());
        let mut sep: Vec<char> = Vec::new();
        sep.push(':');
        assert(sep@ =~= seq![':']);
        let mut fields = HeaderMap::new();
        if all.len() == 0 {
            return fields;
        }
        let ghost given = views(all@);
        let mut i: usize = 1;
        assert(given.subrange(1, 1) =~= Seq::<Seq<char>>::empty());
        while i < all.len()
            invariant
                1 <= i <= all.len(),
                given == views(all@),
                sep@ == seq![':'],
                fields.wf(),
                fields.entries() == add_lines(
                    Seq::empty(),
                    given.subrange(1, i as int),
                    seq![':'],
                    true,
                ),
            decreases all.len() - i,
        {
            fields.add_line(all[i].as_slice(), sep.as_slice(), true);
            proof {
                assert(given.subrange(1, i + 1).drop_last() =~= given.subrange(1, i as int));
            }
            i += 1;
        }
        proof {
            assert(given.subrange(1, all.len() as int) =~= given.skip(1));
        }
        fields
    }

    /// Whether the content type `content_type` announces text.
    pub fn textual(content_type: &str) -> (r: bool)
        ensures
            r == is_textual(content_type@),
    {
        let given = chars_of(content_type);
        let small = lowercase(given.as_slice());
        let text = chars_of("text/");
        let json = chars_of("json");
        let xml = chars_of("xml");
        let html = chars_of("html");
        crate::text::chars_match_at(small.as_slice(), text.as_slice(), 0) || find_chars(
            small.as_slice(),
            json.as_slice(),
        ).is_some() || find_chars(small.as_slice(), xml.as_slice()).is_some() || find_chars(
            small.as_slice(),
            html.as_slice(),
        ).is_some()
    }

    /// The body that `body_bytes` are under the header fields `headers`. With
    /// a `Content-Type` that announces text: the text where the bytes are
    /// valid UTF-8, else an empty binary body. With another `Content-Type`:
    /// the bytes. Without one: the text where the bytes are valid UTF-8, else
    /// the bytes.
    pub fn detect_body(headers: &HeaderMap, body_bytes: Vec<u8>) -> (r: ResponseBody)
        ensures
            r@ == body_of(headers.entries(), body_bytes@),
    {
        match headers.get("Content-Type") {
            Some(content_type) => {
                if Response::textual(content_type.as_str()) {
                    match decode_strict(body_bytes) {
                        Ok(text) => ResponseBody::Text(text),
                        Err(_) => ResponseBody::Binary(Vec::new()),
                    }
                } else {
                    ResponseBody::Binary(body_bytes)
                }
            },
            None => {
                match decode_strict(body_bytes) {
                    Ok(text) => ResponseBody::Text(text),
                    Err(given) => ResponseBody::Binary(given),
                }
            },
        }
    }

    /// Takes in what one read from the stream gave: `Some` of the bytes read,
    /// or `None` for a read that failed. Bytes are appended to `received`. The
    /// result says whether to read again: not after a read that gave nothing,
    /// which is the end of the stream, and not after one that failed.
    pub fn read(received: &mut Vec<u8>, chunk: Option<&[u8]>) -> (more: bool)
        ensures
            more == (chunk matches Some(bytes) && bytes@.len() > 0),
            final(received)@ == old(received)@ + match chunk {
                Some(bytes) => bytes@,
                None => Seq::empty(),
            },
    {
        match chunk {
            Some(bytes) => {
                received.extend_from_slice(bytes);
                bytes.len() > 0
            },
            None => {
                assert(received@ + Seq::<u8>::empty() =~= received@);
                false
            },
        }
    }
}

} // verus!

//! The parts of a request's head: method, content type, request line and
//! header fields, with the text that goes on the wire and the way back from it.

use crate::text::{
    chars_of, colon_space, crlf, join, lemma_join_push, lines, lines_of, push_str, split_once,
    split_once_chars, string_of, trim, trim_chars, views, words, words_of,
};
use vstd::prelude::*;

verus! {

/// A request method.
#[derive(Copy, Clone, Debug, PartialEq, Eq, Structural)]
pub enum Method {
    GET,
    POST,
}

impl Method {
    /// The method's name on the wire.
    pub open spec fn name(self) -> Seq<char> {
        match self {
            Method::GET => "GET"@,
            Method::POST => "POST"@,
        }
    }

    /// The method that `name` names.
    pub open spec fn named(name: Seq<char>) -> Option<Method> {
        if name == "GET"@ {
            Some(Method::GET)
        } else if name == "POST"@ {
            Some(Method::POST)
        } else {
            None
        }
    }

    /// The method's name on the wire.
    pub fn as_str(&self) -> (r: &'static str)
        ensures
            r@ == self.name(),
    {
        match self {
            Method::GET => "GET",
            Method::POST => "POST",
        }
    }

    /// The method that `name` names: `GET` or `POST`, in capitals.
    pub fn parse(name: &str) -> (r: Option<Method>)
        ensures
            r == Method::named(name@),
    {
        let given = chars_of(name);
        Method::parse_chars(given.as_slice())
    }

    /// The method that the characters `name` name.
    pub fn parse_chars(name: &[char]) -> (r: Option<Method>)
        ensures
            r == Method::named(name@),
    {
        let get = chars_of("GET");
        let post = chars_of("POST");
        if crate::text::chars_eq(name, get.as_slice()) {
            Some(Method::GET)
        } else if crate::text::chars_eq(name, post.as_slice()) {
            Some(Method::POST)
        } else {
            None
        }
    }
}

/// The content type of a request body.
#[derive(Clone, Debug, PartialEq, Eq)]
pub enum Contype {
    /// `application/x-www-form-urlencoded`
    FORM,
    /// `multipart/form-data`, with the boundary between its parts
    FORMDATA(String),
    /// `application/json`
    JSON,
    /// `text/xml`
    XML,
    /// `text/plain`
    TEXT,
    /// `application/octet-stream`
    STREAM,
}

/// A `Contype` with its boundary as a sequence of characters.
pub enum ContypeView {
    FORM,
    FORMDATA(Seq<char>),
    JSON,
    XML,
    TEXT,
    STREAM,
}

impl View for Contype {
    type V = ContypeView;

    open spec fn view(&self) -> ContypeView {
        match *self {
            Contype::FORM => ContypeView::FORM,
            Contype::FORMDATA(boundary) => ContypeView::FORMDATA(boundary@),
            Contype::JSON => ContypeView::JSON,
            Contype::XML => ContypeView::XML,
            Contype::TEXT => ContypeView::TEXT,
            Contype::STREAM => ContypeView::STREAM,
        }
    }
}

impl ContypeView {
    /// The value of the `Content-Type` field for this content type.
    pub open spec fn text(self) -> Seq<char> {
        match self {
            ContypeView::FORM => "application/x-www-form-urlencoded"@,
            ContypeView::FORMDATA(boundary) => "multipart/form-data; boundary="@ + boundary,
            ContypeView::JSON => "application/json"@,
            ContypeView::XML => "text/xml"@,
            ContypeView::TEXT => "text/plain"@,
            ContypeView::STREAM => "application/octet-stream"@,
        }
    }
}

impl Contype {
    /// The value of the `Content-Type` field for this content type.
    pub fn to_string(&self) -> (r: String)
        ensures
            r@ == self@.text(),
    {
        match self {
            Contype::FORM => "application/x-www-form-urlencoded".to_owned(),
            Contype::FORMDATA(boundary) => "multipart/form-data; boundary=".to_owned().concat(
                boundary.as_str(),
            ),
            Contype::JSON => "application/json".to_owned(),
            Contype::XML => "text/xml".to_owned(),
            Contype::TEXT => "text/plain".to_owned(),
            Contype::STREAM => "application/octet-stream".to_owned(),
        }
    }
}

/// A header field: its name and its value.
pub type Field = (Seq<char>, Seq<char>);

/// The index of the first field of `fields` named `key`, or the length of
/// `fields` where there is none.
pub open spec fn key_position(fields: Seq<Field>, key: Seq<char>) -> nat
    decreases fields.len(),
{
    if fields.len() == 0 || fields[0].0 == key {
        0
    } else {
        1 + key_position(fields.drop_first(), key)
    }
}

/// The value of the field named `key`.
pub open spec fn lookup(fields: Seq<Field>, key: Seq<char>) -> Option<Seq<char>> {
    let i = key_position(fields, key) as int;
    if i < fields.len() {
        Some(fields[i].1)
    } else {
        None
    }
}

/// `fields` with `value` for `key`: in the place of the field named `key`
/// where there is one, else at the end.
pub open spec fn put(fields: Seq<Field>, key: Seq<char>, value: Seq<char>) -> Seq<Field> {
    let i = key_position(fields, key) as int;
    if i < fields.len() {
        fields.update(i, (key, value))
    } else {
        fields.push((key, value))
    }
}

/// Whether no two fields have one name.
pub open spec fn unique_keys(fields: Seq<Field>) -> bool {
    forall|i: int, j: int| 0 <= i < j < fields.len() ==> fields[i].0 != fields[j].0
}

/// The fields as a mapping from name to value.
pub open spec fn as_map(fields: Seq<Field>) -> Map<Seq<char>, Seq<char>> {
    Map::new(|key: Seq<char>| lookup(fields, key) is Some, |key: Seq<char>| lookup(fields, key)->0)
}

/// `key_position` stays within the fields, points at a field named `key` where
/// it points at anything, and passes over no such field.
pub proof fn lemma_key_position(fields: Seq<Field>, key: Seq<char>)
    ensures
        key_position(fields, key) <= fields.len(),
        key_position(fields, key) < fields.len() ==> fields[key_position(fields, key) as int].0
            == key,
        forall|j: int| 0 <= j < key_position(fields, key) ==> fields[j].0 != key,
    decreases fields.len(),
{
    if fields.len() == 0 || fields[0].0 == key {
    } else {
        let rest = fields.drop_first();
        lemma_key_position(rest, key);
        assert forall|j: int| 0 <= j < key_position(fields, key) implies fields[j].0 != key by {
            if j > 0 {
                assert(fields[j] == rest[j - 1]);
            }
        }
    }
}

/// The first field named `key` is where `key_position` points.
pub proof fn lemma_key_position_is(fields: Seq<Field>, key: Seq<char>, i: int)
    requires
        0 <= i <= fields.len(),
        i < fields.len() ==> fields[i].0 == key,
        forall|j: int| 0 <= j < i ==> fields[j].0 != key,
    ensures
        key_position(fields, key) == i,
{
    lemma_key_position(fields, key);
    let p = key_position(fields, key) as int;
    if p < i {
        assert(fields[p].0 != key);
    } else if i < p {
        assert(fields[i].0 != key);
    }
}

/// A new value for a name keeps the names distinct.
pub proof fn lemma_put_unique(fields: Seq<Field>, key: Seq<char>, value: Seq<char>)
    requires
        unique_keys(fields),
    ensures
        unique_keys(put(fields, key, value)),
{
    lemma_key_position(fields, key);
    let out = put(fields, key, value);
    let p = key_position(fields, key) as int;
    assert forall|i: int, j: int| 0 <= i < j < out.len() implies out[i].0 != out[j].0 by {
        if p < fields.len() {
            assert(out[i].0 == fields[i].0);
            assert(out[j].0 == fields[j].0);
        } else if j == fields.len() {
            assert(out[i].0 == fields[i].0);
        }
    }
}

/// The last value set for a name is the one that is found: after `put`,
/// `key` has `value` and every other name has what it had.
pub proof fn lemma_put_lookup(
    fields: Seq<Field>,
    key: Seq<char>,
    value: Seq<char>,
    other: Seq<char>,
)
    ensures
        lookup(put(fields, key, value), other) == if other == key {
            Some(value)
        } else {
            lookup(fields, other)
        },
{
    lemma_key_position(fields, key);
    lemma_key_position(fields, other);
    let out = put(fields, key, value);
    let p = key_position(fields, key) as int;
    let q = key_position(fields, other) as int;
    if other == key {
        assert forall|j: int| 0 <= j < p implies out[j].0 != key by {
            assert(out[j] == fields[j]);
        }
        lemma_key_position_is(out, key, p);
    } else {
        assert forall|j: int| 0 <= j < q implies out[j].0 != other by {
            if j < fields.len() && j != p {
                assert(out[j] == fields[j]);
            }
        }
        if q < fields.len() {
            assert(out[q] == fields[q]);
            lemma_key_position_is(out, other, q);
        } else {
            lemma_key_position_is(out, other, out.len() as int);
        }
    }
}

/// As a mapping, `put` is the insertion of the value under the name.
pub proof fn lemma_put_map(fields: Seq<Field>, key: Seq<char>, value: Seq<char>)
    ensures
        as_map(put(fields, key, value)) == as_map(fields).insert(key, value),
{
    assert forall|other: Seq<char>|
        lookup(put(fields, key, value), other) == if other == key {
            Some(value)
        } else {
            lookup(fields, other)
        } by {
        lemma_put_lookup(fields, key, value, other);
    }
    assert(as_map(put(fields, key, value)) =~= as_map(fields).insert(key, value));
}

/// A name that has a value keeps having one, whatever is set.
pub proof fn lemma_put_keeps(fields: Seq<Field>, key: Seq<char>, value: Seq<char>, held: Seq<char>)
    requires
        lookup(fields, held) is Some,
    ensures
        lookup(put(fields, key, value), held) is Some,
{
    lemma_put_lookup(fields, key, value, held);
}

/// An insertion-ordered mapping from header names to values. A name is held
/// once: a second value for it takes the place of the first.
#[derive(Clone, Debug)]
pub struct HeaderMap {
    fields: Vec<(String, String)>,
}

impl HeaderMap {
    /// The fields, in the order in which their names were first given.
    pub closed spec fn entries(&self) -> Seq<Field> {
        Seq::new(self.fields@.len(), |i: int| (self.fields@[i].0@, self.fields@[i].1@))
    }

    /// Whether each name is held once.
    pub open spec fn wf(&self) -> bool {
        unique_keys(self.entries())
    }

    /// A mapping without fields.
    pub fn new() -> (r: Self)
        ensures
            r.entries() == Seq::<Field>::empty(),
            r.wf(),
    {
        let r = HeaderMap { fields: Vec::new() };
        assert(r.entries() =~= Seq::<Field>::empty());
        r
    }

    /// The number of fields.
    pub fn len(&self) -> (n: usize)
        ensures
            n == self.entries().len(),
    {
        self.fields.len()
    }

    /// The name of the field at index `i`.
    pub fn name_at(&self, i: usize) -> (r: &String)
        requires
            i < self.entries().len(),
        ensures
            r@ == self.entries()[i as int].0,
    {
        &self.fields[i].0
    }

    /// The value of the field at index `i`.
    pub fn value_at(&self, i: usize) -> (r: &String)
        requires
            i < self.entries().len(),
        ensures
            r@ == self.entries()[i as int].1,
    {
        &self.fields[i].1
    }

    /// The index of the first field named `key`, or `len()` where there is none.
    fn position(&self, key: &String) -> (i: usize)
        ensures
            i == key_position(self.entries(), key@),
            i <= self.fields@.len(),
    {
        let mut i: usize = 0;
        assert(self.entries().skip(0) =~= self.entries());
        while i < self.fields.len() && !(self.fields[i].0 == *key)
            invariant
                i <= self.fields@.len(),
                key_position(self.entries(), key@) == i + key_position(
                    self.entries().skip(i as int),
                    key@,
                ),
            decreases self.fields@.len() - i,
        {
            assert(self.entries().skip(i as int).drop_first() =~= self.entries().skip(i + 1));
            i += 1;
        }
        i
    }

    /// The value held for `key`.
    pub fn get(&self, key: &str) -> (r: Option<&String>)
        ensures
            match r {
                Some(value) => lookup(self.entries(), key@) == Some(value@),
                None => lookup(self.entries(), key@) is None,
            },
    {
        let name = key.to_owned();
        let i = self.position(&name);
        if i < self.fields.len() {
            Some(&self.fields[i].1)
        } else {
            None
        }
    }

    /// Whether a value is held for `key`.
    pub fn contains_key(&self, key: &str) -> (r: bool)
        ensures
            r == lookup(self.entries(), key@) is Some,
    {
        self.get(key).is_some()
    }

    /// Sets the value for `key`. A name that is held keeps its place.
    pub fn insert(&mut self, key: String, value: String)
        ensures
            final(self).entries() == put(old(self).entries(), key@, value@),
            old(self).wf() ==> final(self).wf(),
    {
        let i = self.position(&key);
        proof {
            if self.wf() {
                lemma_put_unique(self.entries(), key@, value@);
            }
        }
        if i < self.fields.len() {
            self.fields[i] = (key, value);
        } else {
            self.fields.push((key, value));
        }
        assert(self.entries() =~= put(old(self).entries(), key@, value@));
    }
}

impl HeaderMap {
    /// Takes a field from `line` where `sep` stands in it: the name before
    /// `sep`, the value after it, both trimmed if `trimmed`.
    pub fn add_line(&mut self, line: &[char], sep: &[char], trimmed: bool)
        ensures
            final(self).entries() == add_line(old(self).entries(), line@, sep@, trimmed),
            old(self).wf() ==> final(self).wf(),
    {
        match split_once_chars(line, sep) {
            Some((name, value)) => {
                if trimmed {
                    self.insert(string_of(trim_chars(name)), string_of(trim_chars(value)));
                } else {
                    self.insert(string_of(name), string_of(value));
                }
            },
            None => {},
        }
    }
}

/// `fields` with the field that `line` holds, if it holds one.
pub open spec fn add_line(fields: Seq<Field>, line: Seq<char>, sep: Seq<char>, trimmed: bool) -> Seq<
    Field,
> {
    match split_once(line, sep) {
        Some((name, value)) => if trimmed {
            put(fields, trim(name), trim(value))
        } else {
            put(fields, name, value)
        },
        None => fields,
    }
}

/// `fields` with the fields that `lines` hold, taken in order.
pub open spec fn add_lines(
    fields: Seq<Field>,
    lines: Seq<Seq<char>>,
    sep: Seq<char>,
    trimmed: bool,
) -> Seq<Field>
    decreases lines.len(),
{
    if lines.len() == 0 {
        fields
    } else {
        add_line(add_lines(fields, lines.drop_last(), sep, trimmed), lines.last(), sep, trimmed)
    }
}

/// The first line of a request: method, path and protocol version.
#[derive(Clone, Debug)]
pub struct RequestLine {
    pub method: Method,
    pub path: String,
    pub version: String,
}

/// A `RequestLine` with its texts as sequences of characters.
pub struct RequestLineView {
    pub method: Method,
    pub path: Seq<char>,
    pub version: Seq<char>,
}

impl View for RequestLine {
    type V = RequestLineView;

    open spec fn view(&self) -> RequestLineView {
        RequestLineView { method: self.method, path: self.path@, version: self.version@ }
    }
}

impl RequestLineView {
    /// The line on the wire: the three parts, a space between them.
    pub open spec fn text(self) -> Seq<char> {
        self.method.name() + seq![' '] + self.path + seq![' '] + self.version
    }
}

/// Whether the field is the `Host` field.
pub open spec fn is_host(field: Field) -> bool {
    field.0 == "Host"@
}

/// The `Host` fields of `fields` if `hosts`, else the other fields, in order.
pub open spec fn select(fields: Seq<Field>, hosts: bool) -> Seq<Field>
    decreases fields.len(),
{
    if fields.len() == 0 {
        Seq::empty()
    } else {
        let before = select(fields.drop_last(), hosts);
        if is_host(fields.last()) == hosts {
            before.push(fields.last())
        } else {
            before
        }
    }
}

/// The fields in the order in which they go on the wire: `Host` first.
pub open spec fn wire_order(fields: Seq<Field>) -> Seq<Field> {
    select(fields, true) + select(fields, false)
}

/// The line of a field: name, colon, space, value.
pub open spec fn field_line(field: Field) -> Seq<char> {
    field.0 + colon_space() + field.1
}

/// The line of each field.
pub open spec fn field_lines(fields: Seq<Field>) -> Seq<Seq<char>> {
    Seq::new(fields.len(), |i: int| field_line(fields[i]))
}

/// The head of a request: an optional request line and the header fields.
#[derive(Clone, Debug)]
pub struct Header {
    pub request_line: Option<RequestLine>,
    pub header: HeaderMap,
}

/// A `Header` as it counts in contracts.
pub struct HeaderView {
    pub request_line: Option<RequestLineView>,
    pub fields: Seq<Field>,
}

impl HeaderView {
    /// The lines of the head: the request line if there is one, then the fields.
    pub open spec fn head_lines(self) -> Seq<Seq<char>> {
        let first = match self.request_line {
            Some(line) => seq![line.text()],
            None => Seq::empty(),
        };
        first + field_lines(wire_order(self.fields))
    }

    /// The head on the wire: its lines, a line ending between them and none
    /// after the last.
    pub open spec fn text(self) -> Seq<char> {
        join(self.head_lines(), crlf())
    }

    /// The value of the field named `key`.
    pub open spec fn value_of(self, key: Seq<char>) -> Option<Seq<char>> {
        lookup(self.fields, key)
    }
}

/// The head that `text` spells. A first line of three words is the request
/// line, with `GET` for a method that is neither `GET` nor `POST`; every other
/// line gives a field where a colon and a space stand in it.
pub open spec fn parse_head(text: Seq<char>) -> HeaderView {
    let all = lines(text);
    if all.len() > 0 && words(all[0]).len() == 3 {
        let parts = words(all[0]);
        HeaderView {
            request_line: Some(
                RequestLineView {
                    method: match Method::named(parts[0]) {
                        Some(method) => method,
                        None => Method::GET,
                    },
                    path: parts[1],
                    version: parts[2],
                },
            ),
            fields: add_lines(Seq::empty(), all.skip(1), colon_space(), false),
        }
    } else {
        HeaderView { request_line: None, fields: add_lines(Seq::empty(), all, colon_space(), false) }
    }
}

/// The fields that every new head starts with.
pub open spec fn default_fields() -> Seq<Field> {
    seq![("User-Agent"@, "mini-curl-dragonos/0.1"@), ("Accept"@, "*/*"@)]
}

/// The default fields give `User-Agent` and `Accept` their values.
pub proof fn lemma_default_fields()
    ensures
        unique_keys(default_fields()),
        lookup(default_fields(), "User-Agent"@) == Some("mini-curl-dragonos/0.1"@),
        lookup(default_fields(), "Accept"@) == Some("*/*"@),
{
    reveal_strlit("User-Agent");
    reveal_strlit("Accept");
    let fields = default_fields();
    assert("User-Agent"@.len() != "Accept"@.len());
    assert(fields.drop_first()[0] == fields[1]);
    assert(key_position(fields.drop_first(), "Accept"@) == 0);
}

impl View for Header {
    type V = HeaderView;

    open spec fn view(&self) -> HeaderView {
        HeaderView {
            request_line: match self.request_line {
                Some(line) => Some(line@),
                None => None,
            },
            fields: self.header.entries(),
        }
    }
}

impl Header {
    /// Whether each field name is held once.
    pub open spec fn wf(&self) -> bool {
        unique_keys(self@.fields)
    }

    /// A head without a request line, with the two default fields.
    pub fn new() -> (r: Self)
        ensures
            r@.request_line is None,
            r@.fields == default_fields(),
            r.wf(),
    {
        let mut header = HeaderMap::new();
        header.insert("User-Agent".to_owned(), "mini-curl-dragonos/0.1".to_owned());
        header.insert("Accept".to_owned(), "*/*".to_owned());
        proof {
            reveal_strlit("User-Agent");
            reveal_strlit("Accept");
            let first = seq![("User-Agent"@, "mini-curl-dragonos/0.1"@)];
            assert(put(Seq::empty(), "User-Agent"@, "mini-curl-dragonos/0.1"@) =~= first);
            assert(first.drop_first() =~= Seq::<Field>::empty());
            assert(key_position(first.drop_first(), "Accept"@) == 0);
            assert("User-Agent"@.len() != "Accept"@.len());
            assert(key_position(first, "Accept"@) == 1);
            assert(put(first, "Accept"@, "*/*"@) =~= default_fields());
        }
        Header { request_line: None, header }
    }

    /// Sets the request line.
    pub fn with_request_line(&mut self, method: Method, path: &str, version: &str) -> (r: &mut Self)
        ensures
            r@ == (HeaderView {
                request_line: Some(RequestLineView { method, path: path@, version: version@ }),
                fields: old(self)@.fields,
            }),
            *final(self) == *final(r),
    {
        self.request_line = Some(
            RequestLine { method, path: path.to_owned(), version: version.to_owned() },
        );
        self
    }

    /// Sets the `Content-Type` field.
    pub fn content_type(&mut self, value: &str) -> (r: &mut Self)
        ensures
            r@ == (HeaderView {
                request_line: old(self)@.request_line,
                fields: put(old(self)@.fields, "Content-Type"@, value@),
            }),
            *final(self) == *final(r),
    {
        self.header.insert("Content-Type".to_owned(), value.to_owned());
        self
    }

    /// Sets the field named `key`.
    pub fn set(&mut self, key: &str, value: &str) -> (r: &mut Self)
        ensures
            r@ == (HeaderView {
                request_line: old(self)@.request_line,
                fields: put(old(self)@.fields, key@, value@),
            }),
            *final(self) == *final(r),
    {
        self.header.insert(key.to_owned(), value.to_owned());
        self
    }

    /// The value of the field named `key`.
    pub fn get(&self, key: &str) -> (r: Option<&String>)
        ensures
            match r {
                Some(value) => self@.value_of(key@) == Some(value@),
                None => self@.value_of(key@) is None,
            },
    {
        self.header.get(key)
    }

    /// Appends to `out`, which holds the lines `done`, the line of each
    /// field that is a `Host` field if `hosts`, or of each that is none if
    /// not. `any` says whether `done` holds a line; so does the result, of all
    /// the lines.
    fn push_fields(
        &self,
        out: &mut Vec<char>,
        any: bool,
        hosts: bool,
        Ghost(done): Ghost<Seq<Seq<char>>>,
    ) -> (more: bool)
        requires
            old(out)@ == join(done, crlf()),
            any == (done.len() > 0),
        ensures
            final(out)@ == join(done + field_lines(select(self@.fields, hosts)), crlf()),
            more == ((done + field_lines(select(self@.fields, hosts))).len() > 0),
    {
        let host = "Host".to_owned();
        let n: usize = self.header.len();
        let mut more: bool = any;
        let mut i: usize = 0;
        assert(done + field_lines(select(self@.fields.take(0), hosts)) =~= done);
        while i < n
            invariant
                i <= n,
                n == self@.fields.len(),
                self@.fields == self.header.entries(),
                host@ == "Host"@,
                out@ == join(done + field_lines(select(self@.fields.take(i as int), hosts)), crlf()),
                more == ((done + field_lines(select(self@.fields.take(i as int), hosts))).len()
                    > 0),
            decreases n - i,
        {
            let name = self.header.name_at(i);
            let ghost field = self@.fields[i as int];
            let ghost before = done + field_lines(select(self@.fields.take(i as int), hosts));
            proof {
                assert(self@.fields.take(i + 1).drop_last() =~= self@.fields.take(i as int));
                assert(self@.fields.take(i + 1).last() == field);
            }
            if (*name == host) == hosts {
                if more {
                    out.push('\r');
                    out.push('\n');
                }
                push_str(out, name.as_str());
                out.push(':');
                out.push(' ');
                push_str(out, self.header.value_at(i).as_str());
                more = true;
                proof {
                    lemma_join_push(before, field_line(field), crlf());
                    assert(done + field_lines(select(self@.fields.take(i + 1), hosts))
                        =~= before.push(field_line(field)));
                    assert(out@ =~= join(before.push(field_line(field)), crlf()));
                }
            }
            i += 1;
        }
        assert(self@.fields.take(n as int) =~= self@.fields);
        more
    }

    /// The head on the wire: the request line if there is one, the `Host`
    /// field if there is one, then the other fields in the order in which
    /// their names were first set; a line ending between the lines and none
    /// after the last.
    pub fn to_string(&self) -> (r: String)
        ensures
            r@ == self@.text(),
    {
        let mut out: Vec<char> = Vec::new();
        let mut any: bool = false;
        let ghost mut done: Seq<Seq<char>> = Seq::empty();
        match &self.request_line {
            Some(line) => {
                push_str(&mut out, line.method.as_str());
                out.push(' ');
                push_str(&mut out, line.path.as_str());
                out.push(' ');
                push_str(&mut out, line.version.as_str());
                any = true;
                proof {
                    done = seq![line@.text()];
                    assert(out@ =~= line@.text());
                }
            },
            None => {},
        }
        let ghost hosts = field_lines(select(self@.fields, true));
        let ghost others = field_lines(select(self@.fields, false));
        let any = self.push_fields(&mut out, any, true, Ghost(done));
        let _ = self.push_fields(&mut out, any, false, Ghost(done + hosts));
        proof {
            assert(field_lines(wire_order(self@.fields)) =~= hosts + others);
            assert((done + hosts) + others =~= done + (hosts + others));
        }
        string_of(out.as_slice())
    }

    /// The head that `s` spells: see `parse_head`.
    pub fn from(s: &str) -> (r: Self)
        ensures
            r@ == parse_head(s@),
            r.wf(),
    {
        let text = chars_of(s);
        let all = lines_of(text.as_slice());
        let mut header = HeaderMap::new();
        let mut request_line: Option<RequestLine> = None;
        let mut start: usize = 0;
        if all.len() > 0 {
            let parts = words_of(all[0].as_slice());
            if parts.len() == 3 {
                let method = match Method::parse_chars(parts[0].as_slice()) {
                    Some(method) => method,
                    None => Method::GET,
                };
                request_line = Some(
                    RequestLine {
                        method,
                        path: string_of(parts[1].as_slice()),
                        version: string_of(parts[2].as_slice()),
                    },
                );
                start = 1;
            }
        }
        let mut sep: Vec<char> = Vec::new();
        sep.push(':');
        sep.push(' ');
        assert(sep@ =~= colon_space());
        let ghost given = views(all@);
        let mut i: usize = start;
        assert(given.subrange(start as int, start as int) =~= Seq::<Seq<char>>::empty());
        while i < all.len()
            invariant
                start <= i <= all.len(),
                given == views(all@),
                sep@ == colon_space(),
                header.wf(),
                header.entries() == add_lines(
                    Seq::empty(),
                    given.subrange(start as int, i as int),
                    colon_space(),
                    false,
                ),
            decreases all.len() - i,
        {
            header.add_line(all[i].as_slice(), sep.as_slice(), false);
            proof {
                assert(given.subrange(start as int, i + 1).drop_last() =~= given.subrange(
                    start as int,
                    i as int,
                ));
            }
            i += 1;
        }
        proof {
            assert(given.subrange(start as int, all.len() as int) =~= given.skip(start as int));
            assert(given.skip(0) =~= given);
        }
        Header { request_line, header }
    }
}

} // verus!

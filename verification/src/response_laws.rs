//! What a response gives when it is written out and parsed again.

use crate::lines::{
    ended, free_of, lemma_first_blank, lemma_lines_blank, lemma_lines_ended, lemma_lines_single,
    single_lines,
};
use crate::response::{
    body_of, delimiter, head_text, is_textual, parse_response, response_fields, BodyView,
    ResponseView,
};
use crate::structs::{
    add_line, add_lines, field_line, field_lines, key_position, lemma_key_position,
    lemma_key_position_is, lemma_put_unique, lookup, put, unique_keys, Field,
};
use crate::text::{
    colon_space, crlf, find, is_whitespace, lemma_find, lemma_find_none, lemma_find_unique, lines,
    matches_at, split_once, to_lower, trim, trim_end, trim_start,
};
use vstd::prelude::*;
use vstd::utf8::{
    decode_utf8, decode_utf8_encode_utf8, encode_scalar, encode_utf8, encode_utf8_decode_utf8,
    encode_utf8_valid_utf8, valid_utf8,
};

verus! {

/// Whether `s` neither begins nor ends with whitespace.
pub open spec fn is_trimmed(s: Seq<char>) -> bool {
    s.len() == 0 || (!is_whitespace(s[0]) && !is_whitespace(s.last()))
}

/// Whether a field is as the parser of responses leaves fields: name and
/// value trimmed and free of line feeds, the name free of colons.
pub open spec fn is_tidy(field: Field) -> bool {
    is_trimmed(field.0) && is_trimmed(field.1) && free_of(field.0, ':') && free_of(field.0, '\n')
        && free_of(field.1, '\n')
}

/// Whether the names are distinct and every field is tidy.
pub open spec fn all_tidy(fields: Seq<Field>) -> bool {
    unique_keys(fields) && forall|i: int| 0 <= i < fields.len() ==> is_tidy(#[trigger] fields[i])
}

/// The head of a response in text: the status line and the line of each
/// field, each with its line ending, and the empty line.
pub open spec fn head_form(status: Seq<char>, fields: Seq<Field>) -> Seq<char> {
    ended(seq![status] + field_lines(fields), crlf()) + crlf()
}

/// A response on the wire, with `status` for its status line: the head in
/// UTF-8, then the bytes of the body.
pub open spec fn wire_form(status: Seq<char>, response: ResponseView) -> Seq<u8> {
    encode_utf8(head_form(status, response.headers)) + response.body.bytes()
}

/// The encoding of two texts in a row is the two encodings in a row.
pub proof fn lemma_encode_add(a: Seq<char>, b: Seq<char>)
    ensures
        encode_utf8(a + b) == encode_utf8(a) + encode_utf8(b),
    decreases a.len(),
{
    if a.len() == 0 {
        assert(a + b =~= b);
        assert(encode_utf8(a) + encode_utf8(b) =~= encode_utf8(b));
    } else {
        assert((a + b)[0] == a[0]);
        assert((a + b).drop_first() =~= a.drop_first() + b);
        lemma_encode_add(a.drop_first(), b);
        assert(encode_utf8(a + b) =~= encode_utf8(a) + encode_utf8(b));
    }
}

/// The encoding of an ASCII character is the one byte of its number; every
/// byte of the encoding of another character is 128 or more.
pub proof fn lemma_scalar_bytes(c: char)
    ensures
        (c as u32) < 0x80 ==> encode_scalar(c as u32).len() == 1 && encode_scalar(c as u32)[0]
            == (c as u32),
        (c as u32) >= 0x80 ==> forall|i: int|
            0 <= i < encode_scalar(c as u32).len() ==> #[trigger] encode_scalar(c as u32)[i]
                >= 0x80,
        encode_scalar(c as u32).len() >= 1,
{
    let s = c as u32;
    let bytes = encode_scalar(s);
    if s < 0x80 {
        assert((s & 0x7F) as u8 as u32 == s) by (bit_vector)
            requires
                s < 0x80,
        ;
    } else {
        assert(0xC0u8 | ((s >> 6) & 0x1F) as u8 >= 0x80) by (bit_vector);
        assert(0xE0u8 | ((s >> 12) & 0x0F) as u8 >= 0x80) by (bit_vector);
        assert(0xF0u8 | ((s >> 18) & 0x7) as u8 >= 0x80) by (bit_vector);
        assert(0x80u8 | (s & 0x3F) as u8 >= 0x80) by (bit_vector);
        assert(0x80u8 | ((s >> 6) & 0x3F) as u8 >= 0x80) by (bit_vector);
        assert(0x80u8 | ((s >> 12) & 0x3F) as u8 >= 0x80) by (bit_vector);
    }
}

/// The encoding of a text without line feed holds no byte 10, and that of a
/// text that is not empty is not empty.
pub proof fn lemma_encode_free(s: Seq<char>)
    requires
        free_of(s, '\n'),
    ensures
        forall|i: int| 0 <= i < encode_utf8(s).len() ==> encode_utf8(s)[i] != 10u8,
        s.len() > 0 ==> encode_utf8(s).len() > 0,
    decreases s.len(),
{
    if s.len() > 0 {
        let first = encode_scalar(s[0] as u32);
        let rest = encode_utf8(s.drop_first());
        lemma_scalar_bytes(s[0]);
        assert forall|i: int| 0 <= i < s.drop_first().len() implies s.drop_first()[i] != '\n' by {
            assert(s.drop_first()[i] == s[i + 1]);
        }
        lemma_encode_free(s.drop_first());
        assert(s[0] != '\n');
        assert forall|i: int| 0 <= i < encode_utf8(s).len() implies encode_utf8(s)[i] != 10u8 by {
            if i < first.len() {
                assert(encode_utf8(s)[i] == first[i]);
                if (s[0] as u32) < 0x80 {
                    if s[0] as u32 == 10 {
                        vstd::utf8::char_u32_cast(s[0], 10u32);
                        vstd::utf8::char_u32_cast('\n', 10u32);
                    }
                } else {
                    assert(first[i] >= 0x80);
                }
            } else {
                assert(encode_utf8(s)[i] == rest[i - first.len()]);
            }
        }
    }
}

/// The encoding of a line ending is the bytes 13 and 10.
pub proof fn lemma_encode_crlf()
    ensures
        encode_utf8(crlf()) == seq![13u8, 10u8],
{
    let s = crlf();
    lemma_scalar_bytes('\r');
    lemma_scalar_bytes('\n');
    assert(encode_scalar('\r' as u32) =~= seq![13u8]);
    assert(encode_scalar('\n' as u32) =~= seq![10u8]);
    assert(s.drop_first() =~= seq!['\n']);
    assert(s.drop_first().drop_first() =~= Seq::<char>::empty());
    assert(encode_utf8(s.drop_first().drop_first()) =~= Seq::<u8>::empty());
    assert(encode_utf8(s.drop_first()) =~= seq![10u8]);
    assert(encode_utf8(s) =~= seq![13u8, 10u8]);
}

/// The encoding of each line.
pub open spec fn encoded_lines(lines: Seq<Seq<char>>) -> Seq<Seq<u8>> {
    Seq::new(lines.len(), |i: int| encode_utf8(lines[i]))
}

/// The encoding of lines with their line endings is the encoded lines with
/// the encoded line ending.
pub proof fn lemma_encode_ended(all: Seq<Seq<char>>)
    ensures
        encode_utf8(ended(all, crlf())) == ended(encoded_lines(all), seq![13u8, 10u8]),
    decreases all.len(),
{
    if all.len() == 0 {
    } else {
        let later = all.drop_first();
        lemma_encode_ended(later);
        lemma_encode_crlf();
        lemma_encode_add(all[0] + crlf(), ended(later, crlf()));
        lemma_encode_add(all[0], crlf());
        assert(encoded_lines(all).drop_first() =~= encoded_lines(later));
        assert(encoded_lines(all)[0] == encode_utf8(all[0]));
    }
}

/// What `trim_start` leaves is the text from some index on, and does not
/// begin with whitespace.
pub proof fn lemma_trim_start(s: Seq<char>) -> (k: int)
    ensures
        0 <= k <= s.len(),
        trim_start(s) == s.skip(k),
        k < s.len() ==> !is_whitespace(s[k]),
    decreases s.len(),
{
    if s.len() > 0 && is_whitespace(s[0]) {
        let k = lemma_trim_start(s.drop_first());
        assert(s.drop_first().skip(k) =~= s.skip(k + 1));
        if k < s.drop_first().len() {
            assert(s.drop_first()[k] == s[k + 1]);
        }
        k + 1
    } else {
        assert(s.skip(0) =~= s);
        0
    }
}

/// What `trim_end` leaves is the text up to some index, and does not end
/// with whitespace.
pub proof fn lemma_trim_end(s: Seq<char>) -> (k: int)
    ensures
        0 <= k <= s.len(),
        trim_end(s) == s.take(k),
        k > 0 ==> !is_whitespace(s[k - 1]),
    decreases s.len(),
{
    if s.len() > 0 && is_whitespace(s.last()) {
        let k = lemma_trim_end(s.drop_last());
        assert(s.drop_last().take(k) =~= s.take(k));
        if k > 0 {
            assert(s.drop_last()[k - 1] == s[k - 1]);
        }
        k
    } else {
        assert(s.take(s.len() as int) =~= s);
        s.len() as int
    }
}

/// A trimmed text is trimmed, and holds no character that the text did not
/// hold.
pub proof fn lemma_trim(s: Seq<char>, c: char)
    ensures
        is_trimmed(trim(s)),
        free_of(s, c) ==> free_of(trim(s), c),
{
    let a = lemma_trim_start(s);
    let t = trim_start(s);
    let b = lemma_trim_end(t);
    assert(trim(s) == t.take(b));
    if b > 0 {
        assert(t.take(b)[0] == s[a]);
        assert(t.take(b).last() == t[b - 1]);
    }
    if free_of(s, c) {
        assert forall|i: int| 0 <= i < trim(s).len() implies trim(s)[i] != c by {
            assert(trim(s)[i] == s[a + i]);
        }
    }
}

/// Trimming leaves a trimmed text as it is, also after a space before it.
pub proof fn lemma_trim_trimmed(s: Seq<char>)
    requires
        is_trimmed(s),
    ensures
        trim(s) == s,
        trim(seq![' '] + s) == s,
{
    let spaced = seq![' '] + s;
    assert(spaced[0] == ' ');
    assert(spaced.drop_first() =~= s);
    assert(trim_start(spaced) == trim_start(s));
}

/// Where a colon stands in a line, the part before the first colon holds no
/// colon, and both parts hold no line feed if the line holds none.
pub proof fn lemma_split_colon(line: Seq<char>)
    ensures
        match split_once(line, seq![':']) {
            Some((name, value)) => free_of(name, ':') && (free_of(line, '\n') ==> free_of(
                name,
                '\n',
            ) && free_of(value, '\n')),
            None => true,
        },
{
    if split_once(line, seq![':']) is Some {
        let sep = seq![':'];
        lemma_find(line, sep);
        let at = find(line, sep)->0;
        let name = line.take(at);
        let value = line.skip(at + 1);
        assert forall|k: int| 0 <= k < name.len() implies name[k] != ':' by {
            if name[k] == ':' {
                assert(line.subrange(k, k + 1) =~= sep);
                assert(matches_at(line, sep, k));
            }
        }
        if free_of(line, '\n') {
            assert forall|k: int| 0 <= k < name.len() implies name[k] != '\n' by {
                assert(name[k] == line[k]);
            }
            assert forall|k: int| 0 <= k < value.len() implies value[k] != '\n' by {
                assert(value[k] == line[at + 1 + k]);
            }
        }
    }
}

/// A tidy field more, or a new value for a name, leaves tidy fields tidy.
pub proof fn lemma_put_tidy(fields: Seq<Field>, field: Field)
    requires
        all_tidy(fields),
        is_tidy(field),
    ensures
        all_tidy(put(fields, field.0, field.1)),
{
    lemma_put_unique(fields, field.0, field.1);
    lemma_key_position(fields, field.0);
    let out = put(fields, field.0, field.1);
    let p = key_position(fields, field.0) as int;
    assert forall|i: int| 0 <= i < out.len() implies is_tidy(#[trigger] out[i]) by {
        if i == p {
            assert(out[i] == field);
        } else {
            assert(out[i] == fields[i]);
        }
    }
}

/// The fields that the parser of responses takes from lines are tidy.
pub proof fn lemma_add_lines_tidy(all: Seq<Seq<char>>)
    requires
        single_lines(all),
    ensures
        all_tidy(add_lines(Seq::empty(), all, seq![':'], true)),
    decreases all.len(),
{
    if all.len() > 0 {
        let front = all.drop_last();
        let line = all.last();
        assert forall|i: int| 0 <= i < front.len() implies free_of(#[trigger] front[i], '\n') by {
            assert(front[i] == all[i]);
        }
        lemma_add_lines_tidy(front);
        let before = add_lines(Seq::empty(), front, seq![':'], true);
        assert(free_of(all[all.len() - 1], '\n'));
        match split_once(line, seq![':']) {
            Some((name, value)) => {
                lemma_split_colon(line);
                lemma_trim(name, ':');
                lemma_trim(name, '\n');
                lemma_trim(value, '\n');
                lemma_put_tidy(before, (trim(name), trim(value)));
            },
            None => {},
        }
    }
}

/// The header fields of any head are tidy.
pub proof fn lemma_response_fields_tidy(head: Seq<char>)
    ensures
        all_tidy(response_fields(head)),
{
    let all = lines(head);
    lemma_lines_single(head);
    if all.len() > 0 {
        let rest = all.skip(1);
        assert forall|i: int| 0 <= i < rest.len() implies free_of(#[trigger] rest[i], '\n') by {
            assert(rest[i] == all[i + 1]);
        }
        lemma_add_lines_tidy(rest);
    } else {
        lemma_add_lines_tidy(all);
    }
}

/// The line of a tidy field gives that field again.
pub proof fn lemma_reread_field(fields: Seq<Field>, field: Field)
    requires
        is_tidy(field),
    ensures
        add_line(fields, field_line(field), seq![':'], true) == put(fields, field.0, field.1),
{
    let sep = seq![':'];
    let line = field_line(field);
    let at = field.0.len() as int;
    assert(line[at] == ':');
    assert(line.subrange(at, at + 1) =~= sep);
    assert forall|j: int| 0 <= j < at implies !matches_at(line, sep, j) by {
        assert(line[j] == field.0[j]);
        if matches_at(line, sep, j) {
            assert(line.subrange(j, j + 1)[0] == ':');
        }
    }
    lemma_find_unique(line, sep, at);
    assert(line.take(at) =~= field.0);
    assert(line.skip(at + 1) =~= seq![' '] + field.1);
    lemma_trim_trimmed(field.0);
    lemma_trim_trimmed(field.1);
}

/// The lines of tidy fields give those fields again, in their order.
pub proof fn lemma_reread_fields(fields: Seq<Field>)
    requires
        all_tidy(fields),
    ensures
        add_lines(Seq::empty(), field_lines(fields), seq![':'], true) == fields,
    decreases fields.len(),
{
    if fields.len() == 0 {
        assert(field_lines(fields) =~= Seq::<Seq<char>>::empty());
    } else {
        let front = fields.drop_last();
        let last = fields.last();
        assert(field_lines(fields).drop_last() =~= field_lines(front));
        assert(field_lines(fields).last() == field_line(last));
        assert(all_tidy(front)) by {
            assert forall|i: int, j: int| 0 <= i < j < front.len() implies front[i].0
                != front[j].0 by {
                assert(front[i] == fields[i] && front[j] == fields[j]);
            }
            assert forall|i: int| 0 <= i < front.len() implies is_tidy(#[trigger] front[i]) by {
                assert(front[i] == fields[i]);
            }
        }
        lemma_reread_fields(front);
        assert(is_tidy(fields[fields.len() - 1]));
        lemma_reread_field(front, last);
        assert forall|j: int| 0 <= j < front.len() implies front[j].0 != last.0 by {
            assert(front[j] == fields[j]);
        }
        lemma_key_position_is(front, last.0, front.len() as int);
        assert(put(front, last.0, last.1) =~= fields);
    }
}

/// The line of a tidy field is free of line feeds and not empty.
pub proof fn lemma_tidy_line(field: Field)
    requires
        is_tidy(field),
    ensures
        free_of(field_line(field), '\n'),
        field_line(field).len() > 0,
{
    let line = field_line(field);
    assert forall|i: int| 0 <= i < line.len() implies line[i] != '\n' by {
        if i < field.0.len() {
            assert(line[i] == field.0[i]);
        } else if i < field.0.len() + 2 {
            assert(line[i] == colon_space()[i - field.0.len()]);
        } else {
            assert(line[i] == field.1[i - field.0.len() - 2]);
        }
    }
}

/// The bytes of a body, taken for a body under the same fields, are the
/// same bytes.
pub proof fn lemma_body_again(fields: Seq<Field>, bytes: Seq<u8>)
    ensures
        body_of(fields, body_of(fields, bytes).bytes()).bytes() == body_of(fields, bytes).bytes(),
{
    let first = body_of(fields, bytes);
    match first {
        BodyView::Text(text) => {
            assert(valid_utf8(bytes));
            decode_utf8_encode_utf8(bytes);
            assert(first.bytes() == bytes);
        },
        BodyView::Binary(given) => {
            if given.len() == 0 {
                assert(given =~= Seq::<u8>::empty());
                assert(valid_utf8(given));
                assert(decode_utf8(given) =~= Seq::<char>::empty());
                assert(encode_utf8(Seq::<char>::empty()) =~= Seq::<u8>::empty());
            } else {
                assert(given == bytes);
            }
        },
    }
}

/// The head and the body of tidy fields on the wire parse to those fields and
/// to the body that the bytes are under them.
pub proof fn lemma_parse_wire(status: Seq<char>, fields: Seq<Field>, body: Seq<u8>)
    requires
        free_of(status, '\n'),
        all_tidy(fields),
    ensures
        parse_response(encode_utf8(head_form(status, fields)) + body).headers == fields,
        parse_response(encode_utf8(head_form(status, fields)) + body).body == body_of(fields, body),
{
    let all = seq![status] + field_lines(fields);
    let head = head_form(status, fields);
    let raw = encode_utf8(head) + body;
    let end = seq![13u8, 10u8];
    let byte_lines = encoded_lines(all);
    assert forall|i: int| 0 <= i < all.len() implies free_of(#[trigger] all[i], '\n') by {
        if i > 0 {
            assert(all[i] == field_line(fields[i - 1]));
            lemma_tidy_line(fields[i - 1]);
        }
    }
    assert forall|i: int, k: int|
        0 <= i < byte_lines.len() && 0 <= k < byte_lines[i].len() implies byte_lines[i][k]
        != 10u8 by {
        lemma_encode_free(all[i]);
    }
    assert forall|i: int| 1 <= i < byte_lines.len() implies (#[trigger] byte_lines[i]).len()
        > 0 by {
        assert(all[i] == field_line(fields[i - 1]));
        lemma_tidy_line(fields[i - 1]);
        lemma_encode_free(all[i]);
    }
    lemma_encode_add(ended(all, crlf()), crlf());
    lemma_encode_ended(all);
    lemma_encode_crlf();
    let head_bytes = ended(byte_lines, end);
    assert(encode_utf8(head) == head_bytes + end);
    assert(raw =~= head_bytes + end + body);
    lemma_first_blank(byte_lines, 13u8, 10u8, body);
    assert(seq![13u8, 10u8, 13u8, 10u8] =~= delimiter());
    let at = head_bytes.len() - 2;
    assert(find(raw, delimiter()) == Some(at));
    assert(raw.take(at + 4) =~= encode_utf8(head));
    assert(raw.skip(at + 4) =~= body);
    encode_utf8_valid_utf8(head);
    encode_utf8_decode_utf8(head);
    assert(head_text(raw.take(at + 4)) == head);
    lemma_lines_ended(all, crlf());
    lemma_lines_blank();
    let blank = seq![Seq::<char>::empty()];
    assert(lines(head) == all + blank);
    let rest = lines(head).skip(1);
    assert(rest =~= field_lines(fields) + blank);
    assert(rest.drop_last() =~= field_lines(fields));
    assert(rest.last() == Seq::<char>::empty());
    lemma_reread_fields(fields);
    assert(split_once(Seq::<char>::empty(), seq![':']) is None);
}

/// Parsing is idempotent: what a response gives when it is written out,
/// under any status line, and parsed again has the header fields that the
/// response had, and a body of the same bytes.
pub proof fn lemma_parse_again(raw: Seq<u8>, status: Seq<char>)
    requires
        free_of(status, '\n'),
    ensures
        parse_response(wire_form(status, parse_response(raw))).headers == parse_response(
            raw,
        ).headers,
        parse_response(wire_form(status, parse_response(raw))).body.bytes() == parse_response(
            raw,
        ).body.bytes(),
{
    let first = parse_response(raw);
    match find(raw, delimiter()) {
        Some(at) => {
            lemma_response_fields_tidy(head_text(raw.take(at + 4)));
            lemma_body_again(first.headers, raw.skip(at + 4));
        },
        None => {
            lemma_body_again(first.headers, raw);
        },
    }
    lemma_parse_wire(status, first.headers, first.body.bytes());
}

/// `application/json` announces text.
pub proof fn lemma_json_textual()
    ensures
        is_textual("application/json"@),
{
    reveal_strlit("application/json");
    reveal_strlit("json");
    let given = "application/json"@;
    let small = to_lower(given);
    assert(small =~= given);
    assert(given.subrange(12, 16) =~= "json"@);
    assert(matches_at(given, "json"@, 12));
    lemma_find(given, "json"@);
}

/// `image/png` does not announce text.
pub proof fn lemma_png_not_textual()
    ensures
        !is_textual("image/png"@),
{
    reveal_strlit("image/png");
    reveal_strlit("text/");
    reveal_strlit("json");
    reveal_strlit("xml");
    reveal_strlit("html");
    let given = "image/png"@;
    let small = to_lower(given);
    assert(small =~= given);
    assert(given.subrange(0, 5)[0] != "text/"@[0]);
    assert forall|j: int| !matches_at(given, "json"@, j) by {
        if matches_at(given, "json"@, j) {
            assert(given.subrange(j, j + 4)[0] == 'j');
        }
    }
    assert forall|j: int| !matches_at(given, "xml"@, j) by {
        if matches_at(given, "xml"@, j) {
            assert(given.subrange(j, j + 3)[0] == 'x');
        }
    }
    assert forall|j: int| !matches_at(given, "html"@, j) by {
        if matches_at(given, "html"@, j) {
            assert(given.subrange(j, j + 4)[0] == 'h');
        }
    }
    lemma_find_none(given, "json"@);
    lemma_find_none(given, "xml"@);
    lemma_find_none(given, "html"@);
}

/// Under `Content-Type: application/json` bytes that are valid UTF-8 are a
/// text body; under `Content-Type: image/png` any bytes are a binary body;
/// without a `Content-Type`, bytes that are no valid UTF-8 are a binary body.
pub proof fn lemma_classification(fields: Seq<Field>, bytes: Seq<u8>)
    ensures
        lookup(fields, "Content-Type"@) == Some("application/json"@) && valid_utf8(bytes)
            ==> body_of(fields, bytes) == BodyView::Text(decode_utf8(bytes)),
        lookup(fields, "Content-Type"@) == Some("image/png"@) ==> body_of(fields, bytes)
            == BodyView::Binary(bytes),
        lookup(fields, "Content-Type"@) is None && !valid_utf8(bytes) ==> body_of(fields, bytes)
            == BodyView::Binary(bytes),
{
    lemma_json_textual();
    lemma_png_not_textual();
}

/// A text body is made only of bytes that are valid UTF-8, and only where
/// the fields hold no `Content-Type` or one that announces text; it is the
/// text that the bytes encode.
pub proof fn lemma_text_is_valid(fields: Seq<Field>, bytes: Seq<u8>)
    ensures
        body_of(fields, bytes) matches BodyView::Text(text) ==> valid_utf8(bytes) && text
            == decode_utf8(bytes) && (lookup(fields, "Content-Type"@) matches Some(content_type)
            ==> is_textual(content_type)),
{
}

} // verus!

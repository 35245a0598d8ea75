//! The body of a `multipart/form-data` request.

use crate::error::{Error, ErrorView};
use crate::text::{
    chars_eq, chars_of, decimal, push_chars, push_decimal, push_str, push_utf8, split, split_of,
    split_once, split_once_chars, string_of, views,
};
use vstd::prelude::*;
use vstd::utf8::encode_utf8;

verus! {

/// `rand::random::<u64>()`: a number that the thread's generator draws. Nothing
/// is known of it.
#[verifier::external_body]
fn random_token() -> (r: u64) {
    rand::random::<u64>()
}

/// The boundary made with the number `token`.
pub open spec fn boundary_of(token: u64) -> Seq<char> {
    "----mini-curl-"@ + decimal(token as nat)
}

/// The last of `segments` that is neither empty nor a single dot.
pub open spec fn last_named(segments: Seq<Seq<char>>) -> Option<Seq<char>>
    decreases segments.len(),
{
    if segments.len() == 0 {
        None
    } else if segments.last().len() == 0 || segments.last() == seq!['.'] {
        last_named(segments.drop_last())
    } else {
        Some(segments.last())
    }
}

/// The file name that a part gives for the file at `path`: the last segment
/// between slashes that is neither empty nor a single dot, and `file` where
/// there is none or where it is two dots.
pub open spec fn file_name(path: Seq<char>) -> Seq<char> {
    match last_named(split(path, '/')) {
        Some(name) => if name == seq!['.', '.'] {
            "file"@
        } else {
            name
        },
        None => "file"@,
    }
}

/// The path of the file that the field `item` attaches: what follows `=@`
/// where the value after the first `=` begins with `@`.
pub open spec fn attachment_of(item: Seq<char>) -> Option<Seq<char>> {
    match split_once(item, seq!['=']) {
        Some((_, value)) => if value.len() > 0 && value[0] == '@' {
            Some(value.skip(1))
        } else {
            None
        },
        None => None,
    }
}

/// How a part begins: the boundary line, and the disposition with the
/// field's name.
pub open spec fn part_open(boundary: Seq<char>, key: Seq<char>) -> Seq<char> {
    "--"@ + boundary + "\r\nContent-Disposition: form-data; name=\""@ + key + "\""@
}

/// The part of a field with a plain value.
pub open spec fn text_part(boundary: Seq<char>, key: Seq<char>, value: Seq<char>) -> Seq<u8> {
    encode_utf8(part_open(boundary, key) + "\r\n\r\n"@ + value + "\r\n"@)
}

/// The part of a field that attaches the file at `path`, which holds `content`.
pub open spec fn file_part(
    boundary: Seq<char>,
    key: Seq<char>,
    path: Seq<char>,
    content: Seq<u8>,
) -> Seq<u8> {
    encode_utf8(
        part_open(boundary, key) + "; filename=\""@ + file_name(path)
            + "\"\r\nContent-Type: application/octet-stream\r\n\r\n"@,
    ) + content + seq![13u8, 10u8]
}

/// The part of the field `item`, or the path of the file that it attaches
/// where `file` does not hold that file's content. A field without `=` has an
/// empty part.
pub open spec fn field_part(item: Seq<char>, file: Option<Seq<u8>>, boundary: Seq<char>) -> Result<
    Seq<u8>,
    Seq<char>,
> {
    match split_once(item, seq!['=']) {
        None => Ok(Seq::empty()),
        Some((key, value)) => match attachment_of(item) {
            Some(path) => match file {
                Some(content) => Ok(file_part(boundary, key, path, content)),
                None => Err(path),
            },
            None => Ok(text_part(boundary, key, value)),
        },
    }
}

/// What each string of `v` holds.
pub open spec fn texts(v: Seq<String>) -> Seq<Seq<char>> {
    Seq::new(v.len(), |i: int| v[i]@)
}

/// The content given for the field at index `i`, if one is given.
pub open spec fn file_at(files: Seq<Option<Vec<u8>>>, i: int) -> Option<Seq<u8>> {
    if 0 <= i < files.len() {
        match files[i] {
            Some(content) => Some(content@),
            None => None,
        }
    } else {
        None
    }
}

/// The parts of the fields `items`, one after the other, or the path of the
/// first attached file whose content `files` does not hold.
pub open spec fn parts(
    items: Seq<Seq<char>>,
    files: Seq<Option<Vec<u8>>>,
    boundary: Seq<char>,
) -> Result<Seq<u8>, Seq<char>>
    decreases items.len(),
{
    if items.len() == 0 {
        Ok(Seq::empty())
    } else {
        match parts(items.drop_last(), files, boundary) {
            Err(path) => Err(path),
            Ok(before) => match field_part(
                items.last(),
                file_at(files, items.len() - 1),
                boundary,
            ) {
                Ok(part) => Ok(before + part),
                Err(path) => Err(path),
            },
        }
    }
}

/// The boundary made with `token` and the body for the fields `items`: their
/// parts and the closing line. `files` holds, at the index of each field that
/// attaches a file, that file's content. Where it holds none for such a
/// field, the result is the path of the first such file.
pub open spec fn encoded(items: Seq<Seq<char>>, files: Seq<Option<Vec<u8>>>, token: u64) -> Result<
    (Seq<char>, Seq<u8>),
    Seq<char>,
> {
    let boundary = boundary_of(token);
    match parts(items, files, boundary) {
        Ok(body) => Ok((boundary, body + encode_utf8("--"@ + boundary + "--\r\n"@))),
        Err(path) => Err(path),
    }
}

/// Whether what a function returned is what `encoded` gives.
pub open spec fn is_encoded(
    r: Result<(String, Vec<u8>), Error>,
    items: Seq<Seq<char>>,
    files: Seq<Option<Vec<u8>>>,
    token: u64,
) -> bool {
    match r {
        Ok((boundary, body)) => encoded(items, files, token) == Ok::<
            (Seq<char>, Seq<u8>),
            Seq<char>,
        >((boundary@, body@)),
        Err(e) => encoded(items, files, token) matches Err(path) && e@ == ErrorView::Io(path),
    }
}

/// The file name that a part gives for the file at `path`: see `file_name`.
pub fn file_name_of(path: &[char]) -> (r: Vec<char>)
    ensures
        r@ == file_name(path@),
{
    let segments = split_of(path, '/');
    let mut dot: Vec<char> = Vec::new();
    dot.push('.');
    let mut dots: Vec<char> = Vec::new();
    dots.push('.');
    dots.push('.');
    assert(dot@ =~= seq!['.']);
    assert(dots@ =~= seq!['.', '.']);
    let ghost all = views(segments@);
    let mut i: usize = segments.len();
    assert(all.take(i as int) =~= all);
    while i > 0
        invariant
            i <= segments.len(),
            all == views(segments@),
            dot@ == seq!['.'],
            dots@ == seq!['.', '.'],
            split(path@, '/') == all,
            last_named(all) == last_named(all.take(i as int)),
        decreases i,
    {
        let segment: &[char] = segments[i - 1].as_slice();
        assert(all.take(i as int).drop_last() =~= all.take(i - 1));
        assert(all.take(i as int).last() == segment@);
        if segment.len() > 0 && !chars_eq(segment, dot.as_slice()) {
            if chars_eq(segment, dots.as_slice()) {
                return chars_of("file");
            }
            return vstd::slice::slice_to_vec(segment);
        }
        i -= 1;
    }
    chars_of("file")
}

/// The path of the file that the field `item` attaches: see `attachment_of`.
pub fn attachment(item: &str) -> (r: Option<String>)
    ensures
        match r {
            Some(path) => attachment_of(item@) == Some(path@),
            None => attachment_of(item@) is None,
        },
{
    let given = chars_of(item);
    let mut sep: Vec<char> = Vec::new();
    sep.push('=');
    assert(sep@ =~= seq!['=']);
    match split_once_chars(given.as_slice(), sep.as_slice()) {
        Some((_, value)) => {
            if value.len() > 0 && value[0] == '@' {
                let path: &[char] = &value[1..value.len()];
                assert(path@ =~= value@.skip(1));
                Some(string_of(path))
            } else {
                None
            }
        },
        None => None,
    }
}

/// Appends the part of the field `item` to `body`: see `field_part`. Where
/// the field attaches a file whose content `file` does not hold, `body` is
/// left as it is and the file's path is returned.
fn push_part(body: &mut Vec<u8>, item: &str, file: Option<&Vec<u8>>, boundary: &[char]) -> (r:
    Result<(), String>)
    ensures
        match r {
            Ok(()) => field_part(
                item@,
                match file {
                    Some(content) => Some(content@),
                    None => None,
                },
                boundary@,
            ) matches Ok(part) && final(body)@ == old(body)@ + part,
            Err(path) => field_part(
                item@,
                match file {
                    Some(content) => Some(content@),
                    None => None,
                },
                boundary@,
            ) == Err::<Seq<u8>, Seq<char>>(path@) && final(body)@ == old(body)@,
        },
{
    let given = chars_of(item);
    let mut sep: Vec<char> = Vec::new();
    sep.push('=');
    assert(sep@ =~= seq!['=']);
    match split_once_chars(given.as_slice(), sep.as_slice()) {
        None => {
            assert(body@ + Seq::<u8>::empty() =~= body@);
            Ok(())
        },
        Some((key, value)) => {
            let mut head: Vec<char> = Vec::new();
            push_str(&mut head, "--");
            push_chars(&mut head, boundary);
            push_str(&mut head, "\r\nContent-Disposition: form-data; name=\"");
            push_chars(&mut head, key);
            push_str(&mut head, "\"");
            assert(head@ =~= part_open(boundary@, key@));
            if value.len() > 0 && value[0] == '@' {
                let path: &[char] = &value[1..value.len()];
                assert(path@ =~= value@.skip(1));
                match file {
                    Some(content) => {
                        let name = file_name_of(path);
                        push_str(&mut head, "; filename=\"");
                        push_chars(&mut head, name.as_slice());
                        push_str(
                            &mut head,
                            "\"\r\nContent-Type: application/octet-stream\r\n\r\n",
                        );
                        push_utf8(body, head.as_slice());
                        body.extend_from_slice(content.as_slice());
                        body.push(13u8);
                        body.push(10u8);
                        assert(body@ =~= old(body)@ + file_part(
                            boundary@,
                            key@,
                            path@,
                            content@,
                        ));
                        Ok(())
                    },
                    None => Err(string_of(path)),
                }
            } else {
                push_str(&mut head, "\r\n\r\n");
                push_chars(&mut head, value);
                push_str(&mut head, "\r\n");
                push_utf8(body, head.as_slice());
                Ok(())
            }
        },
    }
}

/// The boundary made with `token` and the body for the fields `formdata`:
/// see `encoded`. `files` holds, at the index of each field that attaches a
/// file, that file's content, or `None` where the file could not be read.
pub fn encode_formdata(formdata: &[String], files: &[Option<Vec<u8>>], token: u64) -> (r: Result<
    (String, Vec<u8>),
    Error,
>)
    ensures
        is_encoded(r, texts(formdata@), files@, token),
{
    let mut mark: Vec<char> = Vec::new();
    push_str(&mut mark, "----mini-curl-");
    push_decimal(&mut mark, token);
    assert(mark@ =~= boundary_of(token));
    let ghost items = texts(formdata@);
    let mut body: Vec<u8> = Vec::new();
    let mut i: usize = 0;
    assert(items.take(0) =~= Seq::<Seq<char>>::empty());
    while i < formdata.len()
        invariant
            i <= formdata.len(),
            items == texts(formdata@),
            mark@ == boundary_of(token),
            parts(items.take(i as int), files@, mark@) == Ok::<Seq<u8>, Seq<char>>(body@),
        decreases formdata.len() - i,
    {
        let file: Option<&Vec<u8>> = if i < files.len() {
            files[i].as_ref()
        } else {
            None
        };
        proof {
            assert(items.take(i + 1).drop_last() =~= items.take(i as int));
            assert(items.take(i + 1).last() == formdata@[i as int]@);
        }
        match push_part(&mut body, formdata[i].as_str(), file, mark.as_slice()) {
            Ok(()) => {},
            Err(path) => {
                proof {
                    lemma_parts_fail(items, files@, mark@, i + 1);
                }
                return Err(Error::Io(path));
            },
        }
        i += 1;
    }
    assert(items.take(formdata.len() as int) =~= items);
    let mut close: Vec<char> = Vec::new();
    push_str(&mut close, "--");
    push_chars(&mut close, mark.as_slice());
    push_str(&mut close, "--\r\n");
    push_utf8(&mut body, close.as_slice());
    Ok((string_of(mark.as_slice()), body))
}

/// A file that is missing among the first `n` fields is missing among them all.
pub proof fn lemma_parts_fail(
    items: Seq<Seq<char>>,
    files: Seq<Option<Vec<u8>>>,
    boundary: Seq<char>,
    n: int,
)
    requires
        0 <= n <= items.len(),
        parts(items.take(n), files, boundary) is Err,
    ensures
        parts(items, files, boundary) == parts(items.take(n), files, boundary),
    decreases items.len() - n,
{
    if n < items.len() {
        assert(items.take(n + 1).drop_last() =~= items.take(n));
        lemma_parts_fail(items, files, boundary, n + 1);
    } else {
        assert(items.take(n) =~= items);
    }
}

/// A boundary made with a number drawn at random, and the body for the fields
/// `formdata` with that boundary: see `encode_formdata`.
pub fn build_formdata(formdata: &[String], files: &[Option<Vec<u8>>]) -> (r: Result<
    (String, Vec<u8>),
    Error,
>)
    ensures
        exists|token: u64| is_encoded(r, texts(formdata@), files@, token),
{
    let token = random_token();
    encode_formdata(formdata, files, token)
}

} // verus!

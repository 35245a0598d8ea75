use mini_curl::error::Error;
use mini_curl::formdata::{attachment, build_formdata, encode_formdata, file_name_of};

fn strings(items: &[&str]) -> Vec<String> {
    items.iter().map(|s| s.to_string()).collect()
}

fn name_of(path: &str) -> String {
    let chars: Vec<char> = path.chars().collect();
    file_name_of(&chars).iter().collect()
}

#[test]
fn a_text_field_and_a_file_field() {
    let fields = strings(&["a=1", "b=@file.txt"]);
    let files = vec![None, Some(b"hello".to_vec())];
    let (boundary, body) = encode_formdata(&fields, &files, 42).unwrap();
    assert_eq!(boundary, "----mini-curl-42");
    let expected = "------mini-curl-42\r\nContent-Disposition: form-data; name=\"a\"\r\n\r\n1\r\n\
                    ------mini-curl-42\r\nContent-Disposition: form-data; name=\"b\"; filename=\"file.txt\"\r\nContent-Type: application/octet-stream\r\n\r\nhello\r\n\
                    ------mini-curl-42--\r\n";
    assert_eq!(String::from_utf8(body).unwrap(), expected);
}

#[test]
fn parts_are_separated_by_the_boundary_and_the_body_ends_with_the_closing_line() {
    let fields = strings(&["a=1", "b=@file.txt"]);
    let files = vec![None, Some(b"hello".to_vec())];
    let (boundary, body) = build_formdata(&fields, &files).unwrap();
    let text = String::from_utf8(body).unwrap();
    let separator = format!("--{}\r\n", boundary);
    let pieces: Vec<&str> = text.split(separator.as_str()).collect();
    assert_eq!(pieces.len(), 3);
    assert_eq!(pieces[0], "");
    assert_eq!(pieces[1], "Content-Disposition: form-data; name=\"a\"\r\n\r\n1\r\n");
    assert!(pieces[2].contains("\r\n\r\nhello\r\n"));
    assert!(pieces[2].contains("name=\"b\"; filename=\"file.txt\""));
    assert!(text.ends_with(format!("--{}--\r\n", boundary).as_str()));
}

#[test]
fn boundary_is_the_prefix_and_a_decimal_number() {
    let (boundary, body) = build_formdata(&[], &[]).unwrap();
    let digits = boundary.strip_prefix("----mini-curl-").unwrap();
    assert!(!digits.is_empty());
    assert_eq!(format!("{}", digits.parse::<u64>().unwrap()), digits);
    assert_eq!(body, format!("--{}--\r\n", boundary).into_bytes());
}

#[test]
fn boundaries_differ_from_call_to_call() {
    let mut seen: Vec<String> = Vec::new();
    for _ in 0..8 {
        seen.push(build_formdata(&[], &[]).unwrap().0);
    }
    seen.sort();
    seen.dedup();
    assert!(seen.len() > 1);
}

#[test]
fn boundary_of_the_largest_and_the_smallest_number() {
    assert_eq!(encode_formdata(&[], &[], 0).unwrap().0, "----mini-curl-0");
    assert_eq!(
        encode_formdata(&[], &[], u64::MAX).unwrap().0,
        "----mini-curl-18446744073709551615"
    );
}

#[test]
fn no_fields_give_the_closing_line_only() {
    let (_, body) = encode_formdata(&[], &[], 7).unwrap();
    assert_eq!(body, b"------mini-curl-7--\r\n".to_vec());
}

#[test]
fn fields_without_equals_sign_are_skipped() {
    let fields = strings(&["novalue", "k=v", "", "@file"]);
    let (_, body) = encode_formdata(&fields, &[], 1).unwrap();
    assert_eq!(
        String::from_utf8(body).unwrap(),
        "------mini-curl-1\r\nContent-Disposition: form-data; name=\"k\"\r\n\r\nv\r\n------mini-curl-1--\r\n"
    );
}

#[test]
fn a_field_is_split_at_the_first_equals_sign() {
    let fields = strings(&["k=a=b", "=x", "e="]);
    let (_, body) = encode_formdata(&fields, &[], 1).unwrap();
    assert_eq!(
        String::from_utf8(body).unwrap(),
        "------mini-curl-1\r\nContent-Disposition: form-data; name=\"k\"\r\n\r\na=b\r\n\
         ------mini-curl-1\r\nContent-Disposition: form-data; name=\"\"\r\n\r\nx\r\n\
         ------mini-curl-1\r\nContent-Disposition: form-data; name=\"e\"\r\n\r\n\r\n\
         ------mini-curl-1--\r\n"
    );
}

#[test]
fn text_goes_out_in_utf8_and_file_bytes_as_they_are() {
    let fields = strings(&["né=ü", "f=@d/x.bin"]);
    let files = vec![None, Some(vec![0u8, 255, 13, 10])];
    let (_, body) = encode_formdata(&fields, &files, 5).unwrap();
    let mut expected: Vec<u8> = Vec::new();
    expected.extend_from_slice(
        "------mini-curl-5\r\nContent-Disposition: form-data; name=\"né\"\r\n\r\nü\r\n".as_bytes(),
    );
    expected.extend_from_slice(
        b"------mini-curl-5\r\nContent-Disposition: form-data; name=\"f\"; filename=\"x.bin\"\r\nContent-Type: application/octet-stream\r\n\r\n",
    );
    expected.extend_from_slice(&[0u8, 255, 13, 10]);
    expected.extend_from_slice(b"\r\n------mini-curl-5--\r\n");
    assert_eq!(body, expected);
}

#[test]
fn a_file_that_could_not_be_read_is_an_error_with_its_path() {
    let fields = strings(&["a=1", "b=@missing.txt", "c=@other.txt"]);
    assert_eq!(
        encode_formdata(&fields, &[None, None, None], 1),
        Err(Error::Io("missing.txt".to_string()))
    );
    assert_eq!(encode_formdata(&fields, &[], 1), Err(Error::Io("missing.txt".to_string())));
    assert_eq!(
        encode_formdata(&fields, &[None, Some(vec![1])], 1),
        Err(Error::Io("other.txt".to_string()))
    );
    assert_eq!(build_formdata(&fields, &[]), Err(Error::Io("missing.txt".to_string())));
}

#[test]
fn content_given_for_a_text_field_is_not_read() {
    let fields = strings(&["a=1"]);
    let (_, body) = encode_formdata(&fields, &[Some(b"unused".to_vec())], 1).unwrap();
    assert_eq!(
        String::from_utf8(body).unwrap(),
        "------mini-curl-1\r\nContent-Disposition: form-data; name=\"a\"\r\n\r\n1\r\n------mini-curl-1--\r\n"
    );
}

#[test]
fn attachment_is_what_follows_the_at_sign() {
    assert_eq!(attachment("b=@file.txt"), Some("file.txt".to_string()));
    assert_eq!(attachment("b=@"), Some(String::new()));
    assert_eq!(attachment("b=@@x"), Some("@x".to_string()));
    assert_eq!(attachment("b=x@y"), None);
    assert_eq!(attachment("b=file.txt"), None);
    assert_eq!(attachment("@file.txt"), None);
    assert_eq!(attachment("a=b=@c"), None);
    assert_eq!(attachment(""), None);
}

#[test]
fn file_name_is_the_last_segment() {
    assert_eq!(name_of("file.txt"), "file.txt");
    assert_eq!(name_of("dir/file.txt"), "file.txt");
    assert_eq!(name_of("/abs/dir/file.txt"), "file.txt");
    assert_eq!(name_of("dir/sub/"), "sub");
    assert_eq!(name_of("dir/sub///"), "sub");
    assert_eq!(name_of("dir/."), "dir");
    assert_eq!(name_of("./x"), "x");
    assert_eq!(name_of("a/./b/./"), "b");
    assert_eq!(name_of(".hidden"), ".hidden");
    assert_eq!(name_of("a/..."), "...");
}

#[test]
fn file_name_is_file_where_the_path_has_none() {
    assert_eq!(name_of(""), "file");
    assert_eq!(name_of("/"), "file");
    assert_eq!(name_of("."), "file");
    assert_eq!(name_of("./"), "file");
    assert_eq!(name_of(".."), "file");
    assert_eq!(name_of("a/.."), "file");
    assert_eq!(name_of("a/../"), "file");
    assert_eq!(name_of("a/.././"), "file");
}

#[test]
fn file_name_is_that_of_std_paths() {
    for path in [
        "", "/", ".", "..", "a", "a/", "a/b", "/a/b/", "a//b", "a/./b", "a/b/.", "a/b/..", "./a",
        "../a", "a/../b", ".a", "a.", "a/.b/", "//", "/.", "/..", "a b/c d", "é/ü.txt",
    ] {
        let expected = std::path::Path::new(path)
            .file_name()
            .and_then(|n| n.to_str())
            .unwrap_or("file");
        assert_eq!(name_of(path), expected, "{:?}", path);
    }
}

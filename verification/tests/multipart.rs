use httpr::multipart::{escape_filename, generate_boundary, process_file_item, DataField, FileField, MultipartField, MultipartStream};

fn fields() -> Vec<MultipartField> {
    vec![
        MultipartField::Data(DataField::new("a", b"1")),
        MultipartField::File(FileField::new("f", Some("x.txt"), b"hi", Some("text/plain"), None)),
    ]
}

#[test]
fn body_lists_parts_between_boundaries() {
    let s = MultipartStream::new(fields(), Some("b".to_string()));
    let expected = b"--b\r\nContent-Disposition: form-data; name=\"a\"\r\n\r\n1\r\n--b\r\nContent-Disposition: form-data; name=\"f\"; filename=\"x.txt\"\r\nContent-Type: text/plain\r\n\r\nhi\r\n--b--\r\n".to_vec();
    assert_eq!(s.get_content(), expected);
    assert_eq!(s.content_type(), "multipart/form-data; boundary=b");
}

#[test]
fn streaming_gives_the_whole_body() {
    let mut s = MultipartStream::new(fields(), Some("b".to_string()));
    let whole = s.get_content();
    let mut got = Vec::new();
    while let Some(c) = s.next_chunk() {
        got.extend(c);
    }
    assert_eq!(got, whole);
    assert!(s.next_chunk().is_none());
}

#[test]
fn generated_boundary_shape() {
    let b = generate_boundary();
    assert!(b.starts_with("----httpr-boundary-"));
    assert_eq!(b.len(), "----httpr-boundary-".len() + 16);
    assert!(b["----httpr-boundary-".len()..].chars().all(|c| c.is_ascii_lowercase() || c.is_ascii_digit()));
    let s = MultipartStream::new(Vec::new(), None);
    assert!(s.content_type().starts_with("multipart/form-data; boundary=----httpr-boundary-"));
}

#[test]
fn file_names_are_escaped() {
    assert_eq!(escape_filename("a\"b\\c"), "a%22b\\\\c");
    assert_eq!(escape_filename("plain.txt"), "plain.txt");
    assert_eq!(escape_filename("tab\tx"), "tab%09x");
}

#[test]
fn file_item_content_type_falls_back() {
    let f = process_file_item("f", Some("x.bin"), b"z", None, None, None);
    assert_eq!(f.content_type, Some("application/octet-stream".to_string()));
    let g = process_file_item("f", Some("x.png"), b"z", None, Some("image/png"), None);
    assert_eq!(g.content_type, Some("image/png".to_string()));
    let h = process_file_item("f", None, b"z", None, Some("image/png"), None);
    assert_eq!(h.content_type, None);
    let e = process_file_item("f", Some("q\".txt"), b"z", Some("text/x"), None, None);
    assert_eq!(e.filename, Some("q%22.txt".to_string()));
    assert_eq!(e.content_type, Some("text/x".to_string()));
}

#[test]
fn extra_content_type_header_wins() {
    let f = FileField::new(
        "f",
        None,
        b"d",
        Some("text/plain"),
        Some(vec![("Content-type".to_string(), "app/x".to_string())]),
    );
    assert_eq!(f.render_headers(), b"Content-Disposition: form-data; name=\"f\"\r\nContent-type: app/x\r\n\r\n".to_vec());
}

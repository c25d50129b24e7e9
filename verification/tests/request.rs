use httpr::body::{
    build_request_body, build_stream_obj, client_body_source, encode_request, encode_source, ByteStream, ClientBody,
    ClientContent, ContentShape, EncodeContent, EncodeInput, EncodedStream, StreamPlan,
};
use httpr::error::HttpError;
use httpr::headers::Headers;
use httpr::multipart::{DataField, MultipartField};
use httpr::request::{
    body_source, uses_form_data, BodySource, ContentArg, DataShape, Request, RequestBody, RequestStream,
};
use httpr::urlparse::urlparse_impl;

fn url(s: &str) -> httpr::urlparse::ParsedUrl {
    urlparse_impl(s, None).unwrap()
}

#[test]
fn body_sources_in_order() {
    assert!(matches!(body_source(true, Some(DataShape::Other), true, Some(false)), BodySource::Content));
    assert!(matches!(body_source(false, Some(DataShape::Other), true, None), BodySource::DataAsContent));
    assert!(matches!(body_source(false, Some(DataShape::Mapping(false)), true, None), BodySource::Json));
    assert!(matches!(body_source(false, Some(DataShape::Mapping(false)), false, Some(true)), BodySource::Multipart));
    assert!(matches!(body_source(false, Some(DataShape::Mapping(true)), false, Some(true)), BodySource::Form));
    assert!(matches!(body_source(false, None, false, Some(true)), BodySource::Nothing));
    assert!(matches!(body_source(false, None, false, None), BodySource::Nothing));
    assert!(uses_form_data(true, Some(DataShape::Other)));
    assert!(!uses_form_data(false, Some(DataShape::Other)));
}

#[test]
fn bytes_body_gets_length_and_host() {
    let r = Request::new(
        "post",
        url("http://example.com:8080/x"),
        Headers::new_empty(),
        RequestBody::Content(ContentArg::Bytes(b"abc".to_vec())),
        false,
        false,
    )
    .unwrap();
    assert_eq!(r.method, "POST");
    assert_eq!(r.content_body, Some(b"abc".to_vec()));
    assert_eq!(r.headers.get("content-length", None), Some("3".to_string()));
    assert_eq!(r.headers.get("host", None), Some("example.com:8080".to_string()));
    assert!(r.stream.is_none());
    assert_eq!(r.content().unwrap(), b"abc".to_vec());
    assert_eq!(r.repr(), "<Request('POST', 'http://example.com:8080/x')>");
}

#[test]
fn json_body_sets_its_type() {
    let r = Request::new(
        "PUT",
        url("https://example.com/"),
        Headers::new_empty(),
        RequestBody::Json("{\"a\":1}".to_string()),
        false,
        false,
    )
    .unwrap();
    assert_eq!(r.headers.get("content-type", None), Some("application/json".to_string()));
    assert_eq!(r.headers.get("content-length", None), Some("7".to_string()));
    assert_eq!(r.headers.get("host", None), Some("example.com".to_string()));
}

#[test]
fn form_body_sets_the_form_type() {
    let r = Request::new(
        "POST",
        url("https://example.com/"),
        Headers::new_empty(),
        RequestBody::Form(Some("a=1".to_string())),
        true,
        false,
    )
    .unwrap();
    assert_eq!(r.headers.get("content-type", None), Some("application/x-www-form-urlencoded".to_string()));
    assert_eq!(r.content_body, Some(b"a=1".to_vec()));
}

#[test]
fn bodyless_post_says_zero_length() {
    let r = Request::new("POST", url("https://example.com/"), Headers::new_empty(), RequestBody::Nothing, false, false)
        .unwrap();
    assert_eq!(r.headers.get("content-length", None), Some("0".to_string()));
    let g = Request::new("GET", url("https://example.com/"), Headers::new_empty(), RequestBody::Nothing, false, false)
        .unwrap();
    assert_eq!(g.headers.get("content-length", None), None);
    assert_eq!(g.content().unwrap(), Vec::<u8>::new());
}

#[test]
fn iterable_content_streams_chunked() {
    let mut r = Request::new(
        "POST",
        url("https://example.com/"),
        Headers::new_empty(),
        RequestBody::Content(ContentArg::Iterable),
        false,
        false,
    )
    .unwrap();
    assert_eq!(r.headers.get("transfer-encoding", None), Some("chunked".to_string()));
    assert_eq!(r.headers.get("content-length", None), None);
    assert!(matches!(r.stream, Some(RequestStream::Iterable)));
    assert_eq!(
        r.content().unwrap_err(),
        HttpError::RequestNotRead(
            "Attempted to access streaming request content without having called `.read()`.".to_string()
        )
    );
    let got = r.read(&vec![b"ab".to_vec(), b"cd".to_vec()]);
    assert_eq!(got, b"abcd".to_vec());
    assert_eq!(r.content().unwrap(), b"abcd".to_vec());
}

#[test]
fn readable_content_gets_its_length() {
    let mut r = Request::new(
        "POST",
        url("https://example.com/"),
        Headers::new_empty(),
        RequestBody::Content(ContentArg::Readable(b"12345".to_vec())),
        false,
        false,
    )
    .unwrap();
    assert_eq!(r.headers.get("content-length", None), Some("5".to_string()));
    assert_eq!(r.read(&Vec::new()), b"12345".to_vec());
}

#[test]
fn mapping_content_is_a_type_error() {
    let e = Request::new(
        "POST",
        url("https://example.com/"),
        Headers::new_empty(),
        RequestBody::Content(ContentArg::Mapping("dict".to_string())),
        false,
        false,
    )
    .err()
    .unwrap();
    assert_eq!(e, HttpError::TypeError("Unexpected type for 'content': dict".to_string()));
}

#[test]
fn multipart_body_uses_the_given_boundary() {
    let h = Headers::from_raw_pairs(vec![(
        "Content-Type".to_string(),
        "multipart/form-data; boundary=\"XX\"".to_string(),
    )]);
    let fields = vec![MultipartField::Data(DataField::new("a", b"1"))];
    let r = Request::new("POST", url("https://example.com/"), h, RequestBody::Multipart(fields), false, false).unwrap();
    let expected = b"--XX\r\nContent-Disposition: form-data; name=\"a\"\r\n\r\n1\r\n--XX--\r\n".to_vec();
    assert_eq!(r.content_body, Some(expected));
    assert_eq!(r.headers.get("content-type", None), Some("multipart/form-data; boundary=\"XX\"".to_string()));
}

#[test]
fn params_replace_the_url_query() {
    let r = Request::create(
        "GET",
        url("https://example.com/p?old=1"),
        Some("a=1&b=2"),
        Headers::new_empty(),
        RequestBody::Nothing,
        false,
        false,
    )
    .unwrap();
    assert_eq!(r.url.query, Some("a=1&b=2".to_string()));
    let a = Request::new("GET", url("https://e.com/x"), Headers::new_empty(), RequestBody::Nothing, false, false).unwrap();
    let b = Request::new("get", url("https://e.com/x"), Headers::new_empty(), RequestBody::Nothing, false, true).unwrap();
    assert!(a.equals(&b));
}

#[test]
fn client_body_building() {
    assert!(matches!(client_body_source(false, true, true, true), BodySource::Json));
    let mut h = Headers::new_empty();
    let b = build_request_body(ClientBody::Form("a=1".to_string()), &mut h).unwrap();
    assert_eq!(b, Some(b"a=1".to_vec()));
    assert_eq!(h.get("content-type", None), Some("application/x-www-form-urlencoded".to_string()));
    let mut g = Headers::new_empty();
    assert_eq!(
        build_request_body(ClientBody::Content(ClientContent::AsyncIterable), &mut g),
        Err(HttpError::RuntimeError("Attempted to send an async request body with a sync Client instance.".to_string()))
    );
    assert_eq!(build_request_body(ClientBody::Content(ClientContent::Other), &mut g), Ok(None));
    let mut m = Headers::from_raw_pairs(vec![("Content-Type".to_string(), "multipart/form-data; boundary= \"q\"".to_string())]);
    let body = build_request_body(ClientBody::Files(vec![MultipartField::Data(DataField::new("k", b"v"))]), &mut m)
        .unwrap()
        .unwrap();
    assert!(body.starts_with(b"--q\r\n"));
}

#[test]
fn stream_plans() {
    assert_eq!(build_stream_obj(Some(ContentShape::Iterable), false), Some(StreamPlan::WrapIterator));
    assert_eq!(build_stream_obj(Some(ContentShape::AsyncIterable), false), Some(StreamPlan::PassThrough));
    assert_eq!(build_stream_obj(Some(ContentShape::Iterable), true), None);
    assert_eq!(build_stream_obj(Some(ContentShape::Plain), false), None);
}

#[test]
fn encoder_headers_and_streams() {
    assert!(matches!(encode_source(true, true, true, true), BodySource::Json));
    assert!(matches!(encode_source(false, false, true, true), BodySource::Multipart));
    assert!(matches!(encode_source(false, false, true, false), BodySource::Form));
    let (h, s) = encode_request(EncodeInput::Content(EncodeContent::Text("héllo".to_string())));
    assert_eq!(
        h,
        vec![
            ("content-length".to_string(), "6".to_string()),
            ("content-type".to_string(), "text/plain; charset=utf-8".to_string()),
        ]
    );
    match s {
        EncodedStream::Bytes(b) => assert_eq!(b.read(), "héllo".as_bytes().to_vec()),
        _ => panic!("expected bytes"),
    }
    let (h2, s2) = encode_request(EncodeInput::Content(EncodeContent::Stream));
    assert_eq!(h2, vec![("transfer-encoding".to_string(), "chunked".to_string())]);
    assert!(matches!(s2, EncodedStream::Content));
    let (h3, _) = encode_request(EncodeInput::Nothing);
    assert!(h3.is_empty());
}

#[test]
fn byte_stream_yields_once() {
    let s = ByteStream::new(Some(b"xy"));
    let mut it = s.iter();
    assert_eq!(it.next(), Some(b"xy".to_vec()));
    assert_eq!(it.next(), None);
    let e = ByteStream::new(None);
    assert_eq!(e.iter().next(), None);
}

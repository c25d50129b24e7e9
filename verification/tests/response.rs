use httpr::error::HttpError;
use httpr::headers::Headers;
use httpr::response::{bom_encoding_of, charset_of_content_type, redirect_plan, Response, ResponseBody};

const GZIP_HELLO: [u8; 31] = [
    31, 139, 8, 0, 0, 0, 0, 0, 2, 3, 203, 72, 205, 201, 201, 87, 40, 207, 47, 202, 73, 1, 0, 133, 17, 74, 13, 11, 0,
    0, 0,
];
const ZLIB_HELLO: [u8; 19] = [120, 156, 203, 72, 205, 201, 201, 87, 40, 207, 47, 202, 73, 1, 0, 26, 11, 4, 93];

fn with_encoding(enc: &str) -> Headers {
    Headers::from_raw_pairs(vec![("Content-Encoding".to_string(), enc.to_string())])
}

#[test]
fn gzip_body_is_decompressed() {
    let out = Response::decompress_content(&GZIP_HELLO, &with_encoding("gzip")).unwrap();
    assert_eq!(out, b"hello world".to_vec());
}

#[test]
fn deflate_body_with_zlib_header_is_decompressed() {
    let out = Response::decompress_content(&ZLIB_HELLO, &with_encoding("deflate")).unwrap();
    assert_eq!(out, b"hello world".to_vec());
}

#[test]
fn plain_body_is_kept() {
    let out = Response::decompress_content(b"raw", &Headers::new_empty()).unwrap();
    assert_eq!(out, b"raw".to_vec());
    let ident = Response::decompress_content(b"raw", &with_encoding("identity")).unwrap();
    assert_eq!(ident, b"raw".to_vec());
    let other = Response::decompress_content(b"raw", &with_encoding("Identity, x-custom")).unwrap();
    assert_eq!(other, b"raw".to_vec());
}

#[test]
fn broken_gzip_is_a_decoding_error() {
    match Response::decompress_content(b"not gzip", &with_encoding("gzip")) {
        Err(HttpError::DecodingError(m)) => assert!(m.starts_with("Gzip decompression failed: ")),
        other => panic!("unexpected {:?}", other),
    }
}

fn response(code: u16, headers: Headers) -> Response {
    Response::create(code, headers, Some(Vec::new()), Some("GET".to_string()), Some("https://example.org/".to_string()))
}

#[test]
fn success_does_not_raise() {
    assert_eq!(response(200, Headers::new_empty()).raise_for_status(), Ok(()));
}

#[test]
fn client_error_message() {
    let r = response(404, Headers::new_empty());
    assert_eq!(
        r.raise_for_status(),
        Err(HttpError::HttpStatusError(
            "Client error '404 Not Found' for url 'https://example.org/'\nFor more information check: https://developer.mozilla.org/en-US/docs/Web/HTTP/Status/404".to_string()
        ))
    );
    assert!(r.is_client_error());
    assert!(r.is_error());
    assert_eq!(r.reason_phrase(), "Not Found");
}

#[test]
fn redirect_message_names_the_location() {
    let h = Headers::from_raw_pairs(vec![("Location".to_string(), "/next".to_string())]);
    let r = response(301, h);
    assert_eq!(
        r.raise_for_status(),
        Err(HttpError::HttpStatusError(
            "Redirect response '301 Moved Permanently' for url 'https://example.org/'\nRedirect location: '/next'\nFor more information check: https://developer.mozilla.org/en-US/docs/Web/HTTP/Status/301".to_string()
        ))
    );
    assert!(r.has_redirect_check());
}

#[test]
fn unknown_request_cannot_raise() {
    let r = Response::create(500, Headers::new_empty(), None, None, None);
    match r.raise_for_status() {
        Err(HttpError::RuntimeError(m)) => {
            assert_eq!(m, "Cannot call `raise_for_status` as the request instance has not been set on this response.")
        },
        _ => panic!("expected a runtime error"),
    }
}

#[test]
fn redirect_plans() {
    let mut h = Headers::new_empty();
    h.set_header("Content-Length", "5");
    h.set_header("Content-Type", "text/plain");
    h.set_header("X-Keep", "1");
    let p = redirect_plan(303, "POST", &h);
    assert_eq!(p.method, "GET");
    assert!(!p.keep_body);
    assert!(p.strip_body_headers);
    assert_eq!(p.headers.get("content-length", None), None);
    assert_eq!(p.headers.get("content-type", None), None);
    assert_eq!(p.headers.get("x-keep", None), Some("1".to_string()));
    let q = redirect_plan(307, "POST", &h);
    assert_eq!(q.method, "POST");
    assert!(q.keep_body);
    assert_eq!(q.headers.get("content-length", None), Some("5".to_string()));
    let r = redirect_plan(302, "PUT", &h);
    assert_eq!(r.method, "PUT");
    assert_eq!(r.headers.len(), 3);
    let g = redirect_plan(301, "GET", &h);
    assert!(!g.strip_body_headers);
    assert_eq!(g.headers.get("content-type", None), Some("text/plain".to_string()));
}

#[test]
fn charsets_and_boms() {
    assert_eq!(charset_of_content_type("text/html; charset=UTF-8"), Some("utf-8".to_string()));
    assert_eq!(charset_of_content_type("text/html"), None);
    assert_eq!(bom_encoding_of(&[0xEF, 0xBB, 0xBF, b'a']), Some("utf-8-sig"));
    assert_eq!(bom_encoding_of(b"abc"), None);
}

#[test]
fn body_pieces_by_chunk_size() {
    assert_eq!(Response::iter_bytes(b"abcde", Some(2)), vec![b"ab".to_vec(), b"cd".to_vec(), b"e".to_vec()]);
    assert_eq!(Response::iter_bytes(b"abcde", None), vec![b"abcde".to_vec()]);
    assert!(Response::iter_bytes(b"", Some(3)).is_empty());
}

#[test]
fn response_text_form_and_equality() {
    let a = response(200, Headers::new_empty());
    assert_eq!(a.repr(), "<Response [200 OK]>");
    let odd = Response::create(299, Headers::new_empty(), None, None, None);
    assert_eq!(odd.repr(), "<Response [299]>");
    let b = response(200, Headers::from_raw_pairs(vec![("X".to_string(), "y".to_string())]));
    assert!(a.equals(&b));
    assert!(!a.equals(&odd));
}

#[test]
fn a_new_response_is_read_closed_and_without_history() {
    let r = match Response::new(200, Headers::new_empty(), ResponseBody::Bytes(b"Hello".to_vec()), false, None, None, None) {
        Ok(r) => r,
        Err(_) => panic!("expected a response"),
    };
    assert_eq!(r.content, Some(b"Hello".to_vec()));
    assert_eq!(r.headers.get_multi_items(), vec![("content-length".to_string(), "5".to_string())]);
    assert!(r.is_closed && r.is_stream_consumed && !r.was_streaming);
    assert_eq!(r.num_bytes_downloaded, 5);
    assert!(r.history.is_empty());
    let prev = response(302, Headers::new_empty());
    let mut next = match Response::new(200, Headers::new_empty(), ResponseBody::Absent, false, None, None, Some(vec![prev])) {
        Ok(r) => r,
        Err(_) => panic!("expected a response"),
    };
    assert_eq!(next.history.len(), 1);
    assert_eq!(next.history[0].status_code, 302);
    next.push_history(response(307, Headers::new_empty()));
    assert_eq!(next.history.len(), 2);
}

#[test]
fn a_failed_status_check_carries_request_and_response() {
    let r = Response::create(404, Headers::new_empty(), Some(Vec::new()), Some("GET".to_string()), Some("https://example.com/".to_string()));
    match r.into_checked() {
        Err(e) => {
            match &e.error {
                HttpError::HttpStatusError(m) => assert_eq!(
                    m,
                    "Client error '404 Not Found' for url 'https://example.com/'\nFor more information check: https://developer.mozilla.org/en-US/docs/Web/HTTP/Status/404"
                ),
                _ => panic!("expected a status error"),
            }
            assert_eq!(e.request_url, Some("https://example.com/".to_string()));
            assert_eq!(e.request_method, Some("GET".to_string()));
            assert_eq!(e.response.status_code, 404);
        },
        Ok(_) => panic!("expected an error"),
    }
    let ok = Response::create(200, Headers::new_empty(), None, None, Some("https://example.com/".to_string()));
    match ok.into_checked() {
        Ok(r) => assert_eq!(r.status_code, 200),
        Err(_) => panic!("expected success"),
    }
    let orphan = Response::create(500, Headers::new_empty(), None, None, None);
    match orphan.into_checked() {
        Err(e) => assert!(matches!(e.error, HttpError::RuntimeError(_))),
        Ok(_) => panic!("expected an error"),
    }
}

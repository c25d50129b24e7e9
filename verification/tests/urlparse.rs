use httpr::error::HttpError;
use httpr::request::with_params;
use httpr::urlparse::{default_port_of, urlparse_impl, ParsedUrl};

#[test]
fn test_port_extraction_8000() {
    let parsed = urlparse_impl("http://127.0.0.1:8000/", None).unwrap();
    println!("Parsed: {:?}", parsed);
    assert_eq!(parsed.port, Some(8000));
    assert_eq!(parsed.host, "127.0.0.1");
}

#[test]
fn parses_every_component() {
    let u = urlparse_impl("HTTPS://user:pw@Example.COM:8443/a/b?x=1&y=2#frag", None).unwrap();
    assert_eq!(u.scheme, "https");
    assert_eq!(u.userinfo, "user:pw");
    assert_eq!(u.host, "example.com");
    assert_eq!(u.port, Some(8443));
    assert_eq!(u.path, "/a/b");
    assert_eq!(u.query, Some("x=1&y=2".to_string()));
    assert_eq!(u.fragment, Some("frag".to_string()));
}

#[test]
fn url_without_port_has_none() {
    let u = urlparse_impl("http://example.com/", None).unwrap();
    assert_eq!(u.port, None);
    assert_eq!(u.query, None);
    assert_eq!(u.fragment, None);
}

#[test]
fn invalid_port_is_refused() {
    let e = urlparse_impl("http://example.com:abc/", None).unwrap_err();
    assert_eq!(e, HttpError::InvalidUrl("Invalid port: 'abc'".to_string()));
}

#[test]
fn default_ports_of_schemes() {
    assert_eq!(default_port_of("http"), Some(80));
    assert_eq!(default_port_of("https"), Some(443));
    assert_eq!(default_port_of("ftp"), None);
}

#[test]
fn host_header_drops_default_port() {
    let a = urlparse_impl("http://example.com:80/", None).unwrap();
    assert_eq!(a.build_host_header(), "example.com");
    let b = urlparse_impl("http://example.com:8080/", None).unwrap();
    assert_eq!(b.build_host_header(), "example.com:8080");
    let c = urlparse_impl("https://example.com:443/x", None).unwrap();
    assert_eq!(c.build_host_header(), "example.com");
}

#[test]
fn url_text_round_trip() {
    let u = urlparse_impl("https://example.com:8443/a?b=c#d", None).unwrap();
    assert_eq!(u.to_url_string(), "https://example.com:8443/a?b=c#d");
    assert_eq!(u.url_string_with_path("/z"), "https://example.com:8443/z?b=c#d");
}

#[test]
fn params_replace_the_query() {
    let u: ParsedUrl = urlparse_impl("http://example.com:81/p?old=1#f", None).unwrap();
    let v = with_params(&u, "a=1").unwrap();
    assert_eq!(v.to_url_string(), "http://example.com:81/p?a=1");
    let w = with_params(&u, "").unwrap();
    assert_eq!(w.to_url_string(), "http://example.com:81/p");
}

use httpr::cookies::{contains, extract_cookies, get, get_item, parse_set_cookie, repr, set_cookie_headers, to_clear, to_delete, Cookie};
use httpr::direct::{async_can_fast_path, location_of, AsyncDirectState, DirectState, DirectStep};
use httpr::error::HttpError;
use httpr::headers::Headers;
use httpr::paging::{next_from_header, parse_link_next, start_pagination, PageIterator};
use httpr::routing::ProxyEnv;
use httpr::session::{build_async_body, finish_async_headers, finish_headers, AsyncBody, AsyncClient, AsyncContent, Client, Route};
use httpr::urlparse::urlparse_impl;

fn client() -> Client<u8> {
    Client::new(
        Headers::new_empty(),
        vec![("k".to_string(), "v".to_string())],
        "https://api.example.com/v1/",
        None,
        false,
        vec![("ftp://".to_string(), 1u8)],
        true,
        "0.1",
    )
    .unwrap()
}

#[test]
fn client_settings_are_completed() {
    let c = client();
    assert_eq!(c.max_redirects, 20);
    assert!(!c.is_closed);
    assert_eq!(c.default_headers.get("user-agent", None), Some("python-httpxr/0.1".to_string()));
    assert_eq!(c.cached_base_url_str, Some("https://api.example.com/v1".to_string()));
    assert_eq!(c.cached_raw_headers, c.default_headers.get_raw_items_owned());
    assert_eq!(c.direct_url("/users"), "https://api.example.com/v1/users");
    assert_eq!(c.repr(), "<Client>");
    let mut d = client();
    d.close();
    assert_eq!(d.repr(), "<Client [closed]>");
}

#[test]
fn client_refuses_bare_mount_keys() {
    let r = Client::new(Headers::new_empty(), Vec::new(), "", Some(3), true, vec![("all".to_string(), 1u8)], true, "x");
    match r {
        Err(HttpError::ValueError(m)) => assert!(m.ends_with("not 'all'")),
        _ => panic!("expected a value error"),
    }
}

#[test]
fn target_urls_resolve_and_carry_params() {
    let c = client();
    let u = c.resolve_target("users", &vec![("p".to_string(), "1".to_string())]).unwrap();
    assert_eq!(u.to_url_string(), "https://api.example.com/v1/users?k=v&p=1");
    let ftp = c.resolve_target("ftp://files.example.com/x", &Vec::new()).unwrap();
    assert_eq!(ftp.scheme, "ftp");
    let mut closed = client();
    closed.close();
    assert_eq!(
        closed.resolve_target("users", &Vec::new()).unwrap_err(),
        HttpError::RuntimeError("Cannot send a request, as the client has been closed.".to_string())
    );
}

#[test]
fn request_headers_start_from_the_defaults() {
    let c = client();
    let given = Headers::from_raw_pairs(vec![("Accept".to_string(), "text/html".to_string())]);
    let h = c.request_headers(Some(&given));
    assert_eq!(h.get("accept", None), Some("text/html".to_string()));
    assert_eq!(h.get("connection", None), Some("keep-alive".to_string()));
}

#[test]
fn finished_headers_carry_cookies_and_credentials() {
    let url = urlparse_impl("http://u:p@example.com:8080/x", None).unwrap();
    let h = finish_headers("POST", false, Headers::new_empty(), &url, &vec!["a=1".to_string()]);
    assert_eq!(h.get("host", None), Some("example.com:8080".to_string()));
    assert_eq!(h.get("content-length", None), Some("0".to_string()));
    assert_eq!(h.get("cookie", None), Some("a=1".to_string()));
    assert_eq!(h.get("authorization", None), Some("Basic dTpw".to_string()));
}

#[test]
fn async_client_checks_and_stages() {
    let c = AsyncClient::new(None, Headers::new_empty(), Vec::new(), "", None, false, Vec::<(String, u8)>::new(), true, "1")
        .unwrap();
    let u = c.resolve_target("https://example.com/a", &vec![("q".to_string(), "1".to_string())]).unwrap();
    assert_eq!(u.query, Some("q=1".to_string()));
    let mut h = c.request_headers(None, &u);
    assert_eq!(h.get("host", None), Some("example.com".to_string()));
    let b = build_async_body(AsyncBody::Content(AsyncContent::SyncIterable), &mut h);
    assert!(matches!(b, Err(HttpError::RuntimeError(_))));
    let ok = build_async_body(AsyncBody::Json("[]".to_string()), &mut h).unwrap();
    assert_eq!(ok.body, Some(b"[]".to_vec()));
    finish_async_headers(&mut h, &u, &Vec::new());
    assert_eq!(h.get("content-type", None), Some("application/json".to_string()));
    let mut closed = c;
    closed.settings.close();
    assert_eq!(
        closed.resolve_target("https://example.com/", &Vec::new()).unwrap_err(),
        HttpError::RuntimeError("The client is closed".to_string())
    );
}

#[test]
fn direct_route_follows_redirects_until_none_left() {
    let mut s = DirectState::new("https://a.com/x".to_string(), 1);
    assert_eq!(s.advance(200, true, Some("/y")), DirectStep::Done);
    assert_eq!(s.advance(302, false, Some("/y")), DirectStep::Done);
    assert_eq!(s.advance(302, true, Some("/y")), DirectStep::Follow);
    assert_eq!(s.url, "https://a.com/y");
    assert_eq!(s.remaining, 0);
    assert_eq!(s.advance(302, true, Some("/z")), DirectStep::TooMany);
    assert!(async_can_fast_path(false, false, false, false));
    assert!(!async_can_fast_path(false, true, false, false));
}

#[test]
fn async_direct_route_rewrites_the_request() {
    let original = urlparse_impl("https://a.com/start", None).unwrap();
    let headers = Headers::from_raw_pairs(vec![
        ("authorization".to_string(), "secret".to_string()),
        ("host".to_string(), "a.com".to_string()),
    ]);
    let mut s = AsyncDirectState {
        url: "https://a.com/start".to_string(),
        method: "POST".to_string(),
        headers,
        body: Some(b"data".to_vec()),
        count: 0,
    };
    assert_eq!(s.advance(&original, 303, true, Some("https://b.com:8443/next"), 5).unwrap(), DirectStep::Follow);
    assert_eq!(s.url, "https://b.com:8443/next");
    assert_eq!(s.method, "GET");
    assert_eq!(s.body, None);
    assert_eq!(s.headers.get("authorization", None), None);
    assert_eq!(s.headers.get("host", None), Some("b.com:8443".to_string()));
    assert_eq!(s.count, 1);
    let mut t = AsyncDirectState { url: String::new(), method: "GET".to_string(), headers: Headers::new_empty(), body: None, count: 2 };
    assert_eq!(
        t.advance(&original, 301, true, Some("/x"), 2).unwrap_err(),
        HttpError::TooManyRedirects("Exceeded maximum number of redirects (2)".to_string())
    );
}

#[test]
fn location_is_found_by_exact_name() {
    let raw = vec![(b"Location".to_vec(), b"/a".to_vec()), (b"location".to_vec(), b"/b".to_vec())];
    assert_eq!(location_of(&raw), Some("/b".to_string()));
    assert_eq!(location_of(&Vec::new()), None);
}

#[test]
fn link_header_next_url() {
    assert_eq!(
        parse_link_next("<https://api.example.com/items?page=2>; rel=\"next\", <https://api.example.com/items?page=1>; rel=\"prev\""),
        Some("https://api.example.com/items?page=2".to_string())
    );
    assert_eq!(parse_link_next("<https://x/1>; rel=\"prev\", <https://x/3>; rel='next'"), Some("https://x/3".to_string()));
    assert_eq!(parse_link_next("<https://x/1>; rel=\"prev\""), None);
    let h = Headers::from_raw_pairs(vec![("Link".to_string(), "<https://x/2>; rel=\"next\"".to_string())]);
    assert_eq!(next_from_header(&h, "link"), Some("https://x/2".to_string()));
}

#[test]
fn pages_stop_at_the_limit_or_without_next() {
    let mut p = PageIterator::new("GET".to_string(), "https://x/1".to_string(), 2);
    let first = p.next_request().unwrap();
    assert_eq!(first.url, "https://x/1");
    assert!(first.with_params);
    p.after_page(Some("https://x/2".to_string()));
    let second = p.next_request().unwrap();
    assert_eq!(second.url, "https://x/2");
    assert!(!second.with_params);
    p.after_page(Some("https://x/3".to_string()));
    assert!(p.next_request().is_none());
    assert_eq!(p.pages_fetched(), 2);
    let mut q = PageIterator::new("GET".to_string(), "https://x/1".to_string(), 5);
    q.next_request().unwrap();
    q.after_page(None);
    assert!(q.next_request().is_none());
    assert_eq!(q.method(), "GET");
}

fn jar() -> Vec<Cookie> {
    vec![
        Cookie { name: "a".to_string(), value: "1".to_string(), domain: "".to_string(), path: "/".to_string() },
        Cookie { name: "b".to_string(), value: "2".to_string(), domain: "x.com".to_string(), path: "/p".to_string() },
        Cookie { name: "a".to_string(), value: "3".to_string(), domain: "y.com".to_string(), path: "/".to_string() },
    ]
}

#[test]
fn cookie_lookups() {
    let j = jar();
    assert_eq!(get(&j, "a", None, None, None), Some("1".to_string()));
    assert_eq!(get(&j, "a", None, Some("y.com"), None), Some("3".to_string()));
    assert_eq!(get(&j, "zz", Some("d"), None, None), Some("d".to_string()));
    assert_eq!(get(&j, "zz", None, None, None), None);
    assert!(contains(&j, "b"));
    assert!(!contains(&j, "c"));
    assert_eq!(get_item(&j, "b"), Ok("2".to_string()));
    assert_eq!(get_item(&j, "c"), Err(HttpError::KeyError("c".to_string())));
    assert_eq!(
        get_item(&j, "a"),
        Err(HttpError::CookieConflict("Attempted to access the cookie 'a', but multiple cookies with that name exist. Use 'cookies.get(\"a\")', passing the appropriate 'domain' or 'path' arguments.".to_string()))
    );
}

#[test]
fn cookie_removal_positions() {
    let j = jar();
    assert_eq!(to_delete(&j, "a", None, None), vec![0, 2]);
    assert_eq!(to_delete(&j, "a", Some("y.com"), None), vec![2]);
    assert_eq!(to_clear(&j, None, Some("/")), vec![0, 2]);
    assert_eq!(to_clear(&j, None, None), vec![0, 1, 2]);
}

#[test]
fn cookie_text_forms() {
    let j = jar();
    assert_eq!(repr(&j), "<Cookies[<Cookie a=1 for />, <Cookie b=2 for x.com /p>, <Cookie a=3 for y.com />]>");
    assert_eq!(parse_set_cookie("sid=abc; Path=/; HttpOnly"), Some(("sid".to_string(), "abc".to_string())));
    assert_eq!(parse_set_cookie("novalue"), None);
    let h = Headers::from_raw_pairs(vec![
        ("Set-Cookie".to_string(), "a=1; Path=/".to_string()),
        ("Content-Type".to_string(), "text/plain".to_string()),
        ("set-cookie".to_string(), "b=2".to_string()),
    ]);
    assert_eq!(extract_cookies(&h), vec![("a".to_string(), "1".to_string()), ("b".to_string(), "2".to_string())]);
    assert_eq!(set_cookie_headers(&h), vec!["a=1; Path=/".to_string(), "b=2".to_string()]);
}

#[test]
fn requests_are_routed_to_mounts_then_proxies() {
    let c = client();
    let env = ProxyEnv {
        http_proxy: None,
        https_proxy: Some("proxy.local:8080".to_string()),
        all_proxy: None,
        no_proxy: None,
    };
    match c.route(&0u8, "ftp://files.example.com/x", &env) {
        Route::Mount(t) => assert_eq!(*t, 1u8),
        _ => panic!("expected the mount"),
    }
    match c.route(&0u8, "https://api.example.com/v1/users", &env) {
        Route::Proxy(p) => assert_eq!(p, "http://proxy.local:8080"),
        _ => panic!("expected the proxy"),
    }
    match c.route(&0u8, "http://api.example.com/", &env) {
        Route::Default(t) => assert_eq!(*t, 0u8),
        _ => panic!("expected the default transport"),
    }
}

#[test]
fn pagination_needs_an_open_client_and_a_next_source() {
    match start_pagination(true, "GET".to_string(), "https://x/".to_string(), true, false, false, 5) {
        Err(HttpError::RuntimeError(m)) => assert_eq!(m, "Cannot send requests, as the client has been closed."),
        _ => panic!("expected a runtime error"),
    }
    match start_pagination(false, "GET".to_string(), "https://x/".to_string(), false, false, false, 5) {
        Err(HttpError::ValueError(m)) => assert_eq!(m, "Must specify one of: next_url, next_header, or next_func"),
        _ => panic!("expected a value error"),
    }
    let mut p = start_pagination(false, "GET".to_string(), "https://x/".to_string(), false, true, false, 2).unwrap();
    assert_eq!(p.pages_fetched(), 0);
    let first = p.next_request().unwrap();
    assert_eq!(first.url, "https://x/");
    assert!(first.with_params);
}

#[test]
fn pagination_stops_at_its_limit_and_stays_stopped() {
    let mut p = PageIterator::new("GET".to_string(), "https://x/1".to_string(), 2);
    let first = p.next_request().unwrap();
    assert!(first.with_params);
    p.after_page(Some("https://x/2".to_string()));
    let second = p.next_request().unwrap();
    assert_eq!(second.url, "https://x/2");
    assert!(!second.with_params);
    p.after_page(Some("https://x/3".to_string()));
    assert!(p.next_request().is_none());
    assert!(p.next_request().is_none());
    assert_eq!(p.pages_fetched(), 2);
}

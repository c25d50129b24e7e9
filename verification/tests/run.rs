use httpr::auth::{parse_digest_challenge, DigestAuth};
use httpr::client::redirect_request_between;
use httpr::error::HttpError;
use httpr::headers::Headers;
use httpr::multipart::{file_data, FileModeInfo, FileSource};
use httpr::response::Response;
use httpr::run::{raw_path_of, RequestRun, RunStep};
use httpr::urlparse::urlparse_impl;

fn redirect_to(code: u16, location: &str) -> Response {
    let mut h = Headers::new_empty();
    h.set_header("Location", location);
    Response::create(code, h, Some(Vec::new()), None, None)
}

#[test]
fn cross_host_redirect_drops_credentials() {
    let from = urlparse_impl("https://a.example/x", None).unwrap();
    let same = urlparse_impl("https://A.example/y", None).unwrap();
    let other = urlparse_impl("https://b.example:8443/y", None).unwrap();
    let mut h = Headers::new_empty();
    h.set_header("Authorization", "Basic x");
    let f = redirect_request_between(302, "GET", &h, None, false, None, &from, &other).unwrap();
    assert_eq!(f.headers.get("authorization", None), None);
    assert_eq!(f.headers.get("host", None), Some("b.example:8443".to_string()));
    let g = redirect_request_between(302, "GET", &h, None, false, Some("k=v"), &from, &same).unwrap();
    assert_eq!(g.headers.get("authorization", None), Some("Basic x".to_string()));
    assert_eq!(g.headers.get("cookie", None), Some("k=v".to_string()));
}

#[test]
fn a_run_follows_redirects_and_keeps_history() {
    let url = urlparse_impl("https://a.example/start?q=1", None).unwrap();
    assert_eq!(raw_path_of(&url), "/start?q=1");
    let mut run = RequestRun::new("POST".to_string(), url, Headers::new_empty(), Some(b"hi".to_vec()), false, true, 5);
    match run.on_response(redirect_to(303, "/next")) {
        RunStep::Redirect => {},
        _ => panic!("expected a redirect"),
    }
    run.follow_redirect(Some("s=1")).unwrap();
    assert_eq!(run.method, "GET");
    assert_eq!(run.body, None);
    assert_eq!(run.url.path, "/next");
    assert_eq!(run.count, 1);
    assert_eq!(run.headers.get("cookie", None), Some("s=1".to_string()));
    let done = Response::create(200, Headers::new_empty(), Some(b"ok".to_vec()), None, None);
    match run.on_response(done) {
        RunStep::Finished(r) => {
            assert_eq!(r.status_code, 200);
            assert_eq!(r.history.len(), 1);
            assert_eq!(r.history[0].status_code, 303);
        },
        _ => panic!("expected the final response"),
    }
}

#[test]
fn a_run_stops_after_too_many_redirects() {
    let url = urlparse_impl("https://a.example/", None).unwrap();
    let mut run = RequestRun::new("GET".to_string(), url, Headers::new_empty(), None, false, true, 0);
    match run.on_response(redirect_to(302, "/again")) {
        RunStep::Failed(HttpError::TooManyRedirects(m)) => assert_eq!(m, "Exceeded maximum number of redirects (0)"),
        _ => panic!("expected too many redirects"),
    }
    let url2 = urlparse_impl("https://a.example/", None).unwrap();
    let mut quiet = RequestRun::new("GET".to_string(), url2, Headers::new_empty(), None, false, false, 5);
    match quiet.on_response(redirect_to(302, "/again")) {
        RunStep::Finished(r) => assert_eq!(r.status_code, 302),
        _ => panic!("expected the redirect itself"),
    }
}

#[test]
fn a_run_answers_one_digest_challenge() {
    let url = urlparse_impl("https://h.example/dir/index.html", None).unwrap();
    let mut run = RequestRun::new("GET".to_string(), url, Headers::new_empty(), None, false, true, 5);
    let mut d = DigestAuth::new("Mufasa", "Circle Of Life");
    assert!(run.answers_challenge(401, true));
    let ch = parse_digest_challenge("Digest realm=\"r\", nonce=\"n\"").unwrap().unwrap();
    let challenge = Response::create(401, Headers::new_empty(), None, None, None);
    run.answer_digest(challenge, &mut d, &ch, "c", None);
    assert!(run.challenged);
    assert!(!run.answers_challenge(401, true));
    assert!(run.headers.get("authorization", None).unwrap().starts_with("Digest username=\"Mufasa\""));
    assert_eq!(run.history.len(), 1);
}

#[test]
fn text_mode_files_are_refused() {
    match file_data(&FileModeInfo::Mode("r".to_string()), FileSource::ReadText) {
        Err(HttpError::TypeError(m)) => assert_eq!(m, "Expected bytes, got str (text mode file)"),
        _ => panic!("expected a type error"),
    }
    match file_data(&FileModeInfo::Encoding(true), FileSource::ReadBytes(b"x".to_vec())) {
        Err(HttpError::TypeError(m)) => assert_eq!(m, "Expected bytes, got str (text mode file)"),
        _ => panic!("expected a type error"),
    }
    assert_eq!(file_data(&FileModeInfo::Mode("rb".to_string()), FileSource::ReadBytes(b"x".to_vec())), Ok(b"x".to_vec()));
    assert_eq!(file_data(&FileModeInfo::Unknown, FileSource::Text("é".to_string())), Ok("é".as_bytes().to_vec()));
    assert_eq!(file_data(&FileModeInfo::Mode("rb".to_string()), FileSource::ReadText), Err(HttpError::TypeError("Expected bytes, got str".to_string())));
    assert_eq!(file_data(&FileModeInfo::Unknown, FileSource::ReadOther), Ok(Vec::new()));
}

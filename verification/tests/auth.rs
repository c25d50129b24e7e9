use httpr::auth::{basic_auth_header, digest_challenge_for, parse_digest_challenge, BasicAuth, DigestAuth};
use httpr::auth_flow::{
    apply_auth, coerce_auth, netrc_authorization, request_auth, validate_auth_type, AuthStep, AuthTraits,
    CoercedAuth, FlowMethod, PairArg, RequestAuth,
};
use httpr::error::HttpError;
use httpr::headers::Headers;

#[test]
fn basic_header_is_base64_of_the_credentials() {
    assert_eq!(basic_auth_header("user", "pass"), "Basic dXNlcjpwYXNz");
    let b = BasicAuth::new("Aladdin", "open sesame");
    assert_eq!(b.auth_header(), "Basic QWxhZGRpbjpvcGVuIHNlc2FtZQ==");
}

#[test]
fn digest_header_matches_the_rfc_example() {
    let d = DigestAuth::new("Mufasa", "Circle Of Life");
    let h = d.build_auth_header(
        "GET",
        "/dir/index.html",
        "testrealm@host.com",
        "dcd98b7102dd2f0e8b11d0f600bfb0c093",
        Some("auth"),
        Some("5ccc069c403ebaf9f0171e9517f40e41"),
        None,
        1,
        "0a4f113b",
    );
    assert_eq!(
        h,
        "Digest username=\"Mufasa\", realm=\"testrealm@host.com\", nonce=\"dcd98b7102dd2f0e8b11d0f600bfb0c093\", uri=\"/dir/index.html\", qop=auth, nc=00000001, cnonce=\"0a4f113b\", response=\"6629fae49393a05397450978507c4ef1\", algorithm=MD5, opaque=\"5ccc069c403ebaf9f0171e9517f40e41\""
    );
}

#[test]
fn digest_header_without_qop() {
    let d = DigestAuth::new("Mufasa", "Circle Of Life");
    let h = d.build_auth_header("GET", "/dir/index.html", "testrealm@host.com", "abc", None, None, None, 1, "x");
    assert_eq!(
        h,
        "Digest username=\"Mufasa\", realm=\"testrealm@host.com\", nonce=\"abc\", uri=\"/dir/index.html\", response=\"1c65105f65ea4aa39d27f622d6e924b9\", algorithm=MD5"
    );
}

#[test]
fn digest_challenge_is_parsed() {
    let c = parse_digest_challenge("Digest realm=\"r\", nonce=\"n\", qop=\"auth,auth-int\", opaque=\"o\"")
        .unwrap()
        .unwrap();
    assert_eq!(c.realm, "r");
    assert_eq!(c.nonce, "n");
    assert_eq!(c.qop, Some("auth".to_string()));
    assert_eq!(c.opaque, Some("o".to_string()));
    assert_eq!(c.algorithm, None);
}

#[test]
fn other_schemes_are_no_digest_challenge() {
    assert!(parse_digest_challenge("Basic realm=\"r\"").unwrap().is_none());
    assert!(digest_challenge_for(200, Some("Digest realm=\"r\", nonce=\"n\"")).unwrap().is_none());
    assert!(digest_challenge_for(401, None).unwrap().is_none());
}

#[test]
fn digest_challenge_without_nonce_is_malformed() {
    let e = parse_digest_challenge("Digest realm=\"r\"").unwrap_err();
    assert_eq!(
        e,
        HttpError::ProtocolError(
            "Malformed Digest authentication challenge: missing required fields (realm, nonce)".to_string()
        )
    );
}

#[test]
fn auth_int_only_is_not_implemented() {
    let e = parse_digest_challenge("Digest realm=\"r\", nonce=\"n\", qop=\"auth-int\"").unwrap_err();
    assert_eq!(e, HttpError::NotImplemented("Digest auth with qop='auth-int' is not implemented".to_string()));
}

#[test]
fn nonce_count_follows_the_nonce() {
    let mut d = DigestAuth::new("u", "p");
    let c = parse_digest_challenge("Digest realm=\"r\", nonce=\"n1\"").unwrap().unwrap();
    assert_eq!(d.note_challenge(&c), 1);
    assert_eq!(d.note_challenge(&c), 2);
    assert_eq!(d.next_cached_count(), 3);
    let c2 = parse_digest_challenge("Digest realm=\"r\", nonce=\"n2\"").unwrap().unwrap();
    assert_eq!(d.note_challenge(&c2), 1);
}

fn traits(kind: &str) -> AuthTraits {
    AuthTraits {
        is_none: false,
        is_tuple: false,
        pair: PairArg::NotPair,
        has_auth_flow: false,
        has_sync_auth_flow: false,
        has_async_auth_flow: false,
        is_callable: false,
        kind_name: kind.to_string(),
    }
}

#[test]
fn invalid_auth_is_a_type_error() {
    let t = traits("int");
    assert_eq!(validate_auth_type(&t), Err(HttpError::TypeError("Invalid \"auth\" argument: int".to_string())));
    match request_auth(Some(&t)) {
        Err(HttpError::TypeError(m)) => assert_eq!(m, "Invalid \"auth\" argument: int"),
        _ => panic!("expected a type error"),
    }
}

#[test]
fn auth_keyword_reading() {
    assert!(matches!(request_auth(None), Ok(RequestAuth::ClientDefault)));
    let mut n = traits("NoneType");
    n.is_none = true;
    assert!(matches!(request_auth(Some(&n)), Ok(RequestAuth::Disabled)));
    let mut c = traits("function");
    c.is_callable = true;
    assert!(matches!(request_auth(Some(&c)), Ok(RequestAuth::Given)));
}

#[test]
fn pairs_coerce_to_basic_auth() {
    let mut t = traits("tuple");
    t.is_tuple = true;
    t.pair = PairArg::Strings("u".to_string(), "p".to_string());
    match coerce_auth(&t) {
        Ok(CoercedAuth::Basic(b)) => assert_eq!(b.auth_header(), "Basic dTpw"),
        _ => panic!("expected basic auth"),
    }
}

#[test]
fn pairs_of_non_strings_are_type_errors() {
    let mut t = traits("tuple");
    t.is_tuple = true;
    t.pair = PairArg::NotStrings("'int' object cannot be converted to 'PyString'".to_string());
    match coerce_auth(&t) {
        Err(HttpError::TypeError(m)) => assert_eq!(m, "'int' object cannot be converted to 'PyString'"),
        _ => panic!("expected a type error"),
    }
    let mut h = Headers::new_empty();
    assert!(matches!(apply_auth(Some(&t), None, false, false, &mut h), Err(HttpError::TypeError(_))));
    assert_eq!(h.len(), 0);
}

#[test]
fn other_tuples_and_objects_are_kept() {
    let mut t = traits("tuple");
    t.is_tuple = true;
    assert!(matches!(coerce_auth(&t), Ok(CoercedAuth::Keep)));
    let o = traits("MyAuth");
    assert!(matches!(coerce_auth(&o), Ok(CoercedAuth::Keep)));
    let mut n = traits("NoneType");
    n.is_none = true;
    assert!(matches!(coerce_auth(&n), Ok(CoercedAuth::Nothing)));
}

#[test]
fn tuple_auth_sets_a_basic_header() {
    let mut t = traits("tuple");
    t.is_tuple = true;
    t.pair = PairArg::Strings("user".to_string(), "pass".to_string());
    let mut h = Headers::new_empty();
    let step = apply_auth(Some(&t), None, false, false, &mut h);
    assert_eq!(step, Ok(AuthStep::Applied));
    assert_eq!(h.get("authorization", None), Some("Basic dXNlcjpwYXNz".to_string()));
}

#[test]
fn flow_methods_are_preferred_in_order() {
    let mut t = traits("DigestAuth");
    t.has_auth_flow = true;
    t.has_sync_auth_flow = true;
    t.has_async_auth_flow = true;
    let mut h = Headers::new_empty();
    assert_eq!(apply_auth(None, Some(&t), false, false, &mut h), Ok(AuthStep::Flow(FlowMethod::AuthFlow)));
    assert_eq!(apply_auth(None, Some(&t), false, true, &mut h), Ok(AuthStep::Flow(FlowMethod::AsyncAuthFlow)));
    assert_eq!(apply_auth(Some(&t), None, true, false, &mut h), Ok(AuthStep::Nothing));
    assert_eq!(h.len(), 0);
}

#[test]
fn netrc_entry_sets_basic_header() {
    let mut h = Headers::new_empty();
    netrc_authorization(Some(("user", "pass")), &mut h);
    assert_eq!(h.get("Authorization", None), Some("Basic dXNlcjpwYXNz".to_string()));
    let mut g = Headers::new_empty();
    netrc_authorization(None, &mut g);
    assert_eq!(g.len(), 0);
}

#[test]
fn client_nonce_is_hex_of_the_time() {
    assert_eq!(httpr::auth::client_nonce(255), "ff");
    assert_eq!(httpr::auth::client_nonce(0), "0");
    assert_eq!(httpr::auth::client_nonce(0x1a2b3c), "1a2b3c");
}

#[test]
fn answering_a_challenge_sets_authorization_and_cookies() {
    let mut d = DigestAuth::new("Mufasa", "Circle Of Life");
    let ch = parse_digest_challenge(
        "Digest realm=\"testrealm@host.com\", qop=\"auth,auth-int\", nonce=\"dcd98b7102dd2f0e8b11d0f600bfb0c093\", opaque=\"5ccc069c403ebaf9f0171e9517f40e41\"",
    )
    .unwrap()
    .unwrap();
    let mut h = Headers::new_empty();
    h.set_header("cookie", "a=1");
    let r = d.answer_challenge(&ch, "GET", "/dir/index.html", "0a4f113b", &h, Some("sid=xyz"));
    assert_eq!(d.nonce_count, 1);
    assert_eq!(
        r.get("authorization", None),
        Some("Digest username=\"Mufasa\", realm=\"testrealm@host.com\", nonce=\"dcd98b7102dd2f0e8b11d0f600bfb0c093\", uri=\"/dir/index.html\", qop=auth, nc=00000001, cnonce=\"0a4f113b\", response=\"6629fae49393a05397450978507c4ef1\", algorithm=MD5, opaque=\"5ccc069c403ebaf9f0171e9517f40e41\"".to_string())
    );
    assert_eq!(r.get("cookie", None), Some("a=1; sid=xyz".to_string()));
    let r2 = d.answer_challenge(&ch, "GET", "/dir/index.html", "0a4f113b", &Headers::new_empty(), None);
    assert_eq!(d.nonce_count, 2);
    assert_eq!(r2.get("cookie", None), None);
    assert!(r2.get("authorization", None).unwrap().contains("nc=00000002"));
}

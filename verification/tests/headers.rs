use httpr::error::HttpError;
use httpr::headers::{HeaderValueArg, Headers};

fn sample() -> Headers {
    Headers::from_raw_pairs(vec![
        ("Content-Type".to_string(), "text/plain".to_string()),
        ("Set-Cookie".to_string(), "a=1".to_string()),
        ("set-cookie".to_string(), "b=2".to_string()),
    ])
}

#[test]
fn lookups_ignore_case_and_join_values() {
    let h = sample();
    assert_eq!(h.get("content-type", None), Some("text/plain".to_string()));
    assert_eq!(h.get("SET-COOKIE", None), Some("a=1, b=2".to_string()));
    assert_eq!(h.get("missing", Some("d")), Some("d".to_string()));
    assert_eq!(h.get("missing", None), None);
    assert!(h.contains_header("CONTENT-TYPE"));
    assert_eq!(h.len(), 2);
}

#[test]
fn set_then_get_gives_the_value() {
    let mut h = sample();
    h.set_header("X-Token", "abc");
    assert_eq!(h.get("x-token", None), Some("abc".to_string()));
    h.set_header("set-cookie", "c=3");
    assert_eq!(h.get("Set-Cookie", None), Some("c=3".to_string()));
    assert_eq!(h.len(), 3);
}

#[test]
fn remove_then_lookup_gives_nothing() {
    let mut h = sample();
    h.remove_header("SET-COOKIE");
    assert_eq!(h.get("set-cookie", None), None);
    assert!(!h.contains_header("set-cookie"));
    assert_eq!(h.len(), 1);
}

#[test]
fn append_keeps_existing_values() {
    let mut h = sample();
    h.append_header("Content-Type", "text/html");
    assert_eq!(h.get("content-type", None), Some("text/plain, text/html".to_string()));
}

#[test]
fn multi_items_lowercase_names() {
    let h = sample();
    let items = h.get_multi_items();
    assert_eq!(
        items,
        vec![
            ("content-type".to_string(), "text/plain".to_string()),
            ("set-cookie".to_string(), "a=1".to_string()),
            ("set-cookie".to_string(), "b=2".to_string()),
        ]
    );
    assert_eq!(h.keys(), vec!["content-type".to_string(), "set-cookie".to_string()]);
}

#[test]
fn update_replaces_names_of_the_other() {
    let mut h = sample();
    let other = Headers::from_raw_pairs(vec![("SET-COOKIE".to_string(), "z=9".to_string())]);
    h.update_from(&other);
    assert_eq!(h.get("set-cookie", None), Some("z=9".to_string()));
    assert_eq!(h.get("content-type", None), Some("text/plain".to_string()));
}

#[test]
fn del_item_of_absent_key_is_key_error() {
    let mut h = sample();
    assert_eq!(h.del_item("nope"), Err(HttpError::KeyError("nope".to_string())));
    assert_eq!(h.del_item("Content-Type"), Ok(()));
    assert!(!h.contains_header("content-type"));
}

#[test]
fn setdefault_keeps_existing_value() {
    let mut h = sample();
    assert_eq!(h.setdefault("content-type", "x"), "text/plain");
    assert_eq!(h.setdefault("accept", "*/*"), "*/*");
    assert_eq!(h.get("accept", None), Some("*/*".to_string()));
}

#[test]
fn get_list_splits_commas() {
    let h = Headers::from_raw_pairs(vec![("Accept".to_string(), "a, b ,c".to_string())]);
    assert_eq!(h.get_list("accept", true), vec!["a".to_string(), "b".to_string(), "c".to_string()]);
    assert_eq!(h.get_list("accept", false), vec!["a, b ,c".to_string()]);
}

#[test]
fn header_bytes_from_text_and_bytes() {
    assert_eq!(Headers::to_header_bytes_from(HeaderValueArg::Text("é".to_string())), vec![0xC3, 0xA9]);
    assert_eq!(Headers::to_header_bytes_from(HeaderValueArg::Bytes(vec![1, 2])), vec![1, 2]);
}

#[test]
fn headers_compare_as_unordered_lowercased_pairs() {
    let a = Headers::from_raw_pairs(vec![
        ("A".to_string(), "1".to_string()),
        ("b".to_string(), "2".to_string()),
    ]);
    let b = Headers::from_raw_pairs(vec![
        ("B".to_string(), "2".to_string()),
        ("a".to_string(), "1".to_string()),
    ]);
    assert!(a.equals(&b));
    let c = Headers::from_raw_pairs(vec![("a".to_string(), "1".to_string())]);
    assert!(!a.equals(&c));
    assert!(a.equals_pairs(&vec![("b".to_string(), "2".to_string()), ("A".to_string(), "1".to_string())]));
    assert!(!a.equals_pairs(&vec![("b".to_string(), "2".to_string()), ("a".to_string(), "x".to_string())]));
}

#[test]
fn headers_repr_masks_credentials() {
    assert_eq!(Headers::new_empty().repr(), "Headers({})");
    let h = Headers::from_raw_pairs(vec![
        ("Accept".to_string(), "*/*".to_string()),
        ("Authorization".to_string(), "Basic x".to_string()),
    ]);
    assert_eq!(h.repr(), "Headers({'accept': '*/*', 'authorization': '[secure]'})");
    let d = Headers::from_raw_pairs(vec![
        ("a".to_string(), "1".to_string()),
        ("A".to_string(), "2".to_string()),
    ]);
    assert_eq!(d.repr(), "Headers([('a', '1'), ('a', '2')])");
}

#[test]
fn missing_header_value_is_a_type_error() {
    assert_eq!(
        Headers::validate_header_value(None),
        Err(HttpError::TypeError("Header value must be str or bytes, not <class 'NoneType'>".to_string()))
    );
    assert_eq!(Headers::validate_header_value(Some(HeaderValueArg::Text("v".to_string()))), Ok(b"v".to_vec()));
}

use httpr::query_params::{value_to_string, ParamEntry, ParamValue, ParamsArg, QueryParams};
use httpr::urlenc::{percent_decode, percent_encode};

#[test]
fn parses_pairs_in_order() {
    let q = QueryParams::from_query_string("a=1&b=2&a=3&&c");
    assert_eq!(
        q.multi_items(),
        vec![
            ("a".to_string(), "1".to_string()),
            ("b".to_string(), "2".to_string()),
            ("a".to_string(), "3".to_string()),
            ("c".to_string(), "".to_string()),
        ]
    );
    assert_eq!(q.get("a", None), Some("1".to_string()));
    assert_eq!(q.get_list("a"), vec!["1".to_string(), "3".to_string()]);
    assert_eq!(q.get("zz", Some("d")), Some("d".to_string()));
    assert!(q.contains("c"));
}

#[test]
fn percent_escapes_are_decoded_when_parsing() {
    let q = QueryParams::from_query_string("name=J%C3%BCrgen&x=a%20b");
    assert_eq!(q.get("name", None), Some("Jürgen".to_string()));
    assert_eq!(q.get("x", None), Some("a b".to_string()));
}

#[test]
fn form_encoding_keeps_star_and_escapes_tilde() {
    let q = QueryParams::from_items(vec![("k".to_string(), "a b*~".to_string())]);
    assert_eq!(q.encode(), "k=a+b*%7E");
}

#[test]
fn encodes_as_a_form() {
    let q = QueryParams::from_items(vec![
        ("a".to_string(), "x y".to_string()),
        ("b".to_string(), "1&2".to_string()),
    ]);
    assert_eq!(q.encode(), "a=x+y&b=1%262");
    assert_eq!(q.repr(), "QueryParams('a=x+y&b=1%262')");
}

#[test]
fn set_replaces_and_moves_last() {
    let q = QueryParams::from_query_string("a=1&b=2&a=3");
    let r = q.set("a", "9");
    assert_eq!(r.encode(), "b=2&a=9");
    assert_eq!(r.get("a", None), Some("9".to_string()));
}

#[test]
fn add_and_remove() {
    let q = QueryParams::from_query_string("a=1");
    let r = q.add("a", "2");
    assert_eq!(r.get_list("a"), vec!["1".to_string(), "2".to_string()]);
    let s = r.remove("a");
    assert_eq!(s.len(), 0);
    assert_eq!(q.len(), 1);
}

#[test]
fn merge_prefers_the_other() {
    let q = QueryParams::from_query_string("a=1&b=2");
    let o = QueryParams::from_query_string("a=9");
    assert_eq!(q.merge(&o).encode(), "b=2&a=9");
}

#[test]
fn percent_helpers() {
    assert_eq!(percent_encode("a b/c"), "a%20b%2Fc");
    assert_eq!(percent_decode("a%20b%2Fc"), "a b/c");
}

#[test]
fn encoded_parameters_parse_back() {
    let items = vec![
        ("a".to_string(), "1".to_string()),
        ("b".to_string(), "x&y=z".to_string()),
        ("ü".to_string(), "100%".to_string()),
        ("a".to_string(), "".to_string()),
    ];
    let q = QueryParams::from_items(items.clone());
    let back = QueryParams::from_query_string(&q.encode());
    assert_eq!(back.multi_items(), items);
}

#[test]
fn spaces_do_not_parse_back() {
    let q = QueryParams::from_items(vec![("a".to_string(), "x y".to_string())]);
    let back = QueryParams::from_query_string(&q.encode());
    assert_eq!(back.get("a", None), Some("x+y".to_string()));
}

#[test]
fn parameters_from_arguments() {
    let m = QueryParams::create(ParamsArg::Mapping(vec![
        ("a".to_string(), ParamEntry::One(ParamValue::Bool(true))),
        ("b".to_string(), ParamEntry::Many(vec![ParamValue::Int(-5), ParamValue::Null, ParamValue::Text("x".to_string())])),
    ]));
    assert_eq!(
        m.multi_items(),
        vec![
            ("a".to_string(), "true".to_string()),
            ("b".to_string(), "-5".to_string()),
            ("b".to_string(), "".to_string()),
            ("b".to_string(), "x".to_string()),
        ]
    );
    assert_eq!(QueryParams::create(ParamsArg::Text("q=1".to_string())).encode(), "q=1");
    assert_eq!(QueryParams::create(ParamsArg::Bytes(b"q=2".to_vec())).encode(), "q=2");
    assert_eq!(QueryParams::create(ParamsArg::Bytes(vec![0xFF, b'=', b'1'])).len(), 0);
    assert_eq!(QueryParams::create(ParamsArg::Absent).len(), 0);
    let p = QueryParams::create(ParamsArg::Pairs(vec![("k".to_string(), ParamValue::Bool(false))]));
    assert_eq!(p.encode(), "k=false");
    assert_eq!(value_to_string(&ParamValue::Int(i64::MIN)), "-9223372036854775808");
    assert_eq!(value_to_string(&ParamValue::Int(42)), "42");
}

#[test]
fn parameters_compare_in_any_order() {
    let a = QueryParams::from_query_string("a=1&b=2&a=3");
    let b = QueryParams::from_query_string("a=3&a=1&b=2");
    let c = QueryParams::from_query_string("a=1&b=2");
    assert!(a.equals(&b));
    assert!(!a.equals(&c));
}

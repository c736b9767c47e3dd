use rollout_controller::json::{parse_json, Json};

#[test]
fn documents_are_read() {
    let json = parse_json(r#" {"b": [1, -2.5, true, null], "a": {"x": "ä"}} "#.as_bytes()).unwrap();
    assert_eq!(json.get("a").unwrap().str_at("x"), Some("ä"));
    match json.get("b").unwrap() {
        Json::Array(items) => {
            assert_eq!(items.len(), 4);
            assert!(matches!(&items[0], Json::Number(n) if n == "1"));
            assert!(matches!(&items[1], Json::Number(n) if n == "-2.5"));
            assert!(matches!(items[2], Json::Bool(true)));
            assert!(matches!(items[3], Json::Null));
        }
        other => panic!("{:?}", other),
    }
    assert!(json.get("c").is_none());
    assert!(json.str_at("a").is_none());
    assert!(json.get("a").unwrap().as_object().is_some());
    assert!(json.get("b").unwrap().as_object().is_none());
    assert!(json.get("b").unwrap().get("0").is_none());
    assert!(json.as_str().is_none());
}

#[test]
fn entries_stand_in_the_order_of_their_keys() {
    let json = parse_json(r#"{"b":1,"ä":2,"a":3,"":4,"a":5,"ab":6,"𝄞":7,"ﬀ":8}"#.as_bytes()).unwrap();
    let keys: Vec<&str> = json
        .as_object()
        .unwrap()
        .iter()
        .map(|(k, _)| k.as_str())
        .collect();
    assert_eq!(keys, ["", "a", "ab", "b", "ä", "ﬀ", "𝄞"]);
    assert!(matches!(json.get("a"), Some(Json::Number(n)) if n == "5"));
}

#[test]
fn other_bytes_are_no_document() {
    for bytes in [&b""[..], b"{", b"{} {}", b"\"\xff\"", b"nul"] {
        assert!(parse_json(bytes).is_none());
    }
}

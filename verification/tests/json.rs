use media_research_stack::json::Json;

#[test]
fn documents_are_written_on_one_line() {
    let document = Json::parse("{ \"b\" : [1, 2.50, -3e2, true, null],\n \"a\" : \"x\\ny\" }").unwrap();
    assert_eq!(
        document.to_line(),
        "{\"a\":\"x\\ny\",\"b\":[1,2.5,-300.0,true,null]}"
    );
}

#[test]
fn written_documents_are_read_back() {
    let text = "{\"a\":{\"b\":[\"\\u00e4\\t\",18446744073709551615]},\"c\":false}";
    let document = Json::parse(text).unwrap();
    assert_eq!(Json::parse(&document.to_line()).unwrap(), document);
    assert_eq!(Json::parse_bytes(document.to_line().as_bytes()).unwrap(), document);
}

#[test]
fn later_members_replace_earlier_ones() {
    let document = Json::parse("{\"a\": 1, \"b\": 2, \"a\": 3}").unwrap();
    assert_eq!(document.to_line(), "{\"a\":3,\"b\":2}");
    assert_eq!(document.get("a"), Some(&Json::count(3)));
}

#[test]
fn own_documents_are_written_like_parsed_ones() {
    let document = Json::Object(vec![
        ("z".to_string(), Json::count(7)),
        ("a".to_string(), Json::Array(vec![Json::Null, Json::Bool(true)])),
        ("z".to_string(), Json::string("last")),
    ]);
    assert_eq!(document.to_line(), "{\"a\":[null,true],\"z\":\"last\"}");
    assert_eq!(document.get("z"), Some(&Json::string("last")));
}

#[test]
fn broken_documents_are_refused() {
    assert!(Json::parse("{").is_err());
    assert!(Json::parse("").is_err());
    assert!(Json::parse("1 2").is_err());
    assert!(Json::parse_bytes(b"\"\xff\"").is_err());
    assert_eq!(
        Json::parse("nope").unwrap_err(),
        "expected ident at line 1 column 2"
    );
}

#[test]
fn pointers_lead_into_documents() {
    let document = Json::parse("{\"a\": [{\"b\": \"x\"}, {\"c\": false}], \"0\": 1}").unwrap();
    assert_eq!(
        document.pointer(&["a", "0", "b"]).and_then(|value| value.as_text()),
        Some(&"x".to_string())
    );
    assert_eq!(
        document.pointer(&["a", "1", "c"]).and_then(|value| value.as_flag()),
        Some(false)
    );
    assert_eq!(document.pointer(&["0"]), Some(&Json::count(1)));
    assert_eq!(document.pointer(&[]), Some(&document));
    assert_eq!(document.pointer(&["a", "2"]), None);
    assert_eq!(document.pointer(&["a", "01"]), None);
    assert_eq!(document.pointer(&["a", "+1"]), None);
    assert_eq!(document.pointer(&["a", "b"]), None);
    assert_eq!(document.pointer(&["a"]).and_then(|value| value.as_items()).map(|items| items.len()), Some(2));
}

#[test]
fn values_have_one_kind() {
    assert_eq!(Json::string("x").as_flag(), None);
    assert_eq!(Json::Bool(true).as_text(), None);
    assert_eq!(Json::Null.as_items(), None);
    assert_eq!(Json::Array(vec![]).get("a"), None);
    assert_eq!(Json::Array(vec![Json::Null]).child("0"), Some(&Json::Null));
}

#[test]
fn copies_are_equal() {
    let document = Json::parse("[1.5, {\"a\": -2}, \"t\"]").unwrap();
    assert_eq!(document.clone(), document);
    assert_eq!(document.clone().to_line(), "[1.5,{\"a\":-2},\"t\"]");
}

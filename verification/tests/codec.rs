use plaid_connector::error::{ConnectorError, ParseFailure};
use plaid_connector::json::{decode, encode, payload, text_eq, Json, JsonNumber};

#[test]
fn decode_reads_an_object_with_numbers() {
    let doc = decode(b"{\"b\": [1, -2, 1.5], \"a\": \"x\"}").unwrap();
    let a = doc.member("a").unwrap();
    assert!(matches!(a, Json::Text(t) if t == "x"));
    let b = doc.member("b").unwrap().as_array().unwrap();
    assert_eq!(b.len(), 3);
    assert_eq!(b[0].as_u64(), Some(1));
    assert!(matches!(&b[1], Json::Number(JsonNumber::Negative(-2))));
    assert!(matches!(&b[2], Json::Number(JsonNumber::Real(t)) if t == "1.5"));
    assert!(doc.member("c").is_none());
}

#[test]
fn decode_rejects_text_that_is_no_document() {
    let r = decode(b"{\"a\": ");
    assert!(matches!(r, Err(ConnectorError::Parse(ParseFailure::InvalidPayload))));
}

#[test]
fn encode_writes_members_in_key_order() {
    let doc = Json::Object(vec![
        ("secret".to_string(), Json::Text("s\"1".to_string())),
        ("client_id".to_string(), Json::Text("c".to_string())),
        ("n".to_string(), Json::Number(JsonNumber::Real("2.5".to_string()))),
        ("list".to_string(), Json::Array(vec![Json::Null, Json::Bool(true)])),
    ]);
    assert_eq!(
        encode(&doc),
        b"{\"client_id\":\"c\",\"list\":[null,true],\"n\":2.5,\"secret\":\"s\\\"1\"}".to_vec()
    );
}

#[test]
fn encode_keeps_the_first_of_members_with_the_same_key() {
    let doc = Json::Object(vec![
        ("a".to_string(), Json::Bool(true)),
        ("a".to_string(), Json::Bool(false)),
    ]);
    assert!(matches!(doc.member("a"), Some(Json::Bool(true))));
    assert_eq!(encode(&doc), b"{\"a\":true}".to_vec());
}

#[test]
fn encode_then_decode_gives_the_document_back() {
    let text = b"{\"a\":[1,-2,0.25,null,true,\"x\\ny\"],\"b\":{\"c\":18446744073709551615}}";
    let doc = decode(text).unwrap();
    assert_eq!(encode(&doc), text.to_vec());
}

#[test]
fn members_and_items_can_be_taken_out() {
    let doc = decode(b"{\"a\": [1, 2], \"b\": \"t\"}").unwrap();
    assert!(doc.member("b").unwrap().as_text().map(|t| t == "t").unwrap());
    assert!(doc.member("b").unwrap().as_array().is_none());
    assert!(doc.member("a").unwrap().as_text().is_none());
    assert!(doc.member("a").unwrap().as_u64().is_none());
    let items = doc.into_member("a").unwrap().into_array().unwrap();
    assert_eq!(items.len(), 2);
    assert_eq!(items[1].as_u64(), Some(2));
    assert!(Json::Null.into_member("a").is_none());
    assert!(Json::Text("a".to_string()).into_array().is_none());
    assert!(Json::Array(vec![]).member("a").is_none());
}

#[test]
fn texts_are_equal_when_their_characters_are() {
    assert!(text_eq("", ""));
    assert!(text_eq("\u{e9}a", "\u{e9}a"));
    assert!(!text_eq("a", "b"));
    assert!(!text_eq("a", "ab"));
    assert!(!text_eq("ab", "a"));
}

#[test]
fn payload_is_the_document_or_invalid() {
    let failure = serde_json::from_str::<serde_json::Value>("{").unwrap_err();
    assert!(matches!(
        payload(Err(failure)),
        Err(ConnectorError::Parse(ParseFailure::InvalidPayload))
    ));
    assert!(matches!(payload(Ok(Json::Bool(true))), Ok(Json::Bool(true))));
}

#[test]
fn numbers_are_classified_as_the_codec_does() {
    let doc = decode(b"[0, 18446744073709551615, -1, -9223372036854775808, 1e3, 1.0, 18446744073709551616]")
        .unwrap();
    let items = doc.as_array().unwrap();
    assert_eq!(items[0].as_u64(), Some(0));
    assert_eq!(items[1].as_u64(), Some(u64::MAX));
    assert!(matches!(&items[2], Json::Number(JsonNumber::Negative(-1))));
    assert!(matches!(&items[3], Json::Number(JsonNumber::Negative(i64::MIN))));
    assert!(matches!(&items[4], Json::Number(JsonNumber::Real(t)) if t == "1000.0"));
    assert!(matches!(&items[5], Json::Number(JsonNumber::Real(t)) if t == "1.0"));
    assert!(matches!(&items[6], Json::Number(JsonNumber::Real(_))));
    assert_eq!(items[4].as_u64(), None);
    assert_eq!(items[2].as_u64(), None);
}

#[test]
fn encode_drops_repeated_keys_at_any_depth() {
    let inner = Json::Object(vec![
        ("k".to_string(), Json::Text("first".to_string())),
        ("j".to_string(), Json::Null),
        ("k".to_string(), Json::Text("second".to_string())),
    ]);
    let doc = Json::Array(vec![Json::Object(vec![
        ("b".to_string(), inner),
        ("a".to_string(), Json::Bool(false)),
        ("b".to_string(), Json::Bool(true)),
        ("a".to_string(), Json::Bool(true)),
    ])]);
    assert_eq!(encode(&doc), b"[{\"a\":false,\"b\":{\"j\":null,\"k\":\"first\"}}]".to_vec());
}

#[test]
fn copy_without_repeats_keeps_the_first_and_the_order() {
    let doc = Json::Object(vec![
        ("z".to_string(), Json::Bool(true)),
        ("a".to_string(), Json::Null),
        ("z".to_string(), Json::Bool(false)),
        ("m".to_string(), Json::Array(vec![Json::Object(vec![
            ("x".to_string(), Json::Null),
            ("x".to_string(), Json::Bool(true)),
        ])])),
        ("a".to_string(), Json::Bool(true)),
    ]);
    match doc.without_repeats() {
        Json::Object(members) => {
            let keys: Vec<&str> = members.iter().map(|(k, _)| k.as_str()).collect();
            assert_eq!(keys, vec!["z", "a", "m"]);
            assert!(matches!(members[0].1, Json::Bool(true)));
            assert!(matches!(members[1].1, Json::Null));
            match &members[2].1 {
                Json::Array(items) => match &items[0] {
                    Json::Object(inner) => {
                        assert_eq!(inner.len(), 1);
                        assert!(matches!(inner[0].1, Json::Null));
                    }
                    _ => panic!("the item is no object"),
                },
                _ => panic!("the member is no array"),
            }
        }
        _ => panic!("the copy is no object"),
    }
}

#[test]
fn copy_holds_what_the_document_holds() {
    let text = b"{\"a\":[1,-2,0.25,null,true,\"x\"],\"b\":{\"c\":{\"d\":[]}}}";
    let doc = decode(text).unwrap();
    let copy = doc.duplicate();
    assert_eq!(encode(&copy), text.to_vec());
    assert_eq!(encode(&doc), text.to_vec());
    let repeated = Json::Object(vec![
        ("a".to_string(), Json::Bool(true)),
        ("a".to_string(), Json::Bool(false)),
    ]);
    assert!(matches!(repeated.duplicate(), Json::Object(m) if m.len() == 2));
}

#[test]
fn real_is_written_as_the_number_its_text_holds() {
    let real = |t: &str| Json::Number(JsonNumber::Real(t.to_string()));
    assert_eq!(encode(&real("2.5")), b"2.5".to_vec());
    assert_eq!(encode(&real("1e3")), b"1000.0".to_vec());
    assert_eq!(encode(&real("7")), b"7".to_vec());
    assert_eq!(encode(&real("[1]")), b"null".to_vec());
    assert_eq!(encode(&real("\"x\"")), b"null".to_vec());
    assert_eq!(encode(&real("true")), b"null".to_vec());
    assert_eq!(encode(&real("")), b"null".to_vec());
}

use soundsync::json::{from_text, to_pretty_text, to_text, Json};

#[test]
fn documents_are_read_as_they_stand() {
    let j = from_text(r#"{"a":[1,-1,1.5,true,null,"x"],"b":{"c":"d"},"b2":0}"#).unwrap();
    let a = j.get("a").unwrap().as_array().unwrap();
    assert_eq!(a[0].as_u64(), Some(1));
    assert_eq!(a[0].as_i64(), Some(1));
    assert_eq!(a[0].as_fraction(), None);
    assert_eq!(a[1], Json::signed(-1));
    assert_eq!(a[1].as_u64(), None);
    assert_eq!(a[1].as_i64(), Some(-1));
    assert_eq!(a[1].as_fraction(), None);
    assert_eq!(a[2].as_u64(), None);
    assert_eq!(a[2].as_i64(), None);
    assert_eq!(a[2].as_fraction().as_deref(), Some("1.5"));
    assert_eq!(a[3].as_fraction(), None);
    assert_eq!(a[3], Json::Bool(true));
    assert_eq!(a[4], Json::Null);
    assert_eq!(a[5].as_str(), Some("x"));
    assert_eq!(j.get("b").unwrap().get("c").unwrap().as_str(), Some("d"));
    assert!(j.get("missing").is_none());
    assert!(a[0].get("x").is_none());
    assert!(from_text("{").is_none());
}

#[test]
fn of_two_members_with_one_key_the_later_counts() {
    let j = from_text(r#"{"a":1,"a":2}"#).unwrap();
    assert_eq!(j.get("a").unwrap().as_u64(), Some(2));
    let twice = Json::Object(vec![
        ("a".to_string(), Json::Bool(false)),
        ("a".to_string(), Json::Bool(true)),
    ]);
    assert_eq!(twice.get("a"), Some(&Json::Bool(true)));
    assert_eq!(to_text(&twice), r#"{"a":true}"#);
}

#[test]
fn written_documents_read_back() {
    let j = Json::Object(vec![
        ("list".to_string(), Json::Array(vec![Json::unsigned(u64::MAX), Json::Null])),
        ("text".to_string(), Json::Text("a \"b\"\n".to_string())),
    ]);
    let compact = to_text(&j);
    assert_eq!(compact, r#"{"list":[18446744073709551615,null],"text":"a \"b\"\n"}"#);
    assert_eq!(from_text(&compact), Some(j));
    let again = from_text(&compact).unwrap();
    let pretty = to_pretty_text(&again).unwrap();
    assert!(pretty.starts_with("{\n  \"list\": [\n"));
    assert_eq!(from_text(&pretty), Some(again));
}

#[test]
fn deep_documents_read_back_down_to_the_limit() {
    let mut j = Json::Null;
    for _ in 0..127 {
        j = Json::Array(vec![j]);
    }
    let text = to_text(&j);
    assert_eq!(from_text(&text), Some(j));
    assert_eq!(from_text(&format!("[{text}]")), None);
}

#[test]
fn every_kind_of_number_is_kept() {
    let text = "[0,18446744073709551615,-9223372036854775808,-0.25,1e300]";
    let j = from_text(text).unwrap();
    let items = j.as_array().unwrap();
    assert_eq!(items[1].as_u64(), Some(u64::MAX));
    assert_eq!(items[1].as_i64(), None);
    assert_eq!(items[2], Json::signed(i64::MIN));
    assert_eq!(items[2].as_i64(), Some(i64::MIN));
    assert_eq!(items[3].as_fraction().as_deref(), Some("-0.25"));
    assert_eq!(from_text(&to_text(&j)), Some(j));
    assert_eq!(Json::signed(7), Json::unsigned(7));
    assert_eq!(to_text(&Json::signed(-7)), "-7");
}

#[test]
fn a_fraction_may_be_read_as_its_neighbour() {
    let j = Json::Number(serde_json::Number::from_f64(31.245270191439438).unwrap());
    assert_eq!(to_text(&j), "31.245270191439438");
    assert_ne!(from_text(&to_text(&j)), Some(j));
}

#[test]
fn each_key_is_written_once_with_what_came_last() {
    let members = vec![
        ("b".to_string(), Json::unsigned(1)),
        ("a".to_string(), Json::unsigned(2)),
        ("b".to_string(), Json::unsigned(3)),
        ("a".to_string(), Json::Null),
    ];
    assert_eq!(to_text(&Json::Object(members)), r#"{"a":null,"b":3}"#);
}

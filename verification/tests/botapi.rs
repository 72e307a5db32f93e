//! Response parsing, against the shapes the Bot API actually sends.
use crew_app::botapi::{get, parse_updates, Json};
use crew_app::telegram::Update;

fn from_serde(v: serde_json::Value) -> Json {
    match v {
        serde_json::Value::Null => Json::Null,
        serde_json::Value::Bool(b) => Json::Bool(b),
        serde_json::Value::Number(n) => Json::Number(n.as_i64()),
        serde_json::Value::String(s) => Json::Str(s),
        serde_json::Value::Array(a) => Json::Array(a.into_iter().map(from_serde).collect()),
        serde_json::Value::Object(o) => {
            Json::Object(o.into_iter().map(|(k, v)| (k, from_serde(v))).collect())
        }
    }
}

fn json(s: &str) -> Json {
    from_serde(serde_json::from_str(s).expect("test json"))
}

#[test]
fn a_text_message_becomes_an_update() {
    let v = json(
        r#"{"ok":true,"result":[
            {"update_id":11,"message":{"message_id":1,"chat":{"id":4242,"type":"private"},"text":"hello"}}
        ]}"#,
    );
    assert_eq!(
        parse_updates(&v),
        vec![Update {
            update_id: 11,
            chat_id: 4242,
            text: "hello".into()
        }]
    );
}

#[test]
fn non_message_updates_are_skipped_without_losing_their_neighbours() {
    let v = json(
        r#"{"ok":true,"result":[
            {"update_id":1,"message":{"chat":{"id":7},"text":"first"}},
            {"update_id":2,"edited_message":{"chat":{"id":7},"text":"edited"}},
            {"update_id":3,"message":{"chat":{"id":7},"photo":[]}},
            {"update_id":4,"message":{"chat":{"id":7},"text":"last"}}
        ]}"#,
    );
    let got = parse_updates(&v);
    assert_eq!(got.len(), 2, "two text messages survive: {got:?}");
    assert_eq!(got[0].text, "first");
    assert_eq!(got[1].text, "last");
    assert_eq!(got[1].update_id, 4, "the id is the real one, not a count");
}

#[test]
fn an_empty_or_malformed_response_yields_nothing_rather_than_panicking() {
    assert!(parse_updates(&json(r#"{"ok":true,"result":[]}"#)).is_empty());
    assert!(parse_updates(&json(r#"{"ok":false,"description":"nope"}"#)).is_empty());
    assert!(parse_updates(&json("{}")).is_empty());
    assert!(parse_updates(&json("[]")).is_empty());
}

#[test]
fn ids_that_are_not_integers_drop_only_their_own_update() {
    let v = json(
        r#"{"result":[
            {"update_id":1.5,"message":{"chat":{"id":7},"text":"fractional id"}},
            {"update_id":2,"message":{"chat":{"id":"7"},"text":"string chat"}},
            {"update_id":3,"message":{"chat":{"id":-100123},"text":"group"}}
        ]}"#,
    );
    let got = parse_updates(&v);
    assert_eq!(got.len(), 1);
    assert_eq!((got[0].update_id, got[0].chat_id), (3, -100123));
}

#[test]
fn get_reads_an_objects_member_and_nothing_else() {
    let v = json(r#"{"a":1,"b":"two"}"#);
    assert!(matches!(get(&v, "a"), Some(Json::Number(Some(1)))));
    assert!(matches!(get(&v, "b"), Some(Json::Str(s)) if s == "two"));
    assert!(get(&v, "c").is_none());
    assert!(get(&json("[1]"), "a").is_none());
}

//! The envelope codec: construction, serialization, parsing, round trips.

use nexus::envelope::{CloudEvent, MalformedEnvelope};
use nexus::json::JsonValue;

fn obj(members: Vec<(&str, JsonValue)>) -> JsonValue {
    JsonValue::Obj(members.into_iter().map(|(k, v)| (k.to_string(), v)).collect())
}

fn text_of(v: &JsonValue) -> String {
    nexus::json::to_text(v).into_iter().collect()
}

#[test]
fn test_create_cloud_event() {
    let event = CloudEvent::new("com.example.test", "/api/test")
        .with_data(obj(vec![("test", JsonValue::Bool(true))]));

    assert_eq!(event.specversion, "1.0");
    assert_eq!(event.event_type, "com.example.test");
    assert_eq!(event.source, "/api/test");
    assert!(event.data.is_some());
}

#[test]
fn test_serialize_deserialize() {
    let event = CloudEvent::new("test.event", "/source")
        .with_data(obj(vec![("key", JsonValue::Str("value".to_string()))]));

    let json = event.to_json();
    let deserialized = CloudEvent::from_json(&json).unwrap();

    assert_eq!(event.id, deserialized.id);
    assert_eq!(event.event_type, deserialized.event_type);
}

#[test]
fn envelope_round_trip_preserves_every_field() {
    let event = CloudEvent::new("com.nexus.user.created", "/api/webhook")
        .with_data(obj(vec![
            ("name", JsonValue::Str("x".to_string())),
            ("count", JsonValue::Int(-42)),
            ("tags", JsonValue::Arr(vec![JsonValue::Null, JsonValue::Bool(false)])),
        ]))
        .with_extension("traceparent".to_string(), JsonValue::Str("00-abc".to_string()));

    let bytes = event.to_json_bytes();
    let back = CloudEvent::from_json_bytes(bytes).unwrap();

    assert_eq!(back.specversion, event.specversion);
    assert_eq!(back.event_type, event.event_type);
    assert_eq!(back.source, event.source);
    assert_eq!(back.id, event.id);
    assert_eq!(back.time, event.time);
    assert_eq!(back.datacontenttype, event.datacontenttype);
    assert_eq!(
        text_of(back.data.as_ref().unwrap()),
        text_of(event.data.as_ref().unwrap())
    );
    assert_eq!(back.extensions.len(), 1);
    assert_eq!(back.extensions[0].0, "traceparent");
}

#[test]
fn envelope_ids_are_distinct() {
    let a = CloudEvent::new("t", "/s");
    let b = CloudEvent::new("t", "/s");
    let c = CloudEvent::new("t", "/s");
    assert_ne!(a.id, b.id);
    assert_ne!(a.id, c.id);
    assert_ne!(b.id, c.id);
    assert_eq!(a.id.len(), 36);
}

#[test]
fn json_text_is_exact() {
    let v = obj(vec![
        ("a", JsonValue::Int(0)),
        ("b", JsonValue::Arr(vec![JsonValue::Int(1), JsonValue::Int(-2)])),
        ("c", JsonValue::Str("x\"y\\z".to_string())),
    ]);
    assert_eq!(text_of(&v), "{\"a\":0,\"b\":[1,-2],\"c\":\"x\\\"y\\\\z\"}");
}

#[test]
fn json_round_trips_edge_integers_and_escapes() {
    let v = obj(vec![
        ("min", JsonValue::Int(i64::MIN)),
        ("max", JsonValue::Int(i64::MAX)),
        ("ctrl", JsonValue::Str("a\nb\tc\u{1}".to_string())),
    ]);
    let text: Vec<char> = text_of(&v).chars().collect();
    let back = nexus::json::parse_text(&text).unwrap();
    assert_eq!(text_of(&back), text_of(&v));
}

#[test]
fn json_rejects_malformed_documents() {
    for bad in ["", "{", "[1,", "{\"a\":}", "1.5", "1e3", "01", "\"unterminated", "nul"] {
        let cs: Vec<char> = bad.chars().collect();
        assert!(nexus::json::parse_text(&cs).is_none(), "accepted: {}", bad);
    }
    let trailing: Vec<char> = "{} ".chars().collect();
    assert!(nexus::json::parse_text(&trailing).is_none());
}

#[test]
fn from_json_rejects_missing_required_attributes() {
    assert!(matches!(
        CloudEvent::from_json("{\"specversion\":\"1.0\",\"type\":\"t\"}"),
        Err(MalformedEnvelope)
    ));
    assert!(matches!(CloudEvent::from_json("[1,2]"), Err(MalformedEnvelope)));
    // An ill-typed required attribute is rejected too.
    assert!(matches!(
        CloudEvent::from_json(
            "{\"specversion\":\"1.0\",\"type\":\"t\",\"source\":\"/s\",\"id\":7,\"time\":\"now\"}"
        ),
        Err(MalformedEnvelope)
    ));
}

#[test]
fn from_json_accepts_a_minimal_envelope_and_collects_extensions() {
    let ce = CloudEvent::from_json(
        "{\"specversion\":\"1.0\",\"type\":\"a.b\",\"source\":\"/s\",\"id\":\"E1\",\
         \"time\":\"2024-01-01T00:00:00+00:00\",\"myext\":5}",
    )
    .unwrap();
    assert_eq!(ce.event_type, "a.b");
    assert_eq!(ce.id, "E1");
    assert!(ce.datacontenttype.is_none());
    assert!(ce.data.is_none());
    assert_eq!(ce.extensions.len(), 1);
    assert_eq!(ce.extensions[0].0, "myext");
}

#[test]
fn from_json_bytes_rejects_invalid_utf8() {
    assert!(matches!(
        CloudEvent::from_json_bytes(vec![0xff, 0xfe, 0x00]),
        Err(MalformedEnvelope)
    ));
}

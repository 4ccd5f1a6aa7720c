//! Ingestion, publishing, dispatch, configuration and the event-log scans.

use nexus::config::{FunctionConfig, HttpTrigger, NatsTrigger, NexusConfig, TriggerConfig};
use nexus::dispatch::FunctionExecutor;
use nexus::envelope::CloudEvent;
use nexus::errors::NexusError;
use nexus::json::JsonValue;
use nexus::publish;
use nexus::store;
use nexus::webhook::WebhookHandler;

fn function(name: &str, on: TriggerConfig) -> FunctionConfig {
    FunctionConfig {
        name: name.to_string(),
        on,
        runtime: "wasi-preview1".to_string(),
        code: "./test.wasm".to_string(),
        timeout: "5s".to_string(),
        memory: "128Mi".to_string(),
        env: Vec::new(),
    }
}

fn http_trigger() -> TriggerConfig {
    TriggerConfig {
        http: Some(HttpTrigger { method: "POST".to_string(), path: "/test".to_string() }),
        nats: None,
    }
}

fn stream_trigger(subject: &str) -> TriggerConfig {
    TriggerConfig { http: None, nats: Some(NatsTrigger { subject: subject.to_string() }) }
}

#[test]
fn test_find_matching_functions() {
    let config = NexusConfig {
        version: "v1".to_string(),
        functions: vec![function("test-func", http_trigger())],
    };
    let executor = FunctionExecutor::new(config).unwrap();

    let matches = executor.find_matching_functions("com.nexus.test.event");
    assert_eq!(matches.len(), 1);
    assert_eq!(matches[0], "test-func");
}

#[test]
fn dispatch_matches_in_declaration_order() {
    let config = NexusConfig {
        version: "v1".to_string(),
        functions: vec![
            function("fA", stream_trigger("user")),
            function("fB", http_trigger()),
            function("fC", stream_trigger("billing")),
        ],
    };
    let executor = FunctionExecutor::new(config).unwrap();

    let matches = executor.find_matching_functions("com.nexus.user.created");
    assert_eq!(matches, vec!["fA".to_string(), "fB".to_string()]);

    // The subject "billing" is contained in this type, so fC fires too.
    let matches = executor.find_matching_functions("billing.invoice.created");
    assert_eq!(matches, vec!["fB".to_string(), "fC".to_string()]);
}

#[test]
fn dispatch_is_deterministic() {
    let config = NexusConfig {
        version: "v1".to_string(),
        functions: vec![function("fA", stream_trigger("user")), function("fB", http_trigger())],
    };
    let executor = FunctionExecutor::new(config).unwrap();
    let once = executor.find_matching_functions("com.nexus.user.created");
    let twice = executor.find_matching_functions("com.nexus.user.created");
    assert_eq!(once, twice);
}

#[test]
fn lookup_function_finds_the_first_with_the_name() {
    let config = NexusConfig {
        version: "v1".to_string(),
        functions: vec![function("a", http_trigger()), function("b", http_trigger())],
    };
    let executor = FunctionExecutor::new(config).unwrap();
    assert_eq!(executor.lookup_function("b").unwrap().name, "b");
    assert!(executor.lookup_function("missing").is_none());
}

fn config_error_message(r: Result<(), NexusError>) -> String {
    match r {
        Err(NexusError::ConfigError { message }) => message,
        _ => panic!("expected a configuration error"),
    }
}

#[test]
fn config_rejects_duplicate_names() {
    let config = NexusConfig {
        version: "v1".to_string(),
        functions: vec![function("f", http_trigger()), function("f", http_trigger())],
    };
    assert_eq!(config_error_message(config.validate()), "Duplicate function name: f");
}

#[test]
fn config_rejects_bad_version_runtime_code_and_trigger() {
    let bad_version = NexusConfig { version: "v2".to_string(), functions: vec![] };
    assert_eq!(
        config_error_message(bad_version.validate()),
        "Unsupported configuration version: v2"
    );

    let mut f = function("g", http_trigger());
    f.runtime = "jvm".to_string();
    let bad_runtime = NexusConfig { version: "v1".to_string(), functions: vec![f] };
    assert_eq!(
        config_error_message(bad_runtime.validate()),
        "Invalid runtime 'jvm' for function 'g'. Valid options: wasi-preview1, wasi-preview2"
    );

    let mut f = function("g", http_trigger());
    f.code = String::new();
    let bad_code = NexusConfig { version: "v1".to_string(), functions: vec![f] };
    assert_eq!(config_error_message(bad_code.validate()), "Function 'g' has empty code path");

    let f = function("g", TriggerConfig { http: None, nats: None });
    let bad_trigger = NexusConfig { version: "v1".to_string(), functions: vec![f] };
    assert_eq!(
        config_error_message(bad_trigger.validate()),
        "Function 'g' must have at least one trigger (http or nats)"
    );
}

#[test]
fn config_accepts_a_valid_catalog() {
    let config = NexusConfig {
        version: "v1".to_string(),
        functions: vec![function("a", http_trigger()), function("b", stream_trigger("user"))],
    };
    assert!(config.validate().is_ok());
}

#[test]
fn published_subject_escapes_the_type() {
    let ce = CloudEvent::new("com.nexus.user.created", "/api/webhook");
    assert_eq!(publish::event_subject(&ce), "events.com_nexus_user_created");

    let plan = publish::publish_plan(&ce);
    assert_eq!(plan.subject, "events.com_nexus_user_created");
    assert_eq!(plan.payload, ce.to_json_bytes());
}

#[test]
fn replay_republishes_the_same_envelope() {
    let stored = CloudEvent::new("com.nexus.x", "/api/webhook")
        .with_data(JsonValue::Str("payload".to_string()));
    let plan = publish::publish_plan(&stored);
    let replayed = CloudEvent::from_json_bytes(plan.payload).unwrap();
    assert_eq!(replayed.id, stored.id);
    assert_eq!(replayed.time, stored.time);
    assert_eq!(replayed.event_type, stored.event_type);
    assert!(matches!(replayed.data, Some(JsonValue::Str(s)) if s == "payload"));
}

#[test]
fn webhook_paths_become_event_types() {
    let handler = WebhookHandler::new();
    let body = JsonValue::Obj(vec![("name".to_string(), JsonValue::Str("x".to_string()))]);
    let ce = handler.to_cloud_event("/webhook/user/created", body);
    assert_eq!(ce.event_type, "com.nexus.user.created");
    assert_eq!(ce.source, "/api/webhook");
    assert!(ce.data.is_some());

    let ce = WebhookHandler::new().to_cloud_event("/events/billing/paid", JsonValue::Null);
    assert_eq!(ce.event_type, "com.nexus.billing.paid");

    let ce = WebhookHandler::new().to_cloud_event("/other", JsonValue::Null);
    assert_eq!(ce.event_type, "com.nexus.unknown");

    assert_eq!(nexus::webhook::event_type_from_tail("user/created"), "com.nexus.user.created");
}

#[test]
fn root_events_take_their_type_from_the_body() {
    let body = JsonValue::Obj(vec![
        ("event_type".to_string(), JsonValue::Str("user.created".to_string())),
        ("name".to_string(), JsonValue::Str("x".to_string())),
    ]);
    let (event_type, data) = nexus::webhook::root_event(body);
    assert_eq!(event_type, "com.nexus.user.created");
    match data {
        JsonValue::Obj(ms) => {
            assert_eq!(ms.len(), 1);
            assert_eq!(ms[0].0, "name");
        },
        _ => panic!("expected an object"),
    }

    let (event_type, _) = nexus::webhook::root_event(JsonValue::Null);
    assert_eq!(event_type, "com.nexus.generic.event");
}

#[test]
fn event_log_scans_find_by_id_and_respect_the_limit() {
    let a = CloudEvent::new("a.b", "/s");
    let b = CloudEvent::new("a.b", "/s");
    let c = CloudEvent::new("a.c", "/s");
    let payloads = vec![
        a.to_json_bytes(),
        vec![0xff],  // a record that is not an envelope is passed over
        b.to_json_bytes(),
        c.to_json_bytes(),
    ];

    let found = store::find_event_by_id(&payloads, &b.id).unwrap();
    assert_eq!(found.id, b.id);
    assert!(store::find_event_by_id(&payloads, "absent").is_none());

    let listed = store::collect_events(&payloads, 2);
    assert_eq!(listed.len(), 2);
    assert_eq!(listed[0].id, a.id);
    assert_eq!(listed[1].id, b.id);

    let all = store::collect_events(&payloads, 10);
    assert_eq!(all.len(), 3);
}

#[test]
fn list_filter_subjects_and_fetch_counts() {
    assert_eq!(store::filter_subject("events", Some("a.b")), "events.a_b");
    assert_eq!(store::filter_subject("events", None), "events.*");
    assert_eq!(store::fetch_count(10), 10);
    assert_eq!(store::fetch_count(5000), 1000);
}

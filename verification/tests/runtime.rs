//! The sandbox executor, its cache, the metrics, errors and the small
//! runtime helpers.

use nexus::errors::NexusError;
use nexus::metrics::{ExecutionTimer, MetricsData};
use nexus::sandbox::{StartOutcome, WasmExecutor, WasmLoader};
use nexus::stream::{next_retry, stream_settings, RetryDecision};

/// The smallest well-formed module: magic and version only.
fn empty_module() -> Vec<u8> {
    vec![0x00, 0x61, 0x73, 0x6d, 0x01, 0x00, 0x00, 0x00]
}

/// The same module with an empty custom section appended: different bytes,
/// different digest.
fn empty_module_with_custom_section() -> Vec<u8> {
    let mut m = empty_module();
    m.extend_from_slice(&[0x00, 0x01, 0x00]);
    m
}

#[test]
fn test_executor_creation() {
    let executor = WasmExecutor::new();
    assert!(executor.is_ok());
}

#[test]
fn cache_grows_once_per_module_and_entry_point() {
    let mut executor = WasmExecutor::new().unwrap();
    let module = empty_module();

    executor.get_or_compile_module(&module, None).unwrap();
    assert_eq!(executor.cache_stats().0, 1);

    // The second resolution of the same module is a hit.
    executor.get_or_compile_module(&module, None).unwrap();
    assert_eq!(executor.cache_stats().0, 1);

    // A named entry point is its own cache line.
    executor.get_or_compile_module(&module, Some("run")).unwrap();
    assert_eq!(executor.cache_stats().0, 2);

    // Different bytes digest differently.
    let other = empty_module_with_custom_section();
    executor.get_or_compile_module(&other, None).unwrap();
    assert_eq!(executor.cache_stats().0, 3);

    executor.clear_cache();
    assert_eq!(executor.cache_stats().0, 0);
}

#[test]
fn compiling_garbage_fails_and_leaves_the_cache_alone() {
    let mut executor = WasmExecutor::new().unwrap();
    assert!(executor.get_or_compile_module(&[1, 2, 3], None).is_err());
    assert_eq!(executor.cache_stats().0, 0);
}

#[test]
fn default_mode_tolerates_a_trap() {
    let ok = nexus::sandbox::finish_default_run(5, StartOutcome::Completed);
    let trapped = nexus::sandbox::finish_default_run(
        5,
        StartOutcome::Trapped("unreachable".to_string()),
    );
    let expected =
        "{\"status\":\"executed\",\"input_size\":5,\"message\":\"Function executed successfully\"}";
    assert_eq!(String::from_utf8(ok).unwrap(), expected);
    assert_eq!(String::from_utf8(trapped).unwrap(), expected);
}

#[test]
fn named_mode_fails_on_missing_export_and_on_trap() {
    let out = nexus::sandbox::finish_named_run("run", 3, StartOutcome::Completed).unwrap();
    assert_eq!(
        String::from_utf8(out).unwrap(),
        "{\"status\":\"executed\",\"function\":\"run\",\"input_size\":3}"
    );

    match nexus::sandbox::finish_named_run("run", 3, StartOutcome::Missing) {
        Err(NexusError::WasmError { function, message }) => {
            assert_eq!(function, "run");
            assert_eq!(message, "Function 'run' not found in module");
        },
        _ => panic!("expected a sandbox error"),
    }

    match nexus::sandbox::finish_named_run("run", 3, StartOutcome::Trapped("boom".to_string())) {
        Err(NexusError::WasmError { message, .. }) => {
            assert_eq!(message, "Failed to execute function 'run': boom");
        },
        _ => panic!("expected a sandbox error"),
    }
}

#[test]
fn loader_checks_magic_and_extension() {
    let loader = WasmLoader::new();
    assert!(loader.validate_module_bytes(&empty_module()));
    assert!(!loader.validate_module_bytes(&[0x00, 0x61, 0x73]));
    assert!(!loader.validate_module_bytes(b"wasm"));
    assert!(loader.has_wasm_extension("handler.wasm"));
    assert!(!loader.has_wasm_extension("handler.txt"));
    assert!(!loader.has_wasm_extension("wasm"));
}

#[test]
fn metrics_count_and_derive_rates() {
    let mut m = MetricsData::new();
    m.increment_events_published();
    m.increment_events_published();
    m.increment_events_replayed();
    m.increment_events_failed();
    m.record_function_execution(10, true);
    m.record_function_execution(30, false);
    m.set_nats_connected(true);
    m.update_uptime(7);

    let snap = m.get_metrics();
    assert_eq!(snap.events.published, 2);
    assert_eq!(snap.events.replayed, 1);
    assert_eq!(snap.events.failed, 1);
    // 2 of 3 events went through: 66.66%.
    assert_eq!(snap.events.success_rate_centi_pct, 6666);
    assert_eq!(snap.functions.executed, 2);
    assert_eq!(snap.functions.succeeded, 1);
    assert_eq!(snap.functions.failed, 1);
    assert_eq!(snap.functions.success_rate_centi_pct, 5000);
    assert_eq!(snap.functions.avg_execution_time_ms, 20);
    assert!(snap.system.nats_connected);
    assert_eq!(snap.system.uptime_seconds, 7);

    // A trap tolerated in default mode counts as a success: executed moves,
    // failed does not.
    m.record_function_execution(1, true);
    let snap = m.get_metrics();
    assert_eq!(snap.functions.executed, 3);
    assert_eq!(snap.functions.failed, 1);
}

#[test]
fn empty_metrics_report_full_success() {
    let snap = MetricsData::new().get_metrics();
    assert_eq!(snap.events.success_rate_centi_pct, 10000);
    assert_eq!(snap.functions.success_rate_centi_pct, 10000);
    assert_eq!(snap.functions.avg_execution_time_ms, 0);
}

#[test]
fn execution_timer_moves_forward() {
    let timer = ExecutionTimer::start();
    let a = timer.elapsed_ms();
    let b = timer.elapsed_ms();
    assert!(b >= a);
}

#[test]
fn error_codes_statuses_and_responses() {
    let e = NexusError::NotFound { resource: "Event".to_string(), id: "E1".to_string() };
    assert_eq!(e.status_code(), 404);
    let r = e.to_response(Some("T1".to_string()));
    assert_eq!(r.error.code, "NOT_FOUND");
    assert_eq!(r.error.message, "Event not found: E1");
    assert!(r.error.details.is_some());
    assert_eq!(r.trace_id.as_deref(), Some("T1"));

    let e = NexusError::NatsError { message: "not connected".to_string() };
    assert_eq!(e.status_code(), 503);
    let r = e.to_response(None);
    assert_eq!(r.error.code, "NATS_ERROR");
    assert!(r.error.details.is_none());

    let e = NexusError::InvalidInput { field: "limit".to_string(), message: "bad".to_string() };
    assert_eq!(e.status_code(), 400);
    assert_eq!(e.display_string(), "Invalid input for limit: bad");

    let e = NexusError::ConfigError { message: "oops".to_string() };
    assert_eq!(e.status_code(), 500);
    assert_eq!(e.display_string(), "Configuration error: oops");
    assert_eq!(e.to_response(None).error.code, "CONFIG_ERROR");

    let e = NexusError::WasmError { function: "f".to_string(), message: "trap".to_string() };
    assert_eq!(e.status_code(), 500);
    assert_eq!(e.display_string(), "WASM execution error in f: trap");

    let e = NexusError::InternalError { message: "x".to_string() };
    assert_eq!(e.status_code(), 500);
    assert_eq!(e.to_response(None).error.code, "INTERNAL_ERROR");
}

#[test]
fn request_contexts_carry_their_ids() {
    let ctx = nexus::context::RequestContext::new();
    assert_eq!(ctx.trace_id.len(), 36);
    let ctx2 = nexus::context::RequestContext::new();
    assert_ne!(ctx.trace_id, ctx2.trace_id);
    let ctx = ctx.with_event_id("E1".to_string()).with_function_name("f".to_string());
    assert_eq!(ctx.event_id.as_deref(), Some("E1"));
    assert_eq!(ctx.function_name.as_deref(), Some("f"));
    assert!(nexus::context::get_trace_id().is_none());
}

#[test]
fn stream_plan_and_retry_schedule() {
    let s = stream_settings("events");
    assert_eq!(s.name, "events");
    assert_eq!(s.subject_pattern, "events.*");
    assert_eq!(s.max_messages, 100_000);
    assert_eq!(s.max_age_secs, 604_800);

    assert!(matches!(next_retry(1, 5), RetryDecision::Wait { delay_ms: 500 }));
    assert!(matches!(next_retry(5, 5), RetryDecision::Stop));
}

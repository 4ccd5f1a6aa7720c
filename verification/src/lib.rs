//! Core of an event-driven serverless platform: CloudEvents envelopes with a
//! verified JSON codec, subject derivation for the durable event stream,
//! function-catalog validation, trigger dispatch, and the module cache of the
//! sandboxed executor.

pub mod config;
pub mod context;
pub mod dispatch;
pub mod envelope;
pub mod errors;
pub mod json;
pub mod metrics;
pub mod publish;
pub mod sandbox;
pub mod store;
pub mod stream;
pub mod webhook;
pub mod text;

pub use envelope::CloudEvent;
pub use json::JsonValue;

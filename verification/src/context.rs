//! Per-request tracing context: a trace id and the ids it accumulates on
//! its way through the pipeline.

use vstd::prelude::*;

use crate::envelope;

verus! {

/// What a log line carries about the request being served.
#[derive(Debug, Clone)]
pub struct RequestContext {
    pub trace_id: String,
    pub event_id: Option<String>,
    pub function_name: Option<String>,
}

impl RequestContext {
    /// A fresh context: a new trace id and nothing else yet.
    pub fn new() -> (r: RequestContext)
        ensures
            r.trace_id@.len() == 36,
            r.event_id is None,
            r.function_name is None,
    {
        RequestContext {
            trace_id: envelope::fresh_uuid_string(),
            event_id: None,
            function_name: None,
        }
    }

    /// The same context, now tied to an event.
    pub fn with_event_id(self, event_id: String) -> (r: RequestContext)
        ensures
            r.trace_id == self.trace_id,
            r.event_id == Some(event_id),
            r.function_name == self.function_name,
    {
        RequestContext { event_id: Some(event_id), ..self }
    }

    /// The same context, now tied to a function.
    pub fn with_function_name(self, function_name: String) -> (r: RequestContext)
        ensures
            r.trace_id == self.trace_id,
            r.event_id == self.event_id,
            r.function_name == Some(function_name),
    {
        RequestContext { function_name: Some(function_name), ..self }
    }
}

/// The trace id of the surrounding span. Span contexts are not wired up
/// yet, so no id is ever found.
pub fn get_trace_id() -> (r: Option<String>)
    ensures
        r is None,
{
    None
}

} // verus!

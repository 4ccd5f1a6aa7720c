//! Subject derivation and publish planning: what goes onto the durable
//! stream when an envelope is published or replayed.

use vstd::prelude::*;

use crate::envelope;
use crate::envelope::{CloudEvent, CloudEventV};
use crate::text;

verus! {

use vstd::utf8::encode_utf8;

/// The subject prefix of the event stream.
pub open spec fn events_prefix() -> Seq<char> {
    seq!['e', 'v', 'e', 'n', 't', 's', '.']
}

/// The subject an event of the given type is published on:
/// `events.<type with dots replaced by underscores>`.
pub open spec fn subject_for(event_type: Seq<char>) -> Seq<char> {
    events_prefix() + text::replace_char(event_type, '.', '_')
}

/// The subject for one envelope: `events.` followed by the envelope's type
/// with every `.` replaced by `_`.
pub fn event_subject(ce: &CloudEvent) -> (r: String)
    ensures
        r@ == subject_for(ce@.event_type),
{
    let escaped = text::replace_chars(ce.event_type.as_str(), '.', '_');
    let r = text::concat_str("events.", escaped.as_str());
    proof {
        reveal_strlit("events.");
        assert("events."@ =~= events_prefix());
    }
    r
}

/// What one publish puts on the stream: the derived subject and the
/// envelope's serialized bytes.
pub struct PublishPlan {
    pub subject: String,
    pub payload: Vec<u8>,
}

/// The plan for publishing `ce`: subject from [`event_subject`], payload
/// from the envelope codec. Replay uses the same plan on the stored
/// envelope, unchanged.
pub fn publish_plan(ce: &CloudEvent) -> (r: PublishPlan)
    ensures
        r.subject@ == subject_for(ce@.event_type),
        r.payload@ == encode_utf8(envelope::env_text(ce@)),
{
    PublishPlan { subject: event_subject(ce), payload: ce.to_json_bytes() }
}

/// Law: replay preserves identity. The payload that a replay publishes is
/// the stored envelope's own serialization, and reading it back yields that
/// envelope unchanged: same id, time, type, source, data and extensions.
pub proof fn lemma_replay_preserves_identity(e: CloudEventV)
    requires
        envelope::env_wf(e),
    ensures
        envelope::env_of_bytes(encode_utf8(envelope::env_text(e))) == Some(e),
{
    envelope::lemma_envelope_round_trip(e);
}

} // verus!

//! Ingestion adapters: deriving an event type from a webhook path or from a
//! posted body, and building the envelope to publish.

use vstd::prelude::*;

use crate::envelope;
use crate::envelope::CloudEvent;
use crate::json;
use crate::json::{JVal, JsonValue};
use crate::text;

verus! {

/// The event type derived from a request path: the `/events/` or `/webhook/`
/// prefix is stripped, `/` becomes `.`, and `com.nexus.` is prepended; any
/// other path yields `com.nexus.unknown`.
pub open spec fn webhook_type_of(path: Seq<char>) -> Seq<char> {
    if text::has_prefix(path, "/events/"@) {
        "com.nexus."@ + text::replace_char(path.skip("/events/"@.len() as int), '/', '.')
    } else if text::has_prefix(path, "/webhook/"@) {
        "com.nexus."@ + text::replace_char(path.skip("/webhook/"@.len() as int), '/', '.')
    } else {
        "com.nexus."@ + "unknown"@
    }
}

/// Converts webhook requests into envelopes ready to publish.
pub struct WebhookHandler;

impl WebhookHandler {
    pub fn new() -> (r: WebhookHandler) {
        WebhookHandler
    }

    /// A fresh envelope for a webhook request: type from the path, source
    /// `/api/webhook`, the body as data.
    pub fn to_cloud_event(&self, path: &str, body: JsonValue) -> (r: CloudEvent)
        ensures
            r@.event_type == webhook_type_of(path@),
            r@.source == "/api/webhook"@,
            r@.specversion == envelope::specversion_text(),
            r@.id.len() == 36,
            r@.datacontenttype == Some(envelope::dct_default()),
            r@.data == Some(json::jval_of(body)),
            r@.extensions == Seq::<(Seq<char>, JVal)>::empty(),
            envelope::env_wf(r@),
    {
        let event_type = derive_webhook_type(path);
        proof {
            json::lemma_jval_of_wf(body);
        }
        CloudEvent::new(event_type.as_str(), "/api/webhook").with_data(body)
    }
}

/// The event type for a request path, as [`webhook_type_of`] describes it.
pub fn derive_webhook_type(path: &str) -> (r: String)
    ensures
        r@ == webhook_type_of(path@),
{
    match text::strip_prefix_str(path, "/events/") {
        Some(tail) => {
            let dotted = text::replace_chars(tail.as_str(), '/', '.');
            text::concat_str("com.nexus.", dotted.as_str())
        },
        None => match text::strip_prefix_str(path, "/webhook/") {
            Some(tail) => {
                let dotted = text::replace_chars(tail.as_str(), '/', '.');
                text::concat_str("com.nexus.", dotted.as_str())
            },
            None => text::concat_str("com.nexus.", "unknown"),
        },
    }
}

/// The event type for the tail of a matched webhook route, where the router
/// already removed the prefix: `/` becomes `.`, `com.nexus.` is prepended.
pub fn event_type_from_tail(tail: &str) -> (r: String)
    ensures
        r@ == "com.nexus."@ + text::replace_char(tail@, '/', '.'),
{
    let dotted = text::replace_chars(tail, '/', '.');
    text::concat_str("com.nexus.", dotted.as_str())
}

// ---------------------------------------------------------------------------
// Events posted to the collection endpoint: the type rides in the body.
// ---------------------------------------------------------------------------

/// Members without those keyed `k`.
pub open spec fn remove_key(ms: Seq<(Seq<char>, JVal)>, k: Seq<char>) -> Seq<(Seq<char>, JVal)>
    decreases ms.len(),
{
    if ms.len() == 0 {
        Seq::empty()
    } else if ms[0].0 == k {
        remove_key(ms.drop_first(), k)
    } else {
        seq![ms[0]] + remove_key(ms.drop_first(), k)
    }
}

pub proof fn lemma_remove_key_snoc(s: Seq<(Seq<char>, JVal)>, m: (Seq<char>, JVal), k: Seq<char>)
    ensures
        remove_key(s.push(m), k) == if m.0 == k {
            remove_key(s, k)
        } else {
            remove_key(s, k).push(m)
        },
    decreases s.len(),
{
    if s.len() == 0 {
        assert(s =~= Seq::<(Seq<char>, JVal)>::empty());
        assert(s.push(m)[0] == m);
        assert(s.push(m).drop_first() =~= Seq::<(Seq<char>, JVal)>::empty());
        assert(remove_key(Seq::<(Seq<char>, JVal)>::empty(), k) =~= Seq::<
            (Seq<char>, JVal),
        >::empty());
        if m.0 != k {
            assert(remove_key(s.push(m), k) =~= remove_key(s, k).push(m));
        }
    } else {
        assert(s.push(m)[0] == s[0]);
        assert(s.push(m).drop_first() =~= s.drop_first().push(m));
        lemma_remove_key_snoc(s.drop_first(), m, k);
        if m.0 != k {
            if s[0].0 == k {
                assert(remove_key(s.push(m), k) =~= remove_key(s, k).push(m));
            } else {
                assert(remove_key(s.push(m), k) =~= seq![s[0]] + remove_key(
                    s.drop_first(),
                    k,
                ).push(m));
                assert(remove_key(s, k).push(m) =~= seq![s[0]] + remove_key(
                    s.drop_first(),
                    k,
                ).push(m));
            }
        }
    }
}

/// The type of an event posted to the collection endpoint: the body's
/// `event_type` string when there is one, else `generic.event`, prefixed
/// with `com.nexus.`.
pub open spec fn root_type_of(d: JVal) -> Seq<char> {
    match d {
        JVal::Obj(ms) => match envelope::find_key(ms, "event_type"@) {
            Some(JVal::Str(t)) => "com.nexus."@ + t,
            _ => "com.nexus."@ + "generic.event"@,
        },
        _ => "com.nexus."@ + "generic.event"@,
    }
}

/// The data of such an event: the body with every `event_type` member
/// removed; a body that is no object stays as it is.
pub open spec fn root_data_of(d: JVal) -> JVal {
    match d {
        JVal::Obj(ms) => JVal::Obj(remove_key(ms, "event_type"@)),
        _ => d,
    }
}

/// Split a posted body into the full event type and the remaining data.
pub fn root_event(data: JsonValue) -> (r: (String, JsonValue))
    ensures
        r.0@ == root_type_of(json::jval_of(data)),
        json::jval_of(r.1) == root_data_of(json::jval_of(data)),
{
    let k_et = String::from_str("event_type");
    proof {
        assert(k_et@ == "event_type"@);
    }
    match data {
        JsonValue::Obj(ms) => {
            let ghost ml = json::jmembers_of(ms@);
            proof {
                json::lemma_jmembers_of_index(ms@);
            }
            let mut found: Option<Option<String>> = None;
            let mut kept: Vec<(String, JsonValue)> = Vec::new();
            let mut j: usize = 0;
            while j < ms.len()
                invariant
                    j <= ms.len(),
                    ml == json::jmembers_of(ms@),
                    ml.len() == ms@.len(),
                    k_et@ == "event_type"@,
                    forall|i: int|
                        0 <= i < ms@.len() ==> ml[i] == (ms@[i].0@, json::jval_of(ms@[i].1)),
                    envelope::field_matches(
                        found,
                        envelope::find_key(ml.take(j as int), "event_type"@),
                    ),
                    json::jmembers_of(kept@) == remove_key(ml.take(j as int), "event_type"@),
                decreases ms.len() - j,
            {
                let member = &ms[j];
                proof {
                    envelope::lemma_find_key_snoc(ml.take(j as int), ml[j as int], "event_type"@);
                    lemma_remove_key_snoc(ml.take(j as int), ml[j as int], "event_type"@);
                    assert(ml.take(j as int).push(ml[j as int]) =~= ml.take(j + 1int));
                }
                if member.0 == k_et {
                    if found.is_none() {
                        found = match &member.1 {
                            JsonValue::Str(s) => Some(Some(s.clone())),
                            _ => Some(None),
                        };
                    }
                } else {
                    let ghost pre = kept@;
                    kept.push((member.0.clone(), member.1.clone()));
                    proof {
                        json::lemma_jmembers_of_snoc(pre, kept@.last());
                        assert(pre.push(kept@.last()) =~= kept@);
                    }
                }
                j = j + 1;
            }
            proof {
                assert(ml.take(ml.len() as int) =~= ml);
            }
            let event_type = match found {
                Some(Some(t)) => text::concat_str("com.nexus.", t.as_str()),
                _ => text::concat_str("com.nexus.", "generic.event"),
            };
            (event_type, JsonValue::Obj(kept))
        },
        other => {
            let event_type = text::concat_str("com.nexus.", "generic.event");
            (event_type, other)
        },
    }
}

} // verus!

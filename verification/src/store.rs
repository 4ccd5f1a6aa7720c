//! The event log's query core: filter subjects, the bounded scan window,
//! and the scans over fetched payloads. Fetching records from the durable
//! stream is the embedding process's work; what is read out of them is
//! verified here.

use vstd::prelude::*;

use crate::envelope;
use crate::envelope::{CloudEvent, CloudEventV};
use crate::text;

verus! {

/// How many records one scan fetches at most.
pub const SCAN_WINDOW: usize = 1000;

/// How many events a listing returns when the caller names no limit.
pub fn default_limit() -> (r: usize)
    ensures
        r == 100,
{
    100
}

/// The number of records to fetch for a listing: the caller's limit, capped
/// by the scan window.
pub fn fetch_count(limit: usize) -> (r: usize)
    ensures
        r == if limit < 1000 {
            limit as int
        } else {
            1000int
        },
{
    if limit < SCAN_WINDOW {
        limit
    } else {
        SCAN_WINDOW
    }
}

/// The consumer filter subject of a listing: `<stream>.<escaped type>` for a
/// typed listing, else `<stream>.*`.
pub fn filter_subject(stream_name: &str, event_type: Option<&str>) -> (r: String)
    ensures
        match event_type {
            Some(t) => r@ == stream_name@ + "."@ + text::replace_char(t@, '.', '_'),
            None => r@ == stream_name@ + ".*"@,
        },
{
    match event_type {
        Some(t) => {
            let escaped = text::replace_chars(t, '.', '_');
            let head = text::concat_str(stream_name, ".");
            text::concat_str(head.as_str(), escaped.as_str())
        },
        None => text::concat_str(stream_name, ".*"),
    }
}

/// The first envelope among the payloads whose id is `id`; payloads that do
/// not read back as envelopes are passed over.
pub open spec fn found_by_id(ps: Seq<Vec<u8>>, id: Seq<char>) -> Option<CloudEventV>
    decreases ps.len(),
{
    if ps.len() == 0 {
        None
    } else {
        match envelope::env_of_bytes(ps[0]@) {
            Some(e) => if e.id == id {
                Some(e)
            } else {
                found_by_id(ps.drop_first(), id)
            },
            None => found_by_id(ps.drop_first(), id),
        }
    }
}

/// The envelopes read from the payloads in order, stopping once `limit` of
/// them have been accumulated; payloads that do not read back are passed
/// over.
pub open spec fn collected(ps: Seq<Vec<u8>>, limit: nat) -> Seq<CloudEventV>
    decreases ps.len(),
{
    if ps.len() == 0 || limit == 0 {
        Seq::empty()
    } else {
        match envelope::env_of_bytes(ps[0]@) {
            Some(e) => seq![e] + collected(ps.drop_first(), (limit - 1) as nat),
            None => collected(ps.drop_first(), limit),
        }
    }
}

/// Scan fetched payloads for the envelope with this id.
#[verifier::loop_isolation(false)]
pub fn find_event_by_id(payloads: &Vec<Vec<u8>>, event_id: &str) -> (r: Option<CloudEvent>)
    ensures
        match r {
            Some(ce) => found_by_id(payloads@, event_id@) == Some(ce@),
            None => found_by_id(payloads@, event_id@) is None,
        },
{
    let id = event_id.to_owned();
    proof {
        assert(payloads@.skip(0) =~= payloads@);
    }
    let mut j: usize = 0;
    while j < payloads.len()
        invariant
            j <= payloads@.len(),
            id@ == event_id@,
            found_by_id(payloads@, event_id@) == found_by_id(
                payloads@.skip(j as int),
                event_id@,
            ),
        decreases payloads.len() - j,
    {
        proof {
            assert(payloads@.skip(j as int)[0] == payloads@[j as int]);
            assert(payloads@.skip(j as int).drop_first() =~= payloads@.skip(j + 1int));
        }
        match CloudEvent::from_json_bytes(payloads[j].clone()) {
            Ok(ce) => {
                if ce.id == id {
                    return Some(ce);
                }
            },
            Err(_) => {},
        }
        j = j + 1;
    }
    proof {
        assert(payloads@.skip(payloads@.len() as int).len() == 0);
    }
    None
}

/// Read envelopes out of fetched payloads, in stream order, up to `limit`.
#[verifier::loop_isolation(false)]
pub fn collect_events(payloads: &Vec<Vec<u8>>, limit: usize) -> (r: Vec<CloudEvent>)
    ensures
        r@.map_values(|ce: CloudEvent| ce@) == collected(payloads@, limit as nat),
{
    let mut out: Vec<CloudEvent> = Vec::new();
    proof {
        assert(payloads@.skip(0) =~= payloads@);
    }
    let mut j: usize = 0;
    while j < payloads.len()
        invariant
            j <= payloads@.len(),
            out@.len() <= limit,
            collected(payloads@, limit as nat) == out@.map_values(|ce: CloudEvent| ce@)
                + collected(payloads@.skip(j as int), (limit - out@.len()) as nat),
        decreases payloads.len() - j,
    {
        if out.len() >= limit {
            proof {
                assert(collected(payloads@.skip(j as int), (limit - out@.len()) as nat)
                    =~= Seq::<CloudEventV>::empty());
                assert(collected(payloads@, limit as nat) =~= out@.map_values(
                    |ce: CloudEvent| ce@,
                ));
            }
            return out;
        }
        proof {
            assert(payloads@.skip(j as int)[0] == payloads@[j as int]);
            assert(payloads@.skip(j as int).drop_first() =~= payloads@.skip(j + 1int));
        }
        match CloudEvent::from_json_bytes(payloads[j].clone()) {
            Ok(ce) => {
                let ghost pre = out@;
                out.push(ce);
                proof {
                    assert(out@.map_values(|c: CloudEvent| c@) =~= pre.map_values(
                        |c: CloudEvent| c@,
                    ).push(out@.last()@));
                    assert(collected(payloads@, limit as nat) =~= out@.map_values(
                        |c: CloudEvent| c@,
                    ) + collected(payloads@.skip(j + 1int), (limit - out@.len()) as nat));
                }
            },
            Err(_) => {},
        }
        j = j + 1;
    }
    proof {
        assert(payloads@.skip(payloads@.len() as int).len() == 0);
        assert(collected(payloads@.skip(payloads@.len() as int), (limit - out@.len()) as nat)
            =~= Seq::<CloudEventV>::empty());
        assert(collected(payloads@, limit as nat) =~= out@.map_values(|ce: CloudEvent| ce@));
    }
    out
}

} // verus!

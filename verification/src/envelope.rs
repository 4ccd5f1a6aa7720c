//! The CloudEvents v1.0 envelope: construction, the JSON codec over the
//! model of [`crate::json`], and the round-trip theorem for it.

use vstd::prelude::*;

use crate::json;
use crate::json::{JVal, JsonValue};

verus! {

use vstd::utf8::{valid_utf8, decode_utf8, encode_utf8};

// ---------------------------------------------------------------------------
// The standard attribute keys.
// ---------------------------------------------------------------------------

pub open spec fn key_specversion() -> Seq<char> {
    seq!['s', 'p', 'e', 'c', 'v', 'e', 'r', 's', 'i', 'o', 'n']
}

pub open spec fn key_type() -> Seq<char> {
    seq!['t', 'y', 'p', 'e']
}

pub open spec fn key_source() -> Seq<char> {
    seq!['s', 'o', 'u', 'r', 'c', 'e']
}

pub open spec fn key_id() -> Seq<char> {
    seq!['i', 'd']
}

pub open spec fn key_time() -> Seq<char> {
    seq!['t', 'i', 'm', 'e']
}

pub open spec fn key_datacontenttype() -> Seq<char> {
    seq!['d', 'a', 't', 'a', 'c', 'o', 'n', 't', 'e', 'n', 't', 't', 'y', 'p', 'e']
}

pub open spec fn key_data() -> Seq<char> {
    seq!['d', 'a', 't', 'a']
}

/// The keys that carry the envelope's own attributes; an extension may use
/// any other key.
pub open spec fn is_standard_key(k: Seq<char>) -> bool {
    k == key_specversion() || k == key_type() || k == key_source() || k == key_id() || k
        == key_time() || k == key_datacontenttype() || k == key_data()
}

/// The fixed `specversion` value.
pub open spec fn specversion_text() -> Seq<char> {
    seq!['1', '.', '0']
}

/// The default `datacontenttype` value.
pub open spec fn dct_default() -> Seq<char> {
    seq!['a', 'p', 'p', 'l', 'i', 'c', 'a', 't', 'i', 'o', 'n', '/', 'j', 's', 'o', 'n']
}

// ---------------------------------------------------------------------------
// The envelope and its mathematical shape.
// ---------------------------------------------------------------------------

/// A CloudEvents v1.0 envelope. `time` holds the RFC 3339 text of the event's
/// timestamp; `data` and the extension values are JSON documents.
#[derive(Debug)]
pub struct CloudEvent {
    pub specversion: String,
    pub event_type: String,
    pub source: String,
    pub id: String,
    pub time: String,
    pub datacontenttype: Option<String>,
    pub data: Option<JsonValue>,
    pub extensions: Vec<(String, JsonValue)>,
}

/// The envelope over `Seq` and [`JVal`]; contracts speak of this type.
pub struct CloudEventV {
    pub specversion: Seq<char>,
    pub event_type: Seq<char>,
    pub source: Seq<char>,
    pub id: Seq<char>,
    pub time: Seq<char>,
    pub datacontenttype: Option<Seq<char>>,
    pub data: Option<JVal>,
    pub extensions: Seq<(Seq<char>, JVal)>,
}

impl View for CloudEvent {
    type V = CloudEventV;

    open spec fn view(&self) -> CloudEventV {
        CloudEventV {
            specversion: self.specversion@,
            event_type: self.event_type@,
            source: self.source@,
            id: self.id@,
            time: self.time@,
            datacontenttype: match self.datacontenttype {
                None => None,
                Some(d) => Some(d@),
            },
            data: match self.data {
                None => None,
                Some(d) => Some(json::jval_of(d)),
            },
            extensions: json::jmembers_of(self.extensions@),
        }
    }
}

/// An envelope the codec round-trips exactly: extension keys stay clear of
/// the standard attribute names, and every number fits the signed 64-bit
/// range (which holds of every executable envelope).
pub open spec fn env_wf(e: CloudEventV) -> bool {
    &&& forall|i: int| 0 <= i < e.extensions.len() ==> !is_standard_key(#[trigger] e.extensions[i].0)
    &&& json::jmembers_wf(e.extensions)
    &&& match e.data {
        None => true,
        Some(d) => json::jval_wf(d),
    }
}

// ---------------------------------------------------------------------------
// The printed form of an envelope.
// ---------------------------------------------------------------------------

/// The member list of the printed envelope: the standard attributes first, in
/// a fixed order, the optional ones only when present, then the extensions in
/// their stored order.
pub open spec fn env_members(e: CloudEventV) -> Seq<(Seq<char>, JVal)> {
    let base = seq![
        (key_specversion(), JVal::Str(e.specversion)),
        (key_type(), JVal::Str(e.event_type)),
        (key_source(), JVal::Str(e.source)),
        (key_id(), JVal::Str(e.id)),
        (key_time(), JVal::Str(e.time)),
    ];
    let with_dct = match e.datacontenttype {
        None => base,
        Some(d) => base.push((key_datacontenttype(), JVal::Str(d))),
    };
    let with_data = match e.data {
        None => with_dct,
        Some(d) => with_dct.push((key_data(), d)),
    };
    with_data + e.extensions
}

/// The JSON text of an envelope.
pub open spec fn env_text(e: CloudEventV) -> Seq<char> {
    json::ser_val(JVal::Obj(env_members(e)))
}

// ---------------------------------------------------------------------------
// Reading an envelope back from its members.
// ---------------------------------------------------------------------------

/// The value of the first member with key `k`, if any.
pub open spec fn find_key(ms: Seq<(Seq<char>, JVal)>, k: Seq<char>) -> Option<JVal>
    decreases ms.len(),
{
    if ms.len() == 0 {
        None
    } else if ms[0].0 == k {
        Some(ms[0].1)
    } else {
        find_key(ms.drop_first(), k)
    }
}

/// The text of the first member with key `k`, when that member is a string.
pub open spec fn str_field(ms: Seq<(Seq<char>, JVal)>, k: Seq<char>) -> Option<Seq<char>> {
    match find_key(ms, k) {
        Some(JVal::Str(t)) => Some(t),
        _ => None,
    }
}

/// The members whose keys are not standard attribute names, in order: the
/// extension attributes of a parsed envelope.
pub open spec fn non_standard(ms: Seq<(Seq<char>, JVal)>) -> Seq<(Seq<char>, JVal)>
    decreases ms.len(),
{
    if ms.len() == 0 {
        Seq::empty()
    } else if is_standard_key(ms[0].0) {
        non_standard(ms.drop_first())
    } else {
        seq![ms[0]] + non_standard(ms.drop_first())
    }
}

/// The envelope read from a member list: the required attributes must be
/// present as strings, `datacontenttype` must be a string when present,
/// `data` may be any document, and every other member becomes an extension.
/// The first member of a key decides its value.
pub open spec fn env_of_members(ms: Seq<(Seq<char>, JVal)>) -> Option<CloudEventV> {
    if str_field(ms, key_specversion()) is Some && str_field(ms, key_type()) is Some && str_field(
        ms,
        key_source(),
    ) is Some && str_field(ms, key_id()) is Some && str_field(ms, key_time()) is Some && (find_key(
        ms,
        key_datacontenttype(),
    ) is Some ==> str_field(ms, key_datacontenttype()) is Some) {
        Some(
            CloudEventV {
                specversion: str_field(ms, key_specversion()).unwrap(),
                event_type: str_field(ms, key_type()).unwrap(),
                source: str_field(ms, key_source()).unwrap(),
                id: str_field(ms, key_id()).unwrap(),
                time: str_field(ms, key_time()).unwrap(),
                datacontenttype: str_field(ms, key_datacontenttype()),
                data: find_key(ms, key_data()),
                extensions: non_standard(ms),
            },
        )
    } else {
        None
    }
}

/// The envelope read from JSON text: one object that uses the whole input.
pub open spec fn env_of_text(s: Seq<char>) -> Option<CloudEventV> {
    match json::p_doc(s) {
        Some(JVal::Obj(ms)) => env_of_members(ms),
        _ => None,
    }
}

/// The envelope read from bytes: UTF-8, then JSON text.
pub open spec fn env_of_bytes(b: Seq<u8>) -> Option<CloudEventV> {
    if valid_utf8(b) {
        env_of_text(decode_utf8(b))
    } else {
        None
    }
}

/// The standard keys differ pairwise: most pairs by length, the pairs of
/// equal length by a distinguishing position.
proof fn lemma_keys_distinct()
    ensures
        key_specversion() != key_type(),
        key_specversion() != key_source(),
        key_specversion() != key_id(),
        key_specversion() != key_time(),
        key_specversion() != key_datacontenttype(),
        key_specversion() != key_data(),
        key_type() != key_source(),
        key_type() != key_id(),
        key_type() != key_time(),
        key_type() != key_datacontenttype(),
        key_type() != key_data(),
        key_source() != key_id(),
        key_source() != key_time(),
        key_source() != key_datacontenttype(),
        key_source() != key_data(),
        key_id() != key_time(),
        key_id() != key_datacontenttype(),
        key_id() != key_data(),
        key_time() != key_datacontenttype(),
        key_time() != key_data(),
        key_datacontenttype() != key_data(),
{
    assert(key_specversion().len() == 11 && key_type().len() == 4 && key_source().len() == 6
        && key_id().len() == 2 && key_time().len() == 4 && key_datacontenttype().len() == 15
        && key_data().len() == 4);
    assert(key_type()[1] == 'y' && key_time()[1] == 'i' && ('y' as u32) == 121 && ('i' as u32)
        == 105);
    assert(key_type()[0] == 't' && key_data()[0] == 'd' && ('t' as u32) == 116 && ('d' as u32)
        == 100);
    assert(key_time()[0] == 't');
}

pub proof fn lemma_find_key_snoc(s: Seq<(Seq<char>, JVal)>, m: (Seq<char>, JVal), k: Seq<char>)
    ensures
        find_key(s.push(m), k) == if find_key(s, k) is Some {
            find_key(s, k)
        } else if m.0 == k {
            Some(m.1)
        } else {
            None
        },
    decreases s.len(),
{
    if s.len() == 0 {
        assert(s.push(m)[0] == m);
        assert(s.push(m).drop_first() =~= Seq::<(Seq<char>, JVal)>::empty());
    } else {
        assert(s.push(m)[0] == s[0]);
        assert(s.push(m).drop_first() =~= s.drop_first().push(m));
        lemma_find_key_snoc(s.drop_first(), m, k);
    }
}

pub proof fn lemma_non_standard_snoc(s: Seq<(Seq<char>, JVal)>, m: (Seq<char>, JVal))
    ensures
        non_standard(s.push(m)) == if is_standard_key(m.0) {
            non_standard(s)
        } else {
            non_standard(s).push(m)
        },
    decreases s.len(),
{
    if s.len() == 0 {
        assert(s =~= Seq::<(Seq<char>, JVal)>::empty());
        assert(s.push(m)[0] == m);
        assert(s.push(m).drop_first() =~= Seq::<(Seq<char>, JVal)>::empty());
        assert(non_standard(Seq::<(Seq<char>, JVal)>::empty()) =~= Seq::<(Seq<char>, JVal)>::empty());
        if !is_standard_key(m.0) {
            assert(non_standard(s.push(m)) =~= non_standard(s).push(m));
        }
    } else {
        assert(s.push(m)[0] == s[0]);
        assert(s.push(m).drop_first() =~= s.drop_first().push(m));
        lemma_non_standard_snoc(s.drop_first(), m);
        if !is_standard_key(m.0) {
            if is_standard_key(s[0].0) {
                assert(non_standard(s.push(m)) =~= non_standard(s).push(m));
            } else {
                assert(non_standard(s.push(m)) =~= seq![s[0]] + non_standard(
                    s.drop_first(),
                ).push(m));
                assert(non_standard(s).push(m) =~= seq![s[0]] + non_standard(
                    s.drop_first(),
                ).push(m));
            }
        }
    }
}

proof fn lemma_find_key_concat(a: Seq<(Seq<char>, JVal)>, b: Seq<(Seq<char>, JVal)>, k: Seq<char>)
    ensures
        find_key(a + b, k) == if find_key(a, k) is Some {
            find_key(a, k)
        } else {
            find_key(b, k)
        },
    decreases a.len(),
{
    if a.len() == 0 {
        assert(a + b =~= b);
    } else {
        assert((a + b)[0] == a[0]);
        assert((a + b).drop_first() =~= a.drop_first() + b);
        lemma_find_key_concat(a.drop_first(), b, k);
    }
}

proof fn lemma_find_key_absent(ms: Seq<(Seq<char>, JVal)>, k: Seq<char>)
    requires
        forall|i: int| 0 <= i < ms.len() ==> (#[trigger] ms[i].0) != k,
    ensures
        find_key(ms, k) is None,
    decreases ms.len(),
{
    if ms.len() > 0 {
        assert(ms[0].0 != k);
        assert(forall|i: int|
            0 <= i < ms.drop_first().len() ==> (#[trigger] ms.drop_first()[i].0) == ms[i + 1].0);
        lemma_find_key_absent(ms.drop_first(), k);
    }
}

proof fn lemma_non_standard_all(ms: Seq<(Seq<char>, JVal)>)
    requires
        forall|i: int| 0 <= i < ms.len() ==> !is_standard_key(#[trigger] ms[i].0),
    ensures
        non_standard(ms) == ms,
    decreases ms.len(),
{
    if ms.len() > 0 {
        assert(!is_standard_key(ms[0].0));
        assert(forall|i: int|
            0 <= i < ms.drop_first().len() ==> (#[trigger] ms.drop_first()[i].0) == ms[i + 1].0);
        lemma_non_standard_all(ms.drop_first());
        assert(seq![ms[0]] + ms.drop_first() =~= ms);
    }
}

/// Every member that survives the filter has a non-standard key.
proof fn lemma_non_standard_elements(ms: Seq<(Seq<char>, JVal)>)
    ensures
        forall|i: int|
            0 <= i < non_standard(ms).len() ==> !is_standard_key(
                #[trigger] non_standard(ms)[i].0,
            ),
    decreases ms.len(),
{
    if ms.len() > 0 {
        lemma_non_standard_elements(ms.drop_first());
        if !is_standard_key(ms[0].0) {
            assert forall|i: int|
                0 <= i < non_standard(ms).len() implies !is_standard_key(
                non_standard(ms)[i].0,
            ) by {
                if i == 0 {
                    assert(non_standard(ms)[0] == ms[0]);
                } else {
                    assert(non_standard(ms)[i] == non_standard(ms.drop_first())[i - 1]);
                }
            }
        } else {
            assert forall|i: int|
                0 <= i < non_standard(ms).len() implies !is_standard_key(
                non_standard(ms)[i].0,
            ) by {
                assert(non_standard(ms)[i] == non_standard(ms.drop_first())[i]);
            }
        }
    }
}

proof fn lemma_non_standard_concat(a: Seq<(Seq<char>, JVal)>, b: Seq<(Seq<char>, JVal)>)
    ensures
        non_standard(a + b) == non_standard(a) + non_standard(b),
    decreases a.len(),
{
    if a.len() == 0 {
        assert(a + b =~= b);
        assert(non_standard(a) + non_standard(b) =~= non_standard(b));
    } else {
        assert((a + b)[0] == a[0]);
        assert((a + b).drop_first() =~= a.drop_first() + b);
        lemma_non_standard_concat(a.drop_first(), b);
        if !is_standard_key(a[0].0) {
            assert(seq![a[0]] + (non_standard(a.drop_first()) + non_standard(b)) =~= non_standard(
                a,
            ) + non_standard(b));
        }
    }
}

// ---------------------------------------------------------------------------
// Construction.
// ---------------------------------------------------------------------------

/// Relies on `uuid::Uuid::new_v4` and its `Display` form: a fresh random
/// UUID, printed hyphenated as 36 characters.
#[verifier::external_body]
pub(crate) fn fresh_uuid_string() -> (r: String)
    ensures
        r@.len() == 36,
{
    uuid::Uuid::new_v4().to_string()
}

/// Relies on `chrono::Utc::now` and `DateTime::to_rfc3339`: the current UTC
/// time, printed in RFC 3339 form.
#[verifier::external_body]
fn now_rfc3339_string() -> (r: String)
{
    chrono::Utc::now().to_rfc3339()
}

fn specversion_string() -> (r: String)
    ensures
        r@ == specversion_text(),
{
    let s = String::from_str("1.0");
    proof {
        reveal_strlit("1.0");
        assert(s@ =~= specversion_text());
    }
    s
}

fn dct_default_string() -> (r: String)
    ensures
        r@ == dct_default(),
{
    let s = String::from_str("application/json");
    proof {
        reveal_strlit("application/json");
        assert(s@ =~= dct_default());
    }
    s
}

impl CloudEvent {
    /// A fresh envelope: fixed `specversion`, the given type and source, a
    /// new random id, the current time, the default content type, no data
    /// and no extensions.
    pub fn new(event_type: &str, source: &str) -> (r: CloudEvent)
        ensures
            r@.specversion == specversion_text(),
            r@.event_type == event_type@,
            r@.source == source@,
            r@.id.len() == 36,
            r@.datacontenttype == Some(dct_default()),
            r@.data is None,
            r@.extensions == Seq::<(Seq<char>, JVal)>::empty(),
            env_wf(r@),
    {
        let r = CloudEvent {
            specversion: specversion_string(),
            event_type: event_type.to_owned(),
            source: source.to_owned(),
            id: fresh_uuid_string(),
            time: now_rfc3339_string(),
            datacontenttype: Some(dct_default_string()),
            data: None,
            extensions: Vec::new(),
        };
        proof {
            assert(json::jmembers_of(Seq::<(String, JsonValue)>::empty()) =~= Seq::<
                (Seq<char>, JVal),
            >::empty());
        }
        r
    }

    /// The same envelope with `data` set to the given document.
    pub fn with_data(self, data: JsonValue) -> (r: CloudEvent)
        ensures
            r@ == (CloudEventV { data: Some(json::jval_of(data)), ..self@ }),
    {
        CloudEvent { data: Some(data), ..self }
    }

    /// The same envelope with one extension attribute appended. The key must
    /// stay clear of the standard attribute names, which every extension key
    /// does by the envelope's invariant.
    pub fn with_extension(self, key: String, value: JsonValue) -> (r: CloudEvent)
        ensures
            r@ == (CloudEventV {
                extensions: self@.extensions.push((key@, json::jval_of(value))),
                ..self@
            }),
    {
        let mut r = CloudEvent { ..self };
        let ghost pre = r.extensions@;
        r.extensions.push((key, value));
        proof {
            json::lemma_jmembers_of_snoc(pre, r.extensions@.last());
            assert(pre.push(r.extensions@.last()) =~= r.extensions@);
            assert(r@.extensions =~= self@.extensions.push((key@, json::jval_of(value))));
        }
        r
    }
}

// ---------------------------------------------------------------------------
// Round trip: reading the printed envelope yields the envelope.
// ---------------------------------------------------------------------------

/// What each attribute lookup finds in the printed member list of a
/// well-formed envelope.
proof fn lemma_env_members_lookup(e: CloudEventV)
    requires
        env_wf(e),
    ensures
        find_key(env_members(e), key_specversion()) == Some(JVal::Str(e.specversion)),
        find_key(env_members(e), key_type()) == Some(JVal::Str(e.event_type)),
        find_key(env_members(e), key_source()) == Some(JVal::Str(e.source)),
        find_key(env_members(e), key_id()) == Some(JVal::Str(e.id)),
        find_key(env_members(e), key_time()) == Some(JVal::Str(e.time)),
        find_key(env_members(e), key_datacontenttype()) == match e.datacontenttype {
            None => None,
            Some(d) => Some(JVal::Str(d)),
        },
        find_key(env_members(e), key_data()) == e.data,
        non_standard(env_members(e)) == e.extensions,
{
    lemma_keys_distinct();
    reveal_with_fuel(find_key, 8);
    reveal_with_fuel(non_standard, 8);
    let base = seq![
        (key_specversion(), JVal::Str(e.specversion)),
        (key_type(), JVal::Str(e.event_type)),
        (key_source(), JVal::Str(e.source)),
        (key_id(), JVal::Str(e.id)),
        (key_time(), JVal::Str(e.time)),
    ];
    let with_dct = match e.datacontenttype {
        None => base,
        Some(d) => base.push((key_datacontenttype(), JVal::Str(d))),
    };
    let front = match e.data {
        None => with_dct,
        Some(d) => with_dct.push((key_data(), d)),
    };
    // Lookups in the fixed part, by unfolding it member by member.
    assert(base.drop_first() =~= seq![
        (key_type(), JVal::Str(e.event_type)),
        (key_source(), JVal::Str(e.source)),
        (key_id(), JVal::Str(e.id)),
        (key_time(), JVal::Str(e.time)),
    ]);
    assert(base.drop_first().drop_first() =~= seq![
        (key_source(), JVal::Str(e.source)),
        (key_id(), JVal::Str(e.id)),
        (key_time(), JVal::Str(e.time)),
    ]);
    assert(base.drop_first().drop_first().drop_first() =~= seq![
        (key_id(), JVal::Str(e.id)),
        (key_time(), JVal::Str(e.time)),
    ]);
    assert(base.drop_first().drop_first().drop_first().drop_first() =~= seq![
        (key_time(), JVal::Str(e.time)),
    ]);
    assert(seq![(key_time(), JVal::Str(e.time))].drop_first() =~= Seq::<
        (Seq<char>, JVal),
    >::empty());
    assert(find_key(base, key_specversion()) == Some(JVal::Str(e.specversion)));
    assert(find_key(base, key_type()) == Some(JVal::Str(e.event_type)));
    assert(find_key(base, key_source()) == Some(JVal::Str(e.source)));
    assert(find_key(base, key_id()) == Some(JVal::Str(e.id)));
    assert(find_key(base, key_time()) == Some(JVal::Str(e.time)));
    assert(find_key(base, key_datacontenttype()) is None);
    assert(find_key(base, key_data()) is None);
    match e.datacontenttype {
        None => {},
        Some(d) => {
            lemma_find_key_snoc(base, (key_datacontenttype(), JVal::Str(d)), key_specversion());
            lemma_find_key_snoc(base, (key_datacontenttype(), JVal::Str(d)), key_type());
            lemma_find_key_snoc(base, (key_datacontenttype(), JVal::Str(d)), key_source());
            lemma_find_key_snoc(base, (key_datacontenttype(), JVal::Str(d)), key_id());
            lemma_find_key_snoc(base, (key_datacontenttype(), JVal::Str(d)), key_time());
            lemma_find_key_snoc(base, (key_datacontenttype(), JVal::Str(d)), key_datacontenttype());
            lemma_find_key_snoc(base, (key_datacontenttype(), JVal::Str(d)), key_data());
        },
    }
    match e.data {
        None => {},
        Some(d) => {
            lemma_find_key_snoc(with_dct, (key_data(), d), key_specversion());
            lemma_find_key_snoc(with_dct, (key_data(), d), key_type());
            lemma_find_key_snoc(with_dct, (key_data(), d), key_source());
            lemma_find_key_snoc(with_dct, (key_data(), d), key_id());
            lemma_find_key_snoc(with_dct, (key_data(), d), key_time());
            lemma_find_key_snoc(with_dct, (key_data(), d), key_datacontenttype());
            lemma_find_key_snoc(with_dct, (key_data(), d), key_data());
        },
    }
    // The extensions hold no standard key, so lookups never reach them and
    // filtering keeps them all.
    assert(forall|i: int|
        0 <= i < e.extensions.len() ==> (#[trigger] e.extensions[i].0) != key_specversion());
    assert(forall|i: int|
        0 <= i < e.extensions.len() ==> (#[trigger] e.extensions[i].0) != key_type());
    assert(forall|i: int|
        0 <= i < e.extensions.len() ==> (#[trigger] e.extensions[i].0) != key_source());
    assert(forall|i: int|
        0 <= i < e.extensions.len() ==> (#[trigger] e.extensions[i].0) != key_id());
    assert(forall|i: int|
        0 <= i < e.extensions.len() ==> (#[trigger] e.extensions[i].0) != key_time());
    assert(forall|i: int|
        0 <= i < e.extensions.len() ==> (#[trigger] e.extensions[i].0) != key_datacontenttype());
    assert(forall|i: int|
        0 <= i < e.extensions.len() ==> (#[trigger] e.extensions[i].0) != key_data());
    lemma_find_key_absent(e.extensions, key_specversion());
    lemma_find_key_absent(e.extensions, key_type());
    lemma_find_key_absent(e.extensions, key_source());
    lemma_find_key_absent(e.extensions, key_id());
    lemma_find_key_absent(e.extensions, key_time());
    lemma_find_key_absent(e.extensions, key_datacontenttype());
    lemma_find_key_absent(e.extensions, key_data());
    lemma_find_key_concat(front, e.extensions, key_specversion());
    lemma_find_key_concat(front, e.extensions, key_type());
    lemma_find_key_concat(front, e.extensions, key_source());
    lemma_find_key_concat(front, e.extensions, key_id());
    lemma_find_key_concat(front, e.extensions, key_time());
    lemma_find_key_concat(front, e.extensions, key_datacontenttype());
    lemma_find_key_concat(front, e.extensions, key_data());
    // The fixed part holds only standard keys, so nothing of it survives the
    // filter.
    assert(non_standard(base) =~= Seq::<(Seq<char>, JVal)>::empty());
    match e.datacontenttype {
        None => {},
        Some(d) => {
            lemma_non_standard_snoc(base, (key_datacontenttype(), JVal::Str(d)));
        },
    }
    match e.data {
        None => {},
        Some(d) => {
            lemma_non_standard_snoc(with_dct, (key_data(), d));
        },
    }
    assert(non_standard(front) =~= Seq::<(Seq<char>, JVal)>::empty());
    lemma_non_standard_concat(front, e.extensions);
    lemma_non_standard_all(e.extensions);
    assert(non_standard(env_members(e)) =~= e.extensions);
}

proof fn lemma_env_members_wf(e: CloudEventV)
    requires
        env_wf(e),
    ensures
        json::jval_wf(JVal::Obj(env_members(e))),
{
    let base = seq![
        (key_specversion(), JVal::Str(e.specversion)),
        (key_type(), JVal::Str(e.event_type)),
        (key_source(), JVal::Str(e.source)),
        (key_id(), JVal::Str(e.id)),
        (key_time(), JVal::Str(e.time)),
    ];
    let with_dct = match e.datacontenttype {
        None => base,
        Some(d) => base.push((key_datacontenttype(), JVal::Str(d))),
    };
    let front = match e.data {
        None => with_dct,
        Some(d) => with_dct.push((key_data(), d)),
    };
    assert forall|i: int| 0 <= i < front.len() implies json::jval_wf(#[trigger] front[i].1) by {}
    assert(json::jmembers_wf(front)) by {
        lemma_jmembers_wf_of_pointwise(front);
    }
    json::lemma_jmembers_wf_concat(front, e.extensions);
}

proof fn lemma_jmembers_wf_of_pointwise(ms: Seq<(Seq<char>, JVal)>)
    requires
        forall|i: int| 0 <= i < ms.len() ==> json::jval_wf(#[trigger] ms[i].1),
    ensures
        json::jmembers_wf(ms),
    decreases ms.len(),
{
    if ms.len() > 0 {
        assert(forall|i: int|
            0 <= i < ms.drop_first().len() ==> (#[trigger] ms.drop_first()[i]) == ms[i + 1]);
        lemma_jmembers_wf_of_pointwise(ms.drop_first());
    }
}

/// Envelope round trip: the printed form of any well-formed envelope, read
/// back as text or as UTF-8 bytes, yields that envelope unchanged — same id,
/// time, type, source, data and extensions.
pub proof fn lemma_envelope_round_trip(e: CloudEventV)
    requires
        env_wf(e),
    ensures
        env_of_text(env_text(e)) == Some(e),
        env_of_bytes(encode_utf8(env_text(e))) == Some(e),
{
    lemma_env_members_wf(e);
    json::lemma_json_round_trip(JVal::Obj(env_members(e)));
    lemma_env_members_lookup(e);
    assert(env_of_members(env_members(e)) == Some(e));
    broadcast use vstd::utf8::encode_utf8_valid_utf8, vstd::utf8::encode_utf8_decode_utf8;

    assert(valid_utf8(encode_utf8(env_text(e))));
    assert(decode_utf8(encode_utf8(env_text(e))) == env_text(e));
}

// ---------------------------------------------------------------------------
// The executable codec.
// ---------------------------------------------------------------------------

/// The codec's error: text or bytes that are not a well-formed envelope.
#[derive(Debug, Clone, Copy, PartialEq, Eq, Structural)]
pub struct MalformedEnvelope;

/// Relies on `String::from_utf8`: it succeeds exactly on valid UTF-8, and
/// yields its decoding.
#[verifier::external_body]
fn string_from_utf8(b: Vec<u8>) -> (r: Option<String>)
    ensures
        r is Some <==> valid_utf8(b@),
        r is Some ==> r.unwrap()@ == decode_utf8(b@),
{
    match String::from_utf8(b) {
        Ok(s) => Some(s),
        Err(_) => None,
    }
}

fn key_specversion_string() -> (r: String)
    ensures
        r@ == key_specversion(),
{
    let s = String::from_str("specversion");
    proof {
        reveal_strlit("specversion");
        assert(s@ =~= key_specversion());
    }
    s
}

fn key_type_string() -> (r: String)
    ensures
        r@ == key_type(),
{
    let s = String::from_str("type");
    proof {
        reveal_strlit("type");
        assert(s@ =~= key_type());
    }
    s
}

fn key_source_string() -> (r: String)
    ensures
        r@ == key_source(),
{
    let s = String::from_str("source");
    proof {
        reveal_strlit("source");
        assert(s@ =~= key_source());
    }
    s
}

fn key_id_string() -> (r: String)
    ensures
        r@ == key_id(),
{
    let s = String::from_str("id");
    proof {
        reveal_strlit("id");
        assert(s@ =~= key_id());
    }
    s
}

fn key_time_string() -> (r: String)
    ensures
        r@ == key_time(),
{
    let s = String::from_str("time");
    proof {
        reveal_strlit("time");
        assert(s@ =~= key_time());
    }
    s
}

fn key_datacontenttype_string() -> (r: String)
    ensures
        r@ == key_datacontenttype(),
{
    let s = String::from_str("datacontenttype");
    proof {
        reveal_strlit("datacontenttype");
        assert(s@ =~= key_datacontenttype());
    }
    s
}

fn key_data_string() -> (r: String)
    ensures
        r@ == key_data(),
{
    let s = String::from_str("data");
    proof {
        reveal_strlit("data");
        assert(s@ =~= key_data());
    }
    s
}

impl CloudEvent {
    /// The envelope as JSON text: the standard attributes and then the
    /// extension attributes, flat in one object.
    pub fn to_json(&self) -> (r: String)
        ensures
            r@ == env_text(self@),
    {
        let mut ms: Vec<(String, JsonValue)> = Vec::new();
        let ghost e = self@;
        ms.push((key_specversion_string(), JsonValue::Str(self.specversion.clone())));
        ms.push((key_type_string(), JsonValue::Str(self.event_type.clone())));
        ms.push((key_source_string(), JsonValue::Str(self.source.clone())));
        ms.push((key_id_string(), JsonValue::Str(self.id.clone())));
        ms.push((key_time_string(), JsonValue::Str(self.time.clone())));
        proof {
            assert(json::jmembers_of(ms@) =~= seq![
                (key_specversion(), JVal::Str(e.specversion)),
                (key_type(), JVal::Str(e.event_type)),
                (key_source(), JVal::Str(e.source)),
                (key_id(), JVal::Str(e.id)),
                (key_time(), JVal::Str(e.time)),
            ]) by {
                assert(ms@ =~= seq![ms@[0], ms@[1], ms@[2], ms@[3], ms@[4]]);
                json::lemma_jmembers_of_index(ms@);
            }
        }
        match &self.datacontenttype {
            None => {},
            Some(d) => {
                let ghost pre = ms@;
                ms.push((key_datacontenttype_string(), JsonValue::Str(d.clone())));
                proof {
                    json::lemma_jmembers_of_snoc(pre, ms@.last());
                    assert(pre.push(ms@.last()) =~= ms@);
                }
            },
        }
        match &self.data {
            None => {},
            Some(d) => {
                let ghost pre = ms@;
                ms.push((key_data_string(), d.clone()));
                proof {
                    json::lemma_jmembers_of_snoc(pre, ms@.last());
                    assert(pre.push(ms@.last()) =~= ms@);
                }
            },
        }
        let ghost front = json::jmembers_of(ms@);
        proof {
            assert(env_members(e) == front + e.extensions);
        }
        let mut j: usize = 0;
        while j < self.extensions.len()
            invariant
                j <= self.extensions.len(),
                json::jmembers_of(ms@) == front + json::jmembers_of(
                    self.extensions@.take(j as int),
                ),
            decreases self.extensions.len() - j,
        {
            let ghost pre = ms@;
            let member = &self.extensions[j];
            ms.push((member.0.clone(), member.1.clone()));
            proof {
                json::lemma_jmembers_of_snoc(pre, ms@.last());
                json::lemma_jmembers_of_snoc(
                    self.extensions@.take(j as int),
                    self.extensions@[j as int],
                );
                assert(pre.push(ms@.last()) =~= ms@);
                assert(self.extensions@.take(j as int).push(self.extensions@[j as int])
                    =~= self.extensions@.take(j + 1int));
                assert(json::jmembers_of(ms@) =~= front + json::jmembers_of(
                    self.extensions@.take(j + 1int),
                ));
            }
            j = j + 1;
        }
        proof {
            assert(self.extensions@.take(self.extensions@.len() as int) =~= self.extensions@);
            assert(json::jmembers_of(ms@) == env_members(e));
        }
        let obj = JsonValue::Obj(ms);
        let text = json::to_text(&obj);
        json::chars_to_string(text)
    }

    /// The envelope as JSON bytes: the UTF-8 encoding of [`Self::to_json`].
    pub fn to_json_bytes(&self) -> (r: Vec<u8>)
        ensures
            r@ == encode_utf8(env_text(self@)),
    {
        let s = self.to_json();
        s.as_str().as_bytes_vec()
    }

    /// The envelope read from JSON text; fails when the text is not a single
    /// JSON object with the required string attributes.
    pub fn from_json(s: &str) -> (r: Result<CloudEvent, MalformedEnvelope>)
        ensures
            match r {
                Ok(ce) => env_of_text(s@) == Some(ce@) && env_wf(ce@),
                Err(_) => env_of_text(s@) is None,
            },
    {
        let cs = crate::text::chars_of_str(s);
        match json::parse_text(&cs) {
            None => Err(MalformedEnvelope),
            Some(v) => match v {
                JsonValue::Obj(ms) => Self::from_members(ms),
                _ => Err(MalformedEnvelope),
            },
        }
    }

    /// The envelope read from JSON bytes: UTF-8, then [`Self::from_json`].
    pub fn from_json_bytes(b: Vec<u8>) -> (r: Result<CloudEvent, MalformedEnvelope>)
        ensures
            match r {
                Ok(ce) => env_of_bytes(b@) == Some(ce@) && env_wf(ce@),
                Err(_) => env_of_bytes(b@) is None,
            },
    {
        match string_from_utf8(b) {
            None => Err(MalformedEnvelope),
            Some(s) => Self::from_json(s.as_str()),
        }
    }

    #[verifier::rlimit(100)]
    fn from_members(ms: Vec<(String, JsonValue)>) -> (r: Result<CloudEvent, MalformedEnvelope>)
        ensures
            match r {
                Ok(ce) => env_of_members(json::jmembers_of(ms@)) == Some(ce@) && env_wf(ce@),
                Err(_) => env_of_members(json::jmembers_of(ms@)) is None,
            },
    {
        let ghost ml = json::jmembers_of(ms@);
        proof {
            json::lemma_jmembers_of_index(ms@);
        }
        let k_specversion = key_specversion_string();
        let k_type = key_type_string();
        let k_source = key_source_string();
        let k_id = key_id_string();
        let k_time = key_time_string();
        let k_dct = key_datacontenttype_string();
        let k_data = key_data_string();
        let mut f_specversion: Option<Option<String>> = None;
        let mut f_type: Option<Option<String>> = None;
        let mut f_source: Option<Option<String>> = None;
        let mut f_id: Option<Option<String>> = None;
        let mut f_time: Option<Option<String>> = None;
        let mut f_dct: Option<Option<String>> = None;
        let mut f_data: Option<JsonValue> = None;
        let mut exts: Vec<(String, JsonValue)> = Vec::new();
        let mut j: usize = 0;
        while j < ms.len()
            invariant
                j <= ms.len(),
                ml == json::jmembers_of(ms@),
                ml.len() == ms@.len(),
                forall|i: int| 0 <= i < ms@.len() ==> ml[i] == (ms@[i].0@, json::jval_of(ms@[i].1)),
                k_specversion@ == key_specversion(),
                k_type@ == key_type(),
                k_source@ == key_source(),
                k_id@ == key_id(),
                k_time@ == key_time(),
                k_dct@ == key_datacontenttype(),
                k_data@ == key_data(),
                field_matches(f_specversion, find_key(ml.take(j as int), key_specversion())),
                field_matches(f_type, find_key(ml.take(j as int), key_type())),
                field_matches(f_source, find_key(ml.take(j as int), key_source())),
                field_matches(f_id, find_key(ml.take(j as int), key_id())),
                field_matches(f_time, find_key(ml.take(j as int), key_time())),
                field_matches(f_dct, find_key(ml.take(j as int), key_datacontenttype())),
                data_matches(f_data, find_key(ml.take(j as int), key_data())),
                json::jmembers_of(exts@) == non_standard(ml.take(j as int)),
            decreases ms.len() - j,
        {
            let member = &ms[j];
            proof {
                lemma_keys_distinct();
                lemma_find_key_snoc(ml.take(j as int), ml[j as int], key_specversion());
                lemma_find_key_snoc(ml.take(j as int), ml[j as int], key_type());
                lemma_find_key_snoc(ml.take(j as int), ml[j as int], key_source());
                lemma_find_key_snoc(ml.take(j as int), ml[j as int], key_id());
                lemma_find_key_snoc(ml.take(j as int), ml[j as int], key_time());
                lemma_find_key_snoc(ml.take(j as int), ml[j as int], key_datacontenttype());
                lemma_find_key_snoc(ml.take(j as int), ml[j as int], key_data());
                lemma_non_standard_snoc(ml.take(j as int), ml[j as int]);
                assert(ml.take(j as int).push(ml[j as int]) =~= ml.take(j + 1int));
            }
            if member.0 == k_specversion {
                if f_specversion.is_none() {
                    f_specversion = Some(str_of_value(&member.1));
                }
            } else if member.0 == k_type {
                if f_type.is_none() {
                    f_type = Some(str_of_value(&member.1));
                }
            } else if member.0 == k_source {
                if f_source.is_none() {
                    f_source = Some(str_of_value(&member.1));
                }
            } else if member.0 == k_id {
                if f_id.is_none() {
                    f_id = Some(str_of_value(&member.1));
                }
            } else if member.0 == k_time {
                if f_time.is_none() {
                    f_time = Some(str_of_value(&member.1));
                }
            } else if member.0 == k_dct {
                if f_dct.is_none() {
                    f_dct = Some(str_of_value(&member.1));
                }
            } else if member.0 == k_data {
                if f_data.is_none() {
                    f_data = Some(member.1.clone());
                }
            } else {
                let ghost pre = exts@;
                exts.push((member.0.clone(), member.1.clone()));
                proof {
                    json::lemma_jmembers_of_snoc(pre, exts@.last());
                    assert(pre.push(exts@.last()) =~= exts@);
                    assert(!is_standard_key(ml[j as int].0));
                    assert(json::jmembers_of(exts@) =~= non_standard(ml.take(j + 1int)));
                }
            }
            j = j + 1;
        }
        proof {
            assert(ml.take(ml.len() as int) =~= ml);
        }
        let specversion = match f_specversion {
            Some(Some(s)) => s,
            _ => {
                return Err(MalformedEnvelope);
            },
        };
        let event_type = match f_type {
            Some(Some(s)) => s,
            _ => {
                return Err(MalformedEnvelope);
            },
        };
        let source = match f_source {
            Some(Some(s)) => s,
            _ => {
                return Err(MalformedEnvelope);
            },
        };
        let id = match f_id {
            Some(Some(s)) => s,
            _ => {
                return Err(MalformedEnvelope);
            },
        };
        let time = match f_time {
            Some(Some(s)) => s,
            _ => {
                return Err(MalformedEnvelope);
            },
        };
        let datacontenttype = match f_dct {
            None => None,
            Some(Some(s)) => Some(s),
            Some(None) => {
                return Err(MalformedEnvelope);
            },
        };
        let ce = CloudEvent {
            specversion,
            event_type,
            source,
            id,
            time,
            datacontenttype,
            data: f_data,
            extensions: exts,
        };
        proof {
            lemma_non_standard_elements(ml);
            json::lemma_jmembers_of_wf(ce.extensions@);
            match &ce.data {
                None => {},
                Some(d) => {
                    json::lemma_jval_of_wf(*d);
                },
            }
        }
        Ok(ce)
    }
}

/// How a scanned string attribute corresponds to the first member with its
/// key: not yet seen, seen as a string, or seen with a value of another kind.
pub open spec fn field_matches(st: Option<Option<String>>, fk: Option<JVal>) -> bool {
    match st {
        None => fk is None,
        Some(Some(s)) => fk == Some(JVal::Str(s@)),
        Some(None) => fk is Some && !(fk.unwrap() is Str),
    }
}

/// How the scanned `data` attribute corresponds to the first member with the
/// `data` key.
pub open spec fn data_matches(st: Option<JsonValue>, fk: Option<JVal>) -> bool {
    match st {
        None => fk is None,
        Some(v) => fk == Some(json::jval_of(v)),
    }
}

fn str_of_value(v: &JsonValue) -> (r: Option<String>)
    ensures
        match r {
            Some(s) => json::jval_of(*v) == JVal::Str(s@),
            None => !(json::jval_of(*v) is Str),
        },
{
    match v {
        JsonValue::Str(s) => Some(s.clone()),
        _ => None,
    }
}

impl Clone for CloudEvent {
    /// A deep copy with the same mathematical value.
    fn clone(&self) -> (r: Self)
        ensures
            r@ == self@,
    {
        let mut extensions: Vec<(String, JsonValue)> = Vec::new();
        let mut j: usize = 0;
        while j < self.extensions.len()
            invariant
                j <= self.extensions.len(),
                json::jmembers_of(extensions@) == json::jmembers_of(
                    self.extensions@.take(j as int),
                ),
            decreases self.extensions.len() - j,
        {
            let ghost pre = extensions@;
            let member = &self.extensions[j];
            extensions.push((member.0.clone(), member.1.clone()));
            proof {
                json::lemma_jmembers_of_snoc(pre, extensions@.last());
                json::lemma_jmembers_of_snoc(
                    self.extensions@.take(j as int),
                    self.extensions@[j as int],
                );
                assert(pre.push(extensions@.last()) =~= extensions@);
                assert(self.extensions@.take(j as int).push(self.extensions@[j as int])
                    =~= self.extensions@.take(j + 1int));
                assert(json::jmembers_of(extensions@) =~= json::jmembers_of(
                    self.extensions@.take(j + 1int),
                ));
            }
            j = j + 1;
        }
        proof {
            assert(self.extensions@.take(self.extensions@.len() as int) =~= self.extensions@);
        }
        let data: Option<JsonValue> = match &self.data {
            None => None,
            Some(d) => Some(d.clone()),
        };
        CloudEvent {
            specversion: self.specversion.clone(),
            event_type: self.event_type.clone(),
            source: self.source.clone(),
            id: self.id.clone(),
            time: self.time.clone(),
            datacontenttype: match &self.datacontenttype {
                None => None,
                Some(d) => Some(d.clone()),
            },
            data,
            extensions,
        }
    }
}

} // verus!

//! The dispatch engine: which functions of the catalog an event triggers,
//! in catalog order.

use vstd::prelude::*;

use crate::config::{FunctionConfig, NexusConfig};
use crate::sandbox::WasmExecutor;
use crate::text;

verus! {

/// Whether one function's trigger matches an event type: an HTTP trigger
/// matches everything; a stream trigger matches when either of subject and
/// event type contains the other; a function without a trigger matches
/// nothing.
pub open spec fn trigger_matches(f: FunctionConfig, et: Seq<char>) -> bool {
    match f.on.http {
        Some(_) => true,
        None => match f.on.nats {
            Some(nt) => text::contains_seq(et, nt.subject@) || text::contains_seq(
                nt.subject@,
                et,
            ),
            None => false,
        },
    }
}

/// The names of the functions the event triggers, in catalog order.
pub open spec fn matching_names(fs: Seq<FunctionConfig>, et: Seq<char>) -> Seq<Seq<char>>
    decreases fs.len(),
{
    if fs.len() == 0 {
        Seq::empty()
    } else {
        let rest = matching_names(fs.drop_first(), et);
        if trigger_matches(fs[0], et) {
            seq![fs[0].name@] + rest
        } else {
            rest
        }
    }
}

pub proof fn lemma_matching_names_snoc(fs: Seq<FunctionConfig>, f: FunctionConfig, et: Seq<char>)
    ensures
        matching_names(fs.push(f), et) == if trigger_matches(f, et) {
            matching_names(fs, et).push(f.name@)
        } else {
            matching_names(fs, et)
        },
    decreases fs.len(),
{
    if fs.len() == 0 {
        assert(fs =~= Seq::<FunctionConfig>::empty());
        assert(fs.push(f)[0] == f);
        assert(fs.push(f).drop_first() =~= Seq::<FunctionConfig>::empty());
        assert(matching_names(Seq::<FunctionConfig>::empty(), et) =~= Seq::<Seq<char>>::empty());
        if trigger_matches(f, et) {
            assert(matching_names(fs.push(f), et) =~= matching_names(fs, et).push(f.name@));
        }
    } else {
        assert(fs.push(f)[0] == fs[0]);
        assert(fs.push(f).drop_first() =~= fs.drop_first().push(f));
        lemma_matching_names_snoc(fs.drop_first(), f, et);
        if trigger_matches(f, et) {
            if trigger_matches(fs[0], et) {
                assert(matching_names(fs.push(f), et) =~= seq![fs[0].name@] + matching_names(
                    fs.drop_first(),
                    et,
                ).push(f.name@));
                assert(matching_names(fs, et).push(f.name@) =~= seq![fs[0].name@]
                    + matching_names(fs.drop_first(), et).push(f.name@));
            } else {
                assert(matching_names(fs.push(f), et) =~= matching_names(fs, et).push(f.name@));
            }
        }
    }
}

/// The first function of the catalog with the given name.
pub open spec fn found_function(fs: Seq<FunctionConfig>, name: Seq<char>) -> Option<
    FunctionConfig,
>
    decreases fs.len(),
{
    if fs.len() == 0 {
        None
    } else if fs[0].name@ == name {
        Some(fs[0])
    } else {
        found_function(fs.drop_first(), name)
    }
}

/// Runs the functions that the catalog declares for incoming events.
pub struct FunctionExecutor {
    pub config: NexusConfig,
    pub wasm: WasmExecutor,
}

impl FunctionExecutor {
    /// A fresh executor over the given catalog, with an empty module cache.
    pub fn new(config: NexusConfig) -> (r: Result<FunctionExecutor, String>)
        ensures
            match r {
                Ok(e) => e.config == config && e.wasm.cache_keys() == Seq::<
                    (u128, Option<Seq<char>>),
                >::empty(),
                Err(_) => true,
            },
    {
        match WasmExecutor::new() {
            Ok(wasm) => Ok(FunctionExecutor { config, wasm }),
            Err(e) => Err(e),
        }
    }

    /// The names of the functions this event type triggers, in catalog
    /// order. For a fixed catalog this is a pure function of the type:
    /// repeated calls return the same list.
    #[verifier::loop_isolation(false)]
    pub fn find_matching_functions(&self, event_type: &str) -> (r: Vec<String>)
        ensures
            r@.map_values(|s: String| s@) == matching_names(
                self.config.functions@,
                event_type@,
            ),
    {
        let fs = &self.config.functions;
        let mut r: Vec<String> = Vec::new();
        let mut j: usize = 0;
        while j < fs.len()
            invariant
                j <= fs@.len(),
                r@.map_values(|s: String| s@) == matching_names(fs@.take(j as int), event_type@),
            decreases fs.len() - j,
        {
            let f = &fs[j];
            let is_match = if f.on.http.is_some() {
                true
            } else {
                match &f.on.nats {
                    Some(nt) => text::str_contains(event_type, nt.subject.as_str())
                        || text::str_contains(nt.subject.as_str(), event_type),
                    None => false,
                }
            };
            proof {
                assert(is_match == trigger_matches(fs@[j as int], event_type@));
                lemma_matching_names_snoc(fs@.take(j as int), fs@[j as int], event_type@);
                assert(fs@.take(j as int).push(fs@[j as int]) =~= fs@.take(j + 1int));
            }
            if is_match {
                let ghost pre = r@;
                r.push(f.name.clone());
                proof {
                    assert(r@.map_values(|s: String| s@) =~= pre.map_values(
                        |s: String| s@,
                    ).push(fs@[j as int].name@));
                }
            }
            j = j + 1;
        }
        proof {
            assert(fs@.take(fs@.len() as int) =~= fs@);
        }
        r
    }

    /// The catalog entry for a function name, if the catalog has one.
    #[verifier::loop_isolation(false)]
    pub fn lookup_function(&self, name: &str) -> (r: Option<&FunctionConfig>)
        ensures
            match r {
                Some(f) => found_function(self.config.functions@, name@) == Some(*f),
                None => found_function(self.config.functions@, name@) is None,
            },
    {
        let fs = &self.config.functions;
        let name_s = name.to_owned();
        proof {
            assert(fs@.skip(0) =~= fs@);
        }
        let mut j: usize = 0;
        while j < fs.len()
            invariant
                j <= fs@.len(),
                name_s@ == name@,
                found_function(fs@, name@) == found_function(fs@.skip(j as int), name@),
            decreases fs.len() - j,
        {
            proof {
                assert(fs@.skip(j as int)[0] == fs@[j as int]);
                assert(fs@.skip(j as int).drop_first() =~= fs@.skip(j + 1int));
            }
            if fs[j].name == name_s {
                return Some(&fs[j]);
            }
            j = j + 1;
        }
        proof {
            assert(fs@.skip(fs@.len() as int).len() == 0);
        }
        None
    }
}

/// Law: dispatch determinism. For one catalog and one event type the
/// triggered list is a single value: any two results that meet the contract
/// of [`FunctionExecutor::find_matching_functions`] are equal, element for
/// element and in order.
pub proof fn lemma_dispatch_deterministic(
    fs: Seq<FunctionConfig>,
    et: Seq<char>,
    r1: Seq<Seq<char>>,
    r2: Seq<Seq<char>>,
)
    requires
        r1 == matching_names(fs, et),
        r2 == matching_names(fs, et),
    ensures
        r1 == r2,
{
}

} // verus!

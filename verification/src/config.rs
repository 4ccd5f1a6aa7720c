//! The function catalog: configuration types and their validation. The
//! schema itself arrives from app-side YAML loading; validation is the
//! library's rule and is verified here.

use vstd::prelude::*;

use crate::errors::NexusError;
use crate::text;

verus! {

/// A function's trigger: at least one of the two must be present.
pub struct TriggerConfig {
    pub http: Option<HttpTrigger>,
    pub nats: Option<NatsTrigger>,
}

pub struct HttpTrigger {
    pub method: String,
    pub path: String,
}

pub struct NatsTrigger {
    pub subject: String,
}

/// One function of the catalog.
pub struct FunctionConfig {
    pub name: String,
    pub on: TriggerConfig,
    pub runtime: String,
    pub code: String,
    pub timeout: String,
    pub memory: String,
    pub env: Vec<(String, String)>,
}

/// The whole catalog, loaded once at startup.
pub struct NexusConfig {
    pub version: String,
    pub functions: Vec<FunctionConfig>,
}

/// The default per-function timeout.
pub fn default_timeout() -> (r: String)
    ensures
        r@ == "5s"@,
{
    String::from_str("5s")
}

/// The default per-function memory hint.
pub fn default_memory() -> (r: String)
    ensures
        r@ == "128Mi"@,
{
    String::from_str("128Mi")
}

// ---------------------------------------------------------------------------
// What a valid catalog is.
// ---------------------------------------------------------------------------

pub open spec fn valid_runtime(rt: Seq<char>) -> bool {
    rt == "wasi-preview1"@ || rt == "wasi-preview2"@
}

/// One function is valid: a known runtime, a non-empty code path, and at
/// least one trigger.
pub open spec fn function_valid(f: FunctionConfig) -> bool {
    &&& valid_runtime(f.runtime@)
    &&& f.code@.len() > 0
    &&& (f.on.http is Some || f.on.nats is Some)
}

/// The function at `i` repeats a name that appears earlier in the catalog.
pub open spec fn dup_at(fs: Seq<FunctionConfig>, i: int) -> bool {
    exists|j: int| 0 <= j < i && fs[j].name@ == fs[i].name@
}

/// A valid catalog: the supported version, pairwise distinct names, and
/// every function valid.
pub open spec fn config_valid(c: NexusConfig) -> bool {
    &&& c.version@ == "v1"@
    &&& forall|i: int| 0 <= i < c.functions@.len() ==> !dup_at(c.functions@, i)
    &&& forall|i: int| 0 <= i < c.functions@.len() ==> function_valid(#[trigger] c.functions@[i])
}

// ---------------------------------------------------------------------------
// The exact message a rejected catalog produces.
// ---------------------------------------------------------------------------

pub open spec fn version_message(v: Seq<char>) -> Seq<char> {
    "Unsupported configuration version: "@ + v
}

pub open spec fn duplicate_message(name: Seq<char>) -> Seq<char> {
    "Duplicate function name: "@ + name
}

pub open spec fn runtime_message(f: FunctionConfig) -> Seq<char> {
    "Invalid runtime '"@ + f.runtime@ + "' for function '"@ + f.name@
        + "'. Valid options: wasi-preview1, wasi-preview2"@
}

pub open spec fn code_message(f: FunctionConfig) -> Seq<char> {
    "Function '"@ + f.name@ + "' has empty code path"@
}

pub open spec fn trigger_message(f: FunctionConfig) -> Seq<char> {
    "Function '"@ + f.name@ + "' must have at least one trigger (http or nats)"@
}

/// The message for one invalid function: the checks run in a fixed order.
pub open spec fn function_message(f: FunctionConfig) -> Seq<char> {
    if !valid_runtime(f.runtime@) {
        runtime_message(f)
    } else if f.code@.len() == 0 {
        code_message(f)
    } else {
        trigger_message(f)
    }
}

/// The first duplicated name from position `i` on, as its message.
pub open spec fn dup_message_from(fs: Seq<FunctionConfig>, i: int) -> Option<Seq<char>>
    decreases fs.len() - i,
{
    if i < 0 || i >= fs.len() {
        None
    } else if dup_at(fs, i) {
        Some(duplicate_message(fs[i].name@))
    } else {
        dup_message_from(fs, i + 1)
    }
}

/// The first invalid function from position `i` on, as its message.
pub open spec fn fn_message_from(fs: Seq<FunctionConfig>, i: int) -> Option<Seq<char>>
    decreases fs.len() - i,
{
    if i < 0 || i >= fs.len() {
        None
    } else if !function_valid(fs[i]) {
        Some(function_message(fs[i]))
    } else {
        fn_message_from(fs, i + 1)
    }
}

/// The message a rejected catalog reports: version first, then duplicate
/// names, then the per-function checks, each scan in catalog order.
pub open spec fn config_message(c: NexusConfig) -> Option<Seq<char>> {
    if c.version@ != "v1"@ {
        Some(version_message(c.version@))
    } else if dup_message_from(c.functions@, 0) is Some {
        dup_message_from(c.functions@, 0)
    } else {
        fn_message_from(c.functions@, 0)
    }
}

proof fn lemma_dup_message_none(fs: Seq<FunctionConfig>, i: int)
    requires
        0 <= i <= fs.len(),
        forall|t: int| i <= t < fs.len() ==> !dup_at(fs, t),
    ensures
        dup_message_from(fs, i) is None,
    decreases fs.len() - i,
{
    if i < fs.len() {
        lemma_dup_message_none(fs, i + 1);
    }
}

proof fn lemma_dup_message_found(fs: Seq<FunctionConfig>, i: int)
    requires
        0 <= i < fs.len(),
        forall|t: int| 0 <= t < i ==> !dup_at(fs, t),
        dup_at(fs, i),
    ensures
        dup_message_from(fs, 0) == Some(duplicate_message(fs[i].name@)),
{
    lemma_dup_message_step(fs, 0, i);
}

proof fn lemma_dup_message_step(fs: Seq<FunctionConfig>, a: int, i: int)
    requires
        0 <= a <= i < fs.len(),
        forall|t: int| a <= t < i ==> !dup_at(fs, t),
        dup_at(fs, i),
    ensures
        dup_message_from(fs, a) == Some(duplicate_message(fs[i].name@)),
    decreases i - a,
{
    if a < i {
        lemma_dup_message_step(fs, a + 1, i);
    }
}

proof fn lemma_fn_message_none(fs: Seq<FunctionConfig>, i: int)
    requires
        0 <= i <= fs.len(),
        forall|t: int| i <= t < fs.len() ==> function_valid(#[trigger] fs[t]),
    ensures
        fn_message_from(fs, i) is None,
    decreases fs.len() - i,
{
    if i < fs.len() {
        lemma_fn_message_none(fs, i + 1);
    }
}

proof fn lemma_fn_message_step(fs: Seq<FunctionConfig>, a: int, i: int)
    requires
        0 <= a <= i < fs.len(),
        forall|t: int| a <= t < i ==> function_valid(#[trigger] fs[t]),
        !function_valid(fs[i]),
    ensures
        fn_message_from(fs, a) == Some(function_message(fs[i])),
    decreases i - a,
{
    if a < i {
        lemma_fn_message_step(fs, a + 1, i);
    }
}

// ---------------------------------------------------------------------------
// The executable validation.
// ---------------------------------------------------------------------------

impl FunctionConfig {
    /// Check one function: runtime, code path, trigger, in that order.
    pub fn validate(&self) -> (r: Result<(), NexusError>)
        ensures
            r is Ok <==> function_valid(*self),
            match r {
                Ok(_) => true,
                Err(e) => match e {
                    NexusError::ConfigError { message } => message@ == function_message(*self),
                    _ => false,
                },
            },
    {
        let p1 = String::from_str("wasi-preview1");
        let p2 = String::from_str("wasi-preview2");
        if !(self.runtime == p1 || self.runtime == p2) {
            let message = text::concat_str("Invalid runtime '", self.runtime.as_str());
            let message = text::concat_str(message.as_str(), "' for function '");
            let message = text::concat_str(message.as_str(), self.name.as_str());
            let message = text::concat_str(
                message.as_str(),
                "'. Valid options: wasi-preview1, wasi-preview2",
            );
            proof {
                assert(message@ =~= runtime_message(*self));
            }
            return Err(NexusError::ConfigError { message });
        }
        if self.code.as_str().unicode_len() == 0 {
            let message = text::concat_str("Function '", self.name.as_str());
            let message = text::concat_str(message.as_str(), "' has empty code path");
            proof {
                assert(message@ =~= code_message(*self));
            }
            return Err(NexusError::ConfigError { message });
        }
        if self.on.http.is_none() && self.on.nats.is_none() {
            let message = text::concat_str("Function '", self.name.as_str());
            let message = text::concat_str(
                message.as_str(),
                "' must have at least one trigger (http or nats)",
            );
            proof {
                assert(message@ =~= trigger_message(*self));
            }
            return Err(NexusError::ConfigError { message });
        }
        Ok(())
    }
}

impl NexusConfig {
    /// Check the whole catalog: the version, then duplicate names in catalog
    /// order, then each function. `Ok` exactly on a valid catalog; a
    /// rejected catalog reports the message that [`config_message`] gives.
    pub fn validate(&self) -> (r: Result<(), NexusError>)
        ensures
            r is Ok <==> config_valid(*self),
            match r {
                Ok(_) => true,
                Err(e) => match e {
                    NexusError::ConfigError { message } => config_message(*self) == Some(
                        message@,
                    ),
                    _ => false,
                },
            },
    {
        let v1 = String::from_str("v1");
        if !(self.version == v1) {
            let message = text::concat_str(
                "Unsupported configuration version: ",
                self.version.as_str(),
            );
            proof {
                assert(message@ =~= version_message(self.version@));
            }
            return Err(NexusError::ConfigError { message });
        }
        let fs = &self.functions;
        let mut i: usize = 0;
        while i < fs.len()
            invariant
                i <= fs@.len(),
                fs@ == self.functions@,
                self.version@ == "v1"@,
                forall|t: int| 0 <= t < i ==> !dup_at(fs@, t),
            decreases fs.len() - i,
        {
            let mut j: usize = 0;
            while j < i
                invariant
                    j <= i < fs@.len(),
                    fs@ == self.functions@,
                    self.version@ == "v1"@,
                    forall|t: int| 0 <= t < i ==> !dup_at(fs@, t),
                    forall|t: int| 0 <= t < j ==> fs@[t].name@ != fs@[i as int].name@,
                decreases i - j,
            {
                if fs[j].name == fs[i].name {
                    let message = text::concat_str(
                        "Duplicate function name: ",
                        fs[i].name.as_str(),
                    );
                    proof {
                        assert(dup_at(fs@, i as int));
                        lemma_dup_message_found(fs@, i as int);
                        assert(message@ =~= duplicate_message(fs@[i as int].name@));
                    }
                    return Err(NexusError::ConfigError { message });
                }
                j = j + 1;
            }
            proof {
                assert(!dup_at(fs@, i as int));
            }
            i = i + 1;
        }
        proof {
            lemma_dup_message_none(fs@, 0);
        }
        let mut i: usize = 0;
        while i < fs.len()
            invariant
                i <= fs@.len(),
                fs@ == self.functions@,
                self.version@ == "v1"@,
                forall|t: int| 0 <= t < fs@.len() ==> !dup_at(fs@, t),
                dup_message_from(fs@, 0) is None,
                forall|t: int| 0 <= t < i ==> function_valid(#[trigger] fs@[t]),
            decreases fs.len() - i,
        {
            match fs[i].validate() {
                Ok(_) => {},
                Err(e) => {
                    proof {
                        lemma_fn_message_step(fs@, 0, i as int);
                    }
                    return Err(e);
                },
            }
            i = i + 1;
        }
        proof {
            lemma_fn_message_none(fs@, 0);
        }
        Ok(())
    }
}

} // verus!

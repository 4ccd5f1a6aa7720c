//! The sandboxed module executor: content-addressed compilation caching and
//! the per-invocation output protocol. Compilation goes through the sandbox
//! engine; instantiation and the actual run are asynchronous outside work
//! that the embedding process performs, handing the observed outcome back to
//! [`finish_default_run`] or [`finish_named_run`].

use vstd::prelude::*;

use crate::errors::NexusError;
use crate::json;
use crate::json::{JVal, JsonValue};
use crate::text;

verus! {

use vstd::utf8::encode_utf8;
use vstd::slice::slice_index_get;

#[verifier::external_type_specification]
#[verifier::external_body]
pub struct ExEngine(wasmtime::Engine);

#[verifier::external_type_specification]
#[verifier::external_body]
pub struct ExModule(wasmtime::Module);

/// The 128-bit content digest that keys the module cache; a function of the
/// bytes alone.
pub uninterp spec fn md5_digest_of(b: Seq<u8>) -> u128;

/// Relies on `md5::compute`: the digest depends on the bytes alone; the 16
/// digest bytes are read as one little-endian 128-bit integer.
#[verifier::external_body]
fn digest_of(bytes: &[u8]) -> (r: u128)
    ensures
        r == md5_digest_of(bytes@),
{
    u128::from_le_bytes(md5::compute(bytes).0)
}

/// Relies on `wasmtime::Config` (`wasm_multi_memory`, `async_support`) and
/// `wasmtime::Engine::new`: the engine the executor compiles and runs
/// modules on, with multi-memory and asynchronous support switched on.
#[verifier::external_body]
fn new_engine() -> (r: Result<wasmtime::Engine, String>) {
    let mut config = wasmtime::Config::new();
    config.wasm_multi_memory(true);
    config.async_support(true);
    wasmtime::Engine::new(&config).map_err(|e| e.to_string())
}

/// Relies on `wasmtime::Module::new`: compiles module bytes on the engine;
/// fails on bytes that are not a valid module.
#[verifier::external_body]
fn compile_module(engine: &wasmtime::Engine, bytes: &[u8]) -> (r: Result<wasmtime::Module, String>) {
    wasmtime::Module::new(engine, bytes).map_err(|e| e.to_string())
}

/// Relies on `wasmtime::Module::clone`: a module is a shared handle to its
/// compiled code.
#[verifier::external_body]
fn clone_module(m: &wasmtime::Module) -> (r: wasmtime::Module) {
    m.clone()
}

/// One cache line: the digest of the module bytes, the entry-point name for
/// named invocations, and the compiled module.
pub struct CacheEntry {
    pub digest: u128,
    pub func: Option<String>,
    pub module: wasmtime::Module,
}

/// A cache key as handed out by [`WasmExecutor::cache_stats`].
pub struct CacheKey {
    pub digest: u128,
    pub func: Option<String>,
}

pub open spec fn opt_text(o: Option<String>) -> Option<Seq<char>> {
    match o {
        None => None,
        Some(s) => Some(s@),
    }
}

pub open spec fn opt_str_text(o: Option<&str>) -> Option<Seq<char>> {
    match o {
        None => None,
        Some(s) => Some(s@),
    }
}

pub open spec fn entry_key(e: CacheEntry) -> (u128, Option<Seq<char>>) {
    (e.digest, opt_text(e.func))
}

fn opt_name_eq(a: &Option<String>, b: &Option<String>) -> (r: bool)
    ensures
        r == (opt_text(*a) == opt_text(*b)),
{
    match a {
        None => match b {
            None => true,
            Some(_) => false,
        },
        Some(x) => match b {
            None => false,
            Some(y) => *x == *y,
        },
    }
}

/// Runs modules with a process-local compilation cache keyed by content
/// digest, and by digest plus entry-point name for named invocations.
pub struct WasmExecutor {
    pub engine: wasmtime::Engine,
    pub cache: Vec<CacheEntry>,
}

impl WasmExecutor {
    /// The keys of the cache, in insertion order.
    pub open spec fn cache_keys(&self) -> Seq<(u128, Option<Seq<char>>)> {
        self.cache@.map_values(|e: CacheEntry| entry_key(e))
    }

    pub open spec fn has_key(&self, k: (u128, Option<Seq<char>>)) -> bool {
        self.cache_keys().contains(k)
    }

    /// A fresh executor with an empty cache.
    pub fn new() -> (r: Result<WasmExecutor, String>)
        ensures
            match r {
                Ok(w) => w.cache_keys() == Seq::<(u128, Option<Seq<char>>)>::empty(),
                Err(_) => true,
            },
    {
        match new_engine() {
            Ok(engine) => {
                let r = WasmExecutor { engine, cache: Vec::new() };
                proof {
                    assert(r.cache_keys() =~= Seq::<(u128, Option<Seq<char>>)>::empty());
                }
                Ok(r)
            },
            Err(e) => Err(e),
        }
    }

    /// The compiled module for these bytes (and entry point): the cached one
    /// on a hit; on a miss, a fresh compilation that joins the cache. The
    /// key set grows exactly by the new key on a successful miss and is
    /// unchanged otherwise.
    #[verifier::loop_isolation(false)]
    pub fn get_or_compile_module(&mut self, bytes: &[u8], func: Option<&str>) -> (r: Result<
        wasmtime::Module,
        String,
    >)
        ensures
            ({
                let k = (md5_digest_of(bytes@), opt_str_text(func));
                &&& old(self).has_key(k) ==> r is Ok && final(self).cache_keys() == old(
                    self,
                ).cache_keys()
                &&& (!old(self).has_key(k) && r is Ok) ==> final(self).cache_keys() == old(
                    self,
                ).cache_keys().push(k)
                &&& r is Err ==> final(self).cache_keys() == old(self).cache_keys()
                &&& r is Ok ==> final(self).has_key(k)
            }),
    {
        let d = digest_of(bytes);
        let fkey: Option<String> = match func {
            None => None,
            Some(f) => Some(f.to_owned()),
        };
        let ghost k = (md5_digest_of(bytes@), opt_str_text(func));
        proof {
            assert(opt_text(fkey) == opt_str_text(func));
        }
        let mut i: usize = 0;
        while i < self.cache.len()
            invariant
                i <= self.cache@.len(),
                d == k.0,
                opt_text(fkey) == k.1,
                self.cache@ == old(self).cache@,
                forall|t: int| 0 <= t < i ==> self.cache_keys()[t] != k,
            decreases self.cache.len() - i,
        {
            let entry = &self.cache[i];
            let func_same = opt_name_eq(&entry.func, &fkey);
            if entry.digest == d && func_same {
                proof {
                    assert(self.cache_keys()[i as int] == entry_key(self.cache@[i as int]));
                    assert(self.cache_keys()[i as int] == k);
                    assert(self.has_key(k));
                }
                return Ok(clone_module(&entry.module));
            }
            proof {
                assert(self.cache_keys()[i as int] == entry_key(self.cache@[i as int]));
                assert(self.cache_keys()[i as int] != k);
            }
            i = i + 1;
        }
        proof {
            assert(forall|t: int|
                0 <= t < self.cache_keys().len() ==> self.cache_keys()[t] != k);
            assert(!self.has_key(k));
        }
        match compile_module(&self.engine, bytes) {
            Ok(module) => {
                let returned = clone_module(&module);
                let ghost pre = self.cache@;
                self.cache.push(CacheEntry { digest: d, func: fkey, module });
                proof {
                    assert(self.cache@ =~= pre.push(self.cache@.last()));
                    assert(self.cache_keys() =~= pre.map_values(
                        |e: CacheEntry| entry_key(e),
                    ).push(k));
                    assert(self.cache_keys()[self.cache_keys().len() - 1] == k);
                    assert(self.has_key(k));
                }
                Ok(returned)
            },
            Err(e) => Err(e),
        }
    }

    /// Empty the cache.
    pub fn clear_cache(&mut self)
        ensures
            final(self).cache_keys() == Seq::<(u128, Option<Seq<char>>)>::empty(),
    {
        self.cache.clear();
        proof {
            assert(self.cache_keys() =~= Seq::<(u128, Option<Seq<char>>)>::empty());
        }
    }

    /// The number of cached modules and their keys.
    pub fn cache_stats(&self) -> (r: (usize, Vec<CacheKey>))
        ensures
            r.0 == self.cache_keys().len(),
            r.1@.len() == self.cache_keys().len(),
            forall|i: int|
                0 <= i < r.1@.len() ==> (#[trigger] r.1@[i]).digest == self.cache_keys()[i].0
                    && opt_text(r.1@[i].func) == self.cache_keys()[i].1,
    {
        let mut keys: Vec<CacheKey> = Vec::new();
        let mut i: usize = 0;
        while i < self.cache.len()
            invariant
                i <= self.cache@.len(),
                keys@.len() == i,
                forall|t: int|
                    0 <= t < i ==> (#[trigger] keys@[t]).digest == self.cache_keys()[t].0
                        && opt_text(keys@[t].func) == self.cache_keys()[t].1,
            decreases self.cache.len() - i,
        {
            let entry = &self.cache[i];
            let func: Option<String> = match &entry.func {
                None => None,
                Some(s) => Some(s.clone()),
            };
            keys.push(CacheKey { digest: entry.digest, func });
            i = i + 1;
        }
        (self.cache.len(), keys)
    }
}

/// Law: cache idempotence. A key absent from the cache joins it once: the
/// key set grows by exactly one entry and then holds the key, so a second
/// resolution of the same module is a hit and leaves the cache unchanged,
/// as the contract of [`WasmExecutor::get_or_compile_module`] states.
pub proof fn lemma_cache_idempotent(
    keys: Seq<(u128, Option<Seq<char>>)>,
    k: (u128, Option<Seq<char>>),
)
    requires
        !keys.contains(k),
    ensures
        keys.push(k).len() == keys.len() + 1,
        keys.push(k).contains(k),
{
    assert(keys.push(k)[keys.len() as int] == k);
}

// ---------------------------------------------------------------------------
// The invocation protocol around the asynchronous run.
// ---------------------------------------------------------------------------

/// What the embedding process observed of the entry point's run.
pub enum StartOutcome {
    /// The module exports no such entry point.
    Missing,
    /// The call returned normally.
    Completed,
    /// The call trapped; the text describes the trap.
    Trapped(String),
}

/// The output document of a default-mode invocation.
pub open spec fn default_output_doc(input_len: int) -> JVal {
    JVal::Obj(
        seq![
            ("status"@, JVal::Str("executed"@)),
            ("input_size"@, JVal::Int(input_len)),
            ("message"@, JVal::Str("Function executed successfully"@)),
        ],
    )
}

/// The output document of a named invocation.
pub open spec fn named_output_doc(func: Seq<char>, input_len: int) -> JVal {
    JVal::Obj(
        seq![
            ("status"@, JVal::Str("executed"@)),
            ("function"@, JVal::Str(func)),
            ("input_size"@, JVal::Int(input_len)),
        ],
    )
}

fn output_bytes(doc: &JsonValue) -> (r: Vec<u8>)
    ensures
        r@ == encode_utf8(json::ser_val(doc@)),
{
    let text = json::to_text(doc);
    let s = json::chars_to_string(text);
    s.as_str().as_bytes_vec()
}

/// Finish a default-mode invocation. A trap of `_start` is tolerated: the
/// output is the same success-shaped document whatever the outcome was.
pub fn finish_default_run(input_len: usize, _outcome: StartOutcome) -> (r: Vec<u8>)
    requires
        input_len <= i64::MAX,
    ensures
        r@ == encode_utf8(json::ser_val(default_output_doc(input_len as int))),
{
    let mut members: Vec<(String, JsonValue)> = Vec::new();
    members.push((String::from_str("status"), JsonValue::Str(String::from_str("executed"))));
    members.push((String::from_str("input_size"), JsonValue::Int(input_len as i64)));
    members.push(
        (
            String::from_str("message"),
            JsonValue::Str(String::from_str("Function executed successfully")),
        ),
    );
    proof {
        json::lemma_jmembers_of_index(members@);
        assert(members@ =~= seq![members@[0], members@[1], members@[2]]);
        assert(json::jmembers_of(members@) =~= seq![
            ("status"@, JVal::Str("executed"@)),
            ("input_size"@, JVal::Int(input_len as int)),
            ("message"@, JVal::Str("Function executed successfully"@)),
        ]);
    }
    let doc = JsonValue::Obj(members);
    output_bytes(&doc)
}

/// Finish a named invocation: success only when the entry point ran to
/// completion; a missing export and a trap are both fatal.
pub fn finish_named_run(func: &str, input_len: usize, outcome: StartOutcome) -> (r: Result<
    Vec<u8>,
    NexusError,
>)
    requires
        input_len <= i64::MAX,
    ensures
        match outcome {
            StartOutcome::Completed => match r {
                Ok(out) => out@ == encode_utf8(
                    json::ser_val(named_output_doc(func@, input_len as int)),
                ),
                Err(_) => false,
            },
            StartOutcome::Missing => match r {
                Err(NexusError::WasmError { function, message }) => function@ == func@
                    && message@ == "Function '"@ + func@ + "' not found in module"@,
                _ => false,
            },
            StartOutcome::Trapped(cause) => match r {
                Err(NexusError::WasmError { function, message }) => function@ == func@
                    && message@ == "Failed to execute function '"@ + func@ + "': "@ + cause@,
                _ => false,
            },
        },
{
    match outcome {
        StartOutcome::Completed => {
            let mut members: Vec<(String, JsonValue)> = Vec::new();
            members.push(
                (String::from_str("status"), JsonValue::Str(String::from_str("executed"))),
            );
            members.push((String::from_str("function"), JsonValue::Str(func.to_owned())));
            members.push((String::from_str("input_size"), JsonValue::Int(input_len as i64)));
            proof {
                json::lemma_jmembers_of_index(members@);
                assert(members@ =~= seq![members@[0], members@[1], members@[2]]);
                assert(json::jmembers_of(members@) =~= seq![
                    ("status"@, JVal::Str("executed"@)),
                    ("function"@, JVal::Str(func@)),
                    ("input_size"@, JVal::Int(input_len as int)),
                ]);
            }
            let doc = JsonValue::Obj(members);
            Ok(output_bytes(&doc))
        },
        StartOutcome::Missing => {
            let m = text::concat_str("Function '", func);
            let message = text::concat_str(m.as_str(), "' not found in module");
            Err(NexusError::WasmError { function: func.to_owned(), message })
        },
        StartOutcome::Trapped(cause) => {
            let m = text::concat_str("Failed to execute function '", func);
            let m = text::concat_str(m.as_str(), "': ");
            let message = text::concat_str(m.as_str(), cause.as_str());
            Err(NexusError::WasmError { function: func.to_owned(), message })
        },
    }
}

// ---------------------------------------------------------------------------
// Module loading checks. Reading the file is the embedding process's work;
// the checks on what was read are the library's.
// ---------------------------------------------------------------------------

/// The four magic bytes every module file starts with.
pub open spec fn wasm_magic_ok(b: Seq<u8>) -> bool {
    b.len() >= 4 && b[0] == 0x00u8 && b[1] == 0x61u8 && b[2] == 0x73u8 && b[3] == 0x6du8
}

/// `p` ends in `suffix`.
pub open spec fn has_suffix(s: Seq<char>, suffix: Seq<char>) -> bool {
    suffix.len() <= s.len() && s.skip(s.len() - suffix.len()) == suffix
}

/// Checks module files before they reach the executor.
#[derive(Debug, Clone)]
pub struct WasmLoader;

impl WasmLoader {
    pub fn new() -> (r: WasmLoader) {
        WasmLoader
    }

    /// Whether the bytes begin with the module magic number.
    pub fn validate_module_bytes(&self, bytes: &[u8]) -> (r: bool)
        ensures
            r == wasm_magic_ok(bytes@),
    {
        bytes.len() >= 4 && *slice_index_get(bytes, 0) == 0x00u8 && *slice_index_get(bytes, 1)
            == 0x61u8 && *slice_index_get(bytes, 2) == 0x73u8 && *slice_index_get(bytes, 3)
            == 0x6du8
    }

    /// Whether the path names a module file by its extension.
    pub fn has_wasm_extension(&self, path: &str) -> (r: bool)
        ensures
            r == has_suffix(path@, ".wasm"@),
    {
        let cs = text::chars_of_str(path);
        proof {
            reveal_strlit(".wasm");
        }
        if cs.len() < 5 {
            return false;
        }
        let base: usize = cs.len() - 5;
        let r = cs[base] == '.' && cs[base + 1] == 'w' && cs[base + 2] == 'a' && cs[base + 3]
            == 's' && cs[base + 4] == 'm';
        proof {
            if r {
                assert(path@.skip(path@.len() - 5) =~= ".wasm"@);
            } else {
                if has_suffix(path@, ".wasm"@) {
                    let tail = path@.skip(path@.len() - 5);
                    assert(tail[0] == path@[base as int]);
                    assert(tail[1] == path@[base + 1]);
                    assert(tail[2] == path@[base + 2]);
                    assert(tail[3] == path@[base + 3]);
                    assert(tail[4] == path@[base + 4]);
                }
            }
        }
        r
    }
}

/// The runtime facade: holds the loader; running modules goes through
/// [`WasmExecutor`].
#[derive(Debug, Clone)]
pub struct Runtime {
    pub loader: WasmLoader,
}

impl Runtime {
    pub fn new() -> (r: Runtime) {
        Runtime { loader: WasmLoader }
    }
}

} // verus!

//! Values of the node's command-line options.
use vstd::prelude::*;
use vstd::string::StrSliceExecFns;

verus! {

/// How wasmtime instantiates runtimes.
#[derive(Debug, Clone, Copy, PartialEq, Eq, Structural)]
pub enum WasmtimeInstantiationStrategy {
    /// Pool the instances and use copy-on-write memory when possible.
    PoolingCopyOnWrite,
    /// Recreate the instance on every instantiation, with copy-on-write memory when possible.
    RecreateInstanceCopyOnWrite,
    /// Pool the instances.
    Pooling,
    /// Recreate the instance on every instantiation. Very slow.
    RecreateInstance,
}

/// The default instantiation strategy.
pub const DEFAULT_WASMTIME_INSTANTIATION_STRATEGY: WasmtimeInstantiationStrategy =
    WasmtimeInstantiationStrategy::PoolingCopyOnWrite;

/// How runtimes are executed.
#[derive(Debug, Clone, Copy, PartialEq, Eq, Structural)]
pub enum WasmExecutionMethod {
    /// Uses a compiled runtime.
    Compiled,
}

impl WasmExecutionMethod {
    /// Display name of the method.
    pub fn name(&self) -> (r: &'static str)
        ensures
            r == "Compiled",
    {
        match self {
            WasmExecutionMethod::Compiled => "Compiled",
        }
    }
}

/// The default execution method.
pub const DEFAULT_WASM_EXECUTION_METHOD: WasmExecutionMethod = WasmExecutionMethod::Compiled;

/// Where tracing records go.
#[derive(Debug, Clone, Copy, PartialEq, Eq, Structural)]
pub enum TracingReceiver {
    /// Output the tracing records using the log.
    Log,
}

/// Kind of key that identifies the node on the network.
#[derive(Debug, Clone, Copy, PartialEq, Eq, Structural)]
pub enum NodeKeyType {
    /// Use ed25519.
    Ed25519,
}

/// Signature scheme of a key.
#[derive(Debug, Clone, Copy, PartialEq, Eq, Structural)]
pub enum CryptoScheme {
    /// Use ed25519.
    Ed25519,
    /// Use sr25519.
    Sr25519,
}

/// The type of the output format.
#[derive(Debug, Clone, Copy, PartialEq, Eq, Structural)]
pub enum OutputType {
    /// Output as json.
    Json,
    /// Output as text.
    Text,
}

/// Available RPC methods.
#[derive(Debug, Clone, Copy, PartialEq, Eq, Structural)]
pub enum RpcMethods {
    /// Expose every method only when RPC listens on localhost, otherwise the safe ones.
    Auto,
    /// Allow only a safe subset of methods.
    Safe,
    /// Expose every method.
    Unsafe,
}

/// Database backend.
#[derive(Debug, Clone, Copy, PartialEq, Eq, Structural)]
pub enum Database {
    /// ParityDb.
    ParityDb,
    /// Use an existing database if there is one, otherwise create a ParityDb one.
    Auto,
}

impl Database {
    /// Returns all the variants of this enum to be shown in the cli.
    pub fn variants() -> (r: &'static [&'static str])
        ensures
            r@ == seq!["paritydb", "paritydb-experimental", "auto"],
    {
        let r: &'static [&'static str] = &["paritydb", "paritydb-experimental", "auto"];
        r
    }
}

/// Whether off-chain workers are enabled.
#[derive(Debug, Clone, Copy, PartialEq, Eq, Structural)]
pub enum OffchainWorkerEnabled {
    /// Always have offchain worker enabled.
    Always,
    /// Never enable the offchain worker.
    Never,
    /// Only enable the offchain worker when running as an authority.
    WhenAuthority,
}

/// Syncing mode.
#[derive(Debug, Clone, Copy, PartialEq, Eq, Structural)]
pub enum SyncMode {
    /// Full sync. Download and verify all blocks.
    Full,
    /// Download blocks without executing them. Download latest state with proofs.
    Fast,
    /// Download blocks without executing them. Download latest state without proofs.
    FastUnsafe,
    /// Prove finality and download the latest state.
    Warp,
}

/// Syncing mode as the network layer takes it.
#[derive(Debug, Clone, Copy, PartialEq, Eq, Structural)]
pub enum NetworkSyncMode {
    /// Full block download and verification.
    Full,
    /// Download blocks and the latest state.
    LightState { skip_proofs: bool, storage_chain_mode: bool },
    /// Warp sync.
    Warp,
}

/// The network sync mode a command-line sync mode selects.
pub open spec fn network_sync_mode(m: SyncMode) -> NetworkSyncMode {
    match m {
        SyncMode::Full => NetworkSyncMode::Full,
        SyncMode::Fast => NetworkSyncMode::LightState { skip_proofs: false, storage_chain_mode: false },
        SyncMode::FastUnsafe => NetworkSyncMode::LightState { skip_proofs: true, storage_chain_mode: false },
        SyncMode::Warp => NetworkSyncMode::Warp,
    }
}

impl From<SyncMode> for NetworkSyncMode {
    fn from(m: SyncMode) -> (r: NetworkSyncMode)
        ensures
            r == network_sync_mode(m),
    {
        match m {
            SyncMode::Full => NetworkSyncMode::Full,
            SyncMode::Fast => NetworkSyncMode::LightState { skip_proofs: false, storage_chain_mode: false },
            SyncMode::FastUnsafe => NetworkSyncMode::LightState { skip_proofs: true, storage_chain_mode: false },
            SyncMode::Warp => NetworkSyncMode::Warp,
        }
    }
}

impl vstd::std_specs::convert::FromSpecImpl<SyncMode> for NetworkSyncMode {
    open spec fn obeys_from_spec() -> bool {
        true
    }

    open spec fn from_spec(m: SyncMode) -> NetworkSyncMode {
        network_sync_mode(m)
    }
}

/// CORS setting.
#[derive(Clone, Debug)]
pub enum Cors {
    /// All hosts allowed.
    All,
    /// Only hosts on the list are allowed.
    List(Vec<String>),
}

/// The pieces of `s` between commas, as `str::split(',')` cuts them.
pub open spec fn split_commas(s: Seq<char>) -> Seq<Seq<char>>
    decreases s.len(),
{
    if s.len() == 0 {
        seq![Seq::empty()]
    } else {
        let p = split_commas(s.drop_last());
        if s.last() == ',' {
            p.push(Seq::empty())
        } else {
            p.update(p.len() - 1, p.last().push(s.last()))
        }
    }
}

/// Whether a piece allows every host.
pub open spec fn is_wildcard(part: Seq<char>) -> bool {
    part == seq!['a', 'l', 'l'] || part == seq!['*']
}

proof fn lemma_split_nonempty(s: Seq<char>)
    ensures
        split_commas(s).len() >= 1,
    decreases s.len(),
{
    if s.len() > 0 {
        lemma_split_nonempty(s.drop_last());
    }
}

/// A prefix one character longer is the shorter prefix and that character.
proof fn lemma_split_step(s: Seq<char>, i: int)
    requires
        0 <= i < s.len(),
    ensures
        s.subrange(0, i + 1).drop_last() == s.subrange(0, i),
        s.subrange(0, i + 1).last() == s[i],
{
    assert(s.subrange(0, i + 1).drop_last() =~= s.subrange(0, i));
}

impl Cors {
    /// Reads a comma-separated list of origins; `all` or `*` among them allows every host.
    pub fn parse(s: &str) -> (r: Cors)
        ensures
            (exists|i: int| 0 <= i < split_commas(s@).len() && is_wildcard(#[trigger] split_commas(s@)[i]))
                ==> r is All,
            !(exists|i: int| 0 <= i < split_commas(s@).len() && is_wildcard(#[trigger] split_commas(s@)[i]))
                ==> r is List && r->List_0@.map_values(|p: String| p@) == split_commas(s@),
    {
        let n = s.unicode_len();
        let mut parts: Vec<String> = Vec::new();
        let mut start: usize = 0;
        let mut i: usize = 0;
        proof {
            lemma_split_nonempty(s@.subrange(0, 0));
            assert(s@.subrange(0, 0) =~= Seq::<char>::empty());
            assert(s@.subrange(0, 0) =~= s@.subrange(start as int, 0));
        }
        while i < n
            invariant
                n == s@.len(),
                start <= i <= n,
                parts@.map_values(|p: String| p@).push(s@.subrange(start as int, i as int)) == split_commas(
                    s@.subrange(0, i as int),
                ),
            decreases n - i,
        {
            let c = s.get_char(i);
            proof {
                lemma_split_step(s@, i as int);
            }
            if c == ',' {
                let piece = s.substring_char(start, i).to_owned();
                parts.push(piece);
                start = i + 1;
                proof {
                    assert(s@.subrange(start as int, i + 1) =~= Seq::<char>::empty());
                    assert(parts@.map_values(|p: String| p@).push(s@.subrange(start as int, i + 1)) =~= split_commas(
                        s@.subrange(0, i + 1),
                    ));
                }
            } else {
                proof {
                    lemma_split_nonempty(s@.subrange(0, i as int));
                    assert(s@.subrange(start as int, i + 1) =~= s@.subrange(start as int, i as int).push(c));
                    assert(parts@.map_values(|p: String| p@).push(s@.subrange(start as int, i + 1)) =~= split_commas(
                        s@.subrange(0, i as int),
                    ).update(
                        split_commas(s@.subrange(0, i as int)).len() - 1,
                        split_commas(s@.subrange(0, i as int)).last().push(c),
                    ));
                }
            }
            i = i + 1;
        }
        let last = s.substring_char(start, n).to_owned();
        parts.push(last);
        proof {
            assert(s@.subrange(0, n as int) =~= s@);
            assert(parts@.map_values(|p: String| p@) =~= split_commas(s@));
        }
        let ghost pieces = split_commas(s@);
        let mut k: usize = 0;
        while k < parts.len()
            invariant
                pieces == split_commas(s@),
                parts@.map_values(|p: String| p@) == pieces,
                k <= parts@.len(),
                forall|j: int| 0 <= j < k ==> !is_wildcard(#[trigger] pieces[j]),
            decreases parts@.len() - k,
        {
            let p = parts[k].as_str();
            assert(pieces[k as int] == p@);
            if p.unicode_len() == 3 && p.get_char(0) == 'a' && p.get_char(1) == 'l' && p.get_char(2) == 'l' {
                assert(p@ =~= seq!['a', 'l', 'l']);
                return Cors::All;
            }
            if p.unicode_len() == 1 && p.get_char(0) == '*' {
                assert(p@ =~= seq!['*']);
                return Cors::All;
            }
            proof {
                if p@ == seq!['a', 'l', 'l'] {
                    assert(p@[0] == 'a');
                }
                if p@ == seq!['*'] {
                    assert(p@[0] == '*');
                }
            }
            k = k + 1;
        }
        Cors::List(parts)
    }

    /// The allowed origins, or `None` when every host is allowed.
    pub fn into_origins(self) -> (r: Option<Vec<String>>)
        ensures
            self is All ==> r is None,
            self is List ==> r is Some && r->0@ == self->List_0@,
    {
        match self {
            Cors::All => None,
            Cors::List(list) => Some(list),
        }
    }
}

impl std::str::FromStr for Cors {
    type Err = String;

    fn from_str(s: &str) -> Result<Cors, String> {
        Ok(Cors::parse(s))
    }
}

/// How the node executes runtimes, as the service configuration takes it.
#[derive(Debug, Clone, Copy, PartialEq, Eq, Structural)]
pub enum ExecutionMethod {
    /// Compiled runtime, instantiated with the given strategy.
    Compiled { instantiation_strategy: WasmtimeInstantiationStrategy },
}

/// The execution method that a command-line instantiation strategy selects.
pub fn execution_method_from_cli(instantiation_strategy: WasmtimeInstantiationStrategy) -> (r: ExecutionMethod)
    ensures
        r == (ExecutionMethod::Compiled { instantiation_strategy }),
{
    ExecutionMethod::Compiled { instantiation_strategy }
}

/// Parameters for block import.
#[derive(Debug, Clone)]
pub struct ImportParams {
    /// Method for executing runtime code.
    pub wasm_method: WasmExecutionMethod,
    /// The instantiation strategy to use.
    pub wasmtime_instantiation_strategy: WasmtimeInstantiationStrategy,
    /// Where local runtimes that override on-chain ones are stored.
    pub wasm_runtime_overrides: Option<String>,
    /// Size of the state cache in bytes; `0` disables it.
    pub trie_cache_size: usize,
    /// Deprecated size of the state cache.
    pub state_cache_size: Option<usize>,
}

impl ImportParams {
    /// The trie cache size, or `None` when the cache is disabled.
    pub fn trie_cache_maximum_size(&self) -> (r: Option<usize>)
        ensures
            self.trie_cache_size == 0 ==> r is None,
            self.trie_cache_size != 0 ==> r == Some(self.trie_cache_size),
    {
        if self.trie_cache_size == 0 {
            None
        } else {
            Some(self.trie_cache_size)
        }
    }

    /// Whether the deprecated state cache option was given.
    pub fn uses_deprecated_state_cache(&self) -> (r: bool)
        ensures
            r == self.state_cache_size is Some,
    {
        self.state_cache_size.is_some()
    }

    /// The execution method these parameters select.
    pub fn wasm_method(&self) -> (r: ExecutionMethod)
        ensures
            r == (ExecutionMethod::Compiled { instantiation_strategy: self.wasmtime_instantiation_strategy }),
    {
        execution_method_from_cli(self.wasmtime_instantiation_strategy)
    }

    /// Where local runtimes that override on-chain ones are stored, if anywhere.
    pub fn wasm_runtime_overrides(&self) -> (r: Option<String>)
        ensures
            r == self.wasm_runtime_overrides,
    {
        match &self.wasm_runtime_overrides {
            Some(p) => Some(p.clone()),
            None => None,
        }
    }
}

/// Role of the node.
#[derive(Debug, Clone, Copy, PartialEq, Eq, Structural)]
pub enum Role {
    /// Regular full node.
    Full,
    /// Actual authority.
    Authority,
}

/// Off-chain worker settings of the service.
#[derive(Debug, Clone, Copy, PartialEq, Eq, Structural)]
pub struct OffchainWorkerConfig {
    /// Whether off-chain workers run.
    pub enabled: bool,
    /// Whether the runtime may write to the off-chain database during import.
    pub indexing_enabled: bool,
}

/// Off-chain worker parameters.
#[derive(Debug, Clone, Copy, PartialEq, Eq, Structural)]
pub struct OffchainWorkerParams {
    /// When to execute off-chain workers.
    pub enabled: OffchainWorkerEnabled,
    /// Whether the off-chain indexing API is enabled.
    pub indexing_enabled: bool,
}

impl OffchainWorkerParams {
    /// The off-chain worker settings for a node of the given role: always, never, or
    /// only on an authority.
    pub fn offchain_worker(&self, role: &Role) -> (r: OffchainWorkerConfig)
        ensures
            r.indexing_enabled == self.indexing_enabled,
            r.enabled == (self.enabled == OffchainWorkerEnabled::Always || (self.enabled
                == OffchainWorkerEnabled::WhenAuthority && *role == Role::Authority)),
    {
        let enabled = match (self.enabled, role) {
            (OffchainWorkerEnabled::WhenAuthority, Role::Authority) => true,
            (OffchainWorkerEnabled::Always, _) => true,
            (OffchainWorkerEnabled::Never, _) => false,
            (OffchainWorkerEnabled::WhenAuthority, _) => false,
        };
        OffchainWorkerConfig { enabled, indexing_enabled: self.indexing_enabled }
    }
}

} // verus!

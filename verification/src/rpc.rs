//! The ETH RPC server inside a parachain node: its configuration and the RPC modules of the node.

use std::marker::PhantomData;
use vstd::prelude::*;

verus! {

/// The SQLite in-memory connection string.
pub const IN_MEMORY_DB: &'static str = "sqlite::memory:";

/// How the receipt database is opened and how much it holds.
#[derive(Clone, Copy, Debug, PartialEq, Eq, Structural)]
pub struct DatabaseSettings {
    /// Whether a single connection is used, which is never closed: a database in memory lives only
    /// as long as its connection.
    pub single_connection: bool,
    /// How many of the latest blocks are kept, or nothing where all are.
    pub keep_latest_n_blocks: Option<usize>,
}

/// The settings for a database in memory or for a persistent one.
pub open spec fn settings_for(in_memory: bool, cache_size: usize) -> DatabaseSettings {
    DatabaseSettings {
        single_connection: in_memory,
        keep_latest_n_blocks: if in_memory {
            Some(cache_size)
        } else {
            None
        },
    }
}

impl DatabaseSettings {
    /// The settings for a database in memory or for a persistent one.
    pub fn new(in_memory: bool, cache_size: usize) -> (settings: DatabaseSettings)
        ensures
            settings == settings_for(in_memory, cache_size),
    {
        DatabaseSettings {
            single_connection: in_memory,
            keep_latest_n_blocks: if in_memory {
                Some(cache_size)
            } else {
                None
            },
        }
    }
}

/// Configuration for the embedded ETH RPC server.
#[derive(Clone, Debug)]
pub struct EthRpcConfig {
    /// Number of blocks to keep in the receipt cache.
    pub cache_size: usize,
    /// Whether to allow unprotected (chain-id-less) transactions.
    pub allow_unprotected_txs: bool,
    /// SQLite database URL for receipt storage.
    pub database_url: Option<String>,
    /// EVM chain ID.
    pub chain_id: u64,
}

impl Default for EthRpcConfig {
    fn default() -> (config: Self)
        ensures
            config.cache_size == 256,
            !config.allow_unprotected_txs,
            config.database_url is None,
            config.chain_id == 420420421,
    {
        EthRpcConfig {
            cache_size: 256,
            allow_unprotected_txs: false,
            database_url: None,
            chain_id: 420420421,
        }
    }
}

/// Whether the URL stands for a database in memory: none is given, or an empty one, or the one for
/// memory.
pub open spec fn is_in_memory(database_url: Option<String>) -> bool {
    match database_url {
        None => true,
        Some(url) => url@.len() == 0 || url@ == IN_MEMORY_DB@,
    }
}

/// Whether a text is the URL of a database in memory.
pub fn is_in_memory_url(url: &String) -> (same: bool)
    ensures
        same == (url@ == IN_MEMORY_DB@),
{
    let in_memory = String::from_str(IN_MEMORY_DB);
    *url == in_memory
}

/// Resolve the effective database URL and whether we're in-memory.
pub fn resolve_db(database_url: &Option<String>) -> (resolved: (&str, bool))
    ensures
        resolved.1 == is_in_memory(*database_url),
        resolved.0@ == (if is_in_memory(*database_url) {
            IN_MEMORY_DB@
        } else {
            database_url->0@
        }),
{
    match database_url {
        None => (IN_MEMORY_DB, true),
        Some(url) => {
            if url.as_str().is_empty() || is_in_memory_url(url) {
                (IN_MEMORY_DB, true)
            } else {
                (url.as_str(), false)
            }
        },
    }
}

impl EthRpcConfig {
    /// The URL of the database and how it is opened.
    pub fn database(&self) -> (database: (&str, DatabaseSettings))
        ensures
            database.0@ == (if is_in_memory(self.database_url) {
                IN_MEMORY_DB@
            } else {
                self.database_url->0@
            }),
            database.1 == settings_for(is_in_memory(self.database_url), self.cache_size),
    {
        let (url, in_memory) = resolve_db(&self.database_url);
        (url, DatabaseSettings::new(in_memory, self.cache_size))
    }
}

/// A module of the RPC server of a node.
#[derive(Clone, Copy, Debug, PartialEq, Eq, Structural)]
pub enum NodeRpcModule {
    /// Accounts and extrinsics.
    System,
    /// Transaction fees.
    TransactionPayment,
    /// Migration of the state trie.
    StateMigration,
    /// The statement store.
    StatementStore,
    /// Development helpers.
    Dev,
    /// The Ethereum interface.
    Eth,
}

/// The modules of a parachain node, in the order in which they are merged. The statement store comes
/// only where there is one.
pub open spec fn parachain_modules(has_statement_store: bool) -> Seq<NodeRpcModule> {
    if has_statement_store {
        seq![
            NodeRpcModule::System,
            NodeRpcModule::TransactionPayment,
            NodeRpcModule::StateMigration,
            NodeRpcModule::StatementStore,
            NodeRpcModule::Dev,
        ]
    } else {
        seq![
            NodeRpcModule::System,
            NodeRpcModule::TransactionPayment,
            NodeRpcModule::StateMigration,
            NodeRpcModule::Dev,
        ]
    }
}

/// RPC extensions for a parachain node.
#[derive(Debug)]
pub struct BuildParachainRpcExtensions<Block, RuntimeApi>(pub PhantomData<(Block, RuntimeApi)>);

/// RPC extensions for the Asset Hub node.
#[derive(Debug)]
pub struct BuildAssetHubRpcExtensions<Block, RuntimeApi>(pub PhantomData<(Block, RuntimeApi)>);

impl<Block, RuntimeApi> BuildParachainRpcExtensions<Block, RuntimeApi> {
    /// The modules to merge, in order.
    pub fn build_rpc_extensions(has_statement_store: bool) -> (modules: Vec<NodeRpcModule>)
        ensures
            modules@ == parachain_modules(has_statement_store),
    {
        let mut modules: Vec<NodeRpcModule> = Vec::new();
        modules.push(NodeRpcModule::System);
        modules.push(NodeRpcModule::TransactionPayment);
        modules.push(NodeRpcModule::StateMigration);
        if has_statement_store {
            modules.push(NodeRpcModule::StatementStore);
        }
        modules.push(NodeRpcModule::Dev);
        assert(modules@ =~= parachain_modules(has_statement_store));
        modules
    }
}

impl<Block, RuntimeApi> BuildAssetHubRpcExtensions<Block, RuntimeApi> {
    /// The modules to merge, in order: those of a parachain node, and always the Ethereum
    /// interface.
    pub fn build_rpc_extensions(has_statement_store: bool) -> (modules: Vec<NodeRpcModule>)
        ensures
            modules@ == parachain_modules(has_statement_store).push(NodeRpcModule::Eth),
    {
        let mut modules =
            BuildParachainRpcExtensions::<Block, RuntimeApi>::build_rpc_extensions(
            has_statement_store,
        );
        modules.push(NodeRpcModule::Eth);
        modules
    }
}

/// A database is in memory where no URL is given, an empty one, or that for memory; else it is the
/// one that is given. Only one in memory is pruned, to as many blocks as are cached.
pub proof fn a_database_is_the_one_that_is_given(
    config: EthRpcConfig,
    resolved: (&str, bool),
    database: (&str, DatabaseSettings),
)
    requires
        call_ensures(resolve_db, (&config.database_url,), resolved),
        call_ensures(EthRpcConfig::database, (&config,), database),
    ensures
        database.0@ == resolved.0@,
        database.1.single_connection == resolved.1,
        database.1.keep_latest_n_blocks == (if resolved.1 {
            Some(config.cache_size)
        } else {
            None
        }),
        config.database_url is None ==> resolved.1,
        config.database_url matches Some(url) ==> (resolved.1 <==> url@.len() == 0 || url@
            == "sqlite::memory:"@),
        resolved.1 ==> resolved.0@ == "sqlite::memory:"@,
        config.database_url matches Some(url) ==> (!resolved.1 ==> resolved.0@ == url@),
{
}

/// The modules of a parachain node come in order, the statement store only where there is one, and
/// the Ethereum interface only on the Asset Hub, where it is the last.
pub proof fn the_modules_of_a_node_come_in_order<Block, RuntimeApi>(
    has_statement_store: bool,
    modules: Vec<NodeRpcModule>,
    of_asset_hub: Vec<NodeRpcModule>,
)
    requires
        call_ensures(
            BuildParachainRpcExtensions::<Block, RuntimeApi>::build_rpc_extensions,
            (has_statement_store,),
            modules,
        ),
        call_ensures(
            BuildAssetHubRpcExtensions::<Block, RuntimeApi>::build_rpc_extensions,
            (has_statement_store,),
            of_asset_hub,
        ),
    ensures
        modules@.len() == (if has_statement_store {
            5nat
        } else {
            4nat
        }),
        modules@[0] is System && modules@[1] is TransactionPayment && modules@[2] is StateMigration,
        has_statement_store ==> modules@[3] is StatementStore,
        modules@.last() is Dev,
        of_asset_hub@.drop_last() == modules@,
        of_asset_hub@.len() > 0 && of_asset_hub@.last() is Eth,
{
    assert(of_asset_hub@.drop_last() =~= modules@);
}

/// A node without settings keeps its records in memory, those of the latest 256 blocks, and takes no
/// transaction without the identifier of its chain.
pub proof fn a_node_without_settings_keeps_its_records_in_memory(
    config: EthRpcConfig,
    database: (&str, DatabaseSettings),
)
    requires
        call_ensures(<EthRpcConfig as Default>::default, (), config),
        call_ensures(EthRpcConfig::database, (&config,), database),
    ensures
        database.0@ == "sqlite::memory:"@,
        database.1.single_connection,
        database.1.keep_latest_n_blocks == Some(256usize),
        !config.allow_unprotected_txs,
        config.chain_id == 420420421,
{
}

} // verus!

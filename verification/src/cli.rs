//! The standalone Ethereum JSON-RPC server: what the command line asks for.

use crate::client::SubscriptionType;
use crate::rpc::{is_in_memory_url, DatabaseSettings};
use crate::text::decimal_text;
use vstd::prelude::*;

verus! {

/// Default port if no port for metrics is specified.
pub const DEFAULT_PROMETHEUS_PORT: u16 = 9616;

/// Default port if no RPC port is specified.
pub const DEFAULT_RPC_PORT: u16 = 8545;

/// Default port of the node that the server connects to.
pub const DEFAULT_NODE_PORT: u16 = 9944;

/// What the command line asks for.
#[derive(Debug)]
pub struct CliCommand {
    /// The maximum number of blocks to cache in memory.
    pub cache_size: usize,
    /// Earliest block number to consider when searching for transaction receipts.
    pub earliest_receipt_block: Option<u32>,
    /// The database used to store Ethereum transaction hashes.
    pub database_url: String,
    /// If provided, index the last n blocks.
    pub index_last_n_blocks: Option<u32>,
    /// The port of the RPC server.
    pub rpc_port: Option<u16>,
    /// Whether the server runs for development.
    pub is_dev: bool,
    /// Whether transactions without a chain id are accepted.
    pub allow_unprotected_txs: bool,
}

/// A task that keeps the receipts up to date.
#[derive(Clone, Copy, Debug, PartialEq, Eq, Structural)]
pub enum SubscriptionTask {
    /// Follow new blocks.
    NewBlocks(SubscriptionType),
    /// Index this many past blocks.
    PastBlocks(u32),
}

/// The tasks that keep the receipts up to date: best and finalized blocks are always followed, and
/// past blocks are indexed where that is asked for.
pub open spec fn tasks(index_last_n_blocks: Option<u32>) -> Seq<SubscriptionTask> {
    let always = seq![
        SubscriptionTask::NewBlocks(SubscriptionType::BestBlocks),
        SubscriptionTask::NewBlocks(SubscriptionType::FinalizedBlocks),
    ];
    match index_last_n_blocks {
        Some(n) => always.push(SubscriptionTask::PastBlocks(n)),
        None => always,
    }
}

/// The tasks that keep the receipts up to date.
pub fn subscription_tasks(index_last_n_blocks: Option<u32>) -> (list: Vec<SubscriptionTask>)
    ensures
        list@ == tasks(index_last_n_blocks),
{
    let mut list: Vec<SubscriptionTask> = Vec::new();
    list.push(SubscriptionTask::NewBlocks(SubscriptionType::BestBlocks));
    list.push(SubscriptionTask::NewBlocks(SubscriptionType::FinalizedBlocks));
    assert(list@ =~= tasks(None));
    match index_last_n_blocks {
        Some(n) => {
            list.push(SubscriptionTask::PastBlocks(n));
        },
        None => {},
    }
    list
}

/// The URL of the node that the server connects to, from the first address that was given, if any.
pub fn node_rpc_url(first_address: Option<(String, u16)>) -> (url: String)
    ensures
        url@ == (match first_address {
            Some((ip, port)) => "ws://"@ + ip@ + ":"@ + crate::text::decimal(
                port as nat,
            ),
            None => "ws://127.0.0.1:9944"@,
        }),
{
    match first_address {
        Some((ip, port)) => {
            let mut url = String::from_str("ws://");
            url.append(ip.as_str());
            url.append(":");
            let port = decimal_text(port);
            url.append(port.as_str());
            url
        },
        None => String::from_str("ws://127.0.0.1:9944"),
    }
}

/// How the Ethereum module of the server is set up.
#[derive(Clone, Copy, Debug, PartialEq, Eq, Structural)]
pub struct EthModuleSettings {
    /// Whether the accounts for development are there.
    pub with_dev_accounts: bool,
    /// Whether transactions without a chain id are accepted.
    pub allow_unprotected_txs: bool,
    /// Whether gas is estimated on the pending block.
    pub use_pending_for_estimate_gas: bool,
}

/// A module of the Ethereum JSON-RPC server.
#[derive(Clone, Copy, Debug, PartialEq, Eq, Structural)]
pub enum ServerModule {
    /// The Ethereum methods.
    Eth(EthModuleSettings),
    /// The health of the node.
    SystemHealth,
    /// Tracing.
    Debug,
    /// What is particular to the chain.
    Polkadot,
}

/// The modules of the Ethereum JSON-RPC server, in the order in which they are merged.
pub fn build_eth_rpc_module(is_dev: bool, allow_unprotected_txs: bool) -> (modules: Vec<
    ServerModule,
>)
    ensures
        modules@ == seq![
            ServerModule::Eth(
                EthModuleSettings {
                    with_dev_accounts: is_dev,
                    allow_unprotected_txs,
                    use_pending_for_estimate_gas: is_dev,
                },
            ),
            ServerModule::SystemHealth,
            ServerModule::Debug,
            ServerModule::Polkadot,
        ],
{
    vec![
        ServerModule::Eth(
            EthModuleSettings {
                with_dev_accounts: is_dev,
                allow_unprotected_txs,
                use_pending_for_estimate_gas: is_dev,
            },
        ),
        ServerModule::SystemHealth,
        ServerModule::Debug,
        ServerModule::Polkadot,
    ]
}

/// How the database with the given URL is opened. Only the URL for memory stands for a database in
/// memory here.
pub fn build_client_from_backend(database_url: &String, cache_size: usize) -> (settings:
    DatabaseSettings)
    ensures
        settings == crate::rpc::settings_for(
            database_url@ == crate::rpc::IN_MEMORY_DB@,
            cache_size,
        ),
{
    DatabaseSettings::new(is_in_memory_url(database_url), cache_size)
}

impl CliCommand {
    /// How the database is opened.
    pub fn database_settings(&self) -> (settings: DatabaseSettings)
        ensures
            settings == crate::rpc::settings_for(
                self.database_url@ == crate::rpc::IN_MEMORY_DB@,
                self.cache_size,
            ),
    {
        build_client_from_backend(&self.database_url, self.cache_size)
    }

    /// The port of the RPC server.
    pub fn port(&self) -> (port: u16)
        ensures
            port == (match self.rpc_port {
                Some(port) => port,
                None => DEFAULT_RPC_PORT,
            }),
    {
        self.rpc_port.unwrap_or(DEFAULT_RPC_PORT)
    }

    /// How much of a request is logged, in bytes.
    pub fn request_logger_limit(&self) -> (limit: u32)
        ensures
            limit == (if self.is_dev {
                1024 * 1024
            } else {
                1024
            }),
    {
        if self.is_dev {
            1024 * 1024
        } else {
            1024
        }
    }
}

/// Best and finalized blocks are always followed, past blocks only where they are asked for, and as
/// many as are asked for.
pub proof fn new_blocks_are_always_followed(
    index_last_n_blocks: Option<u32>,
    list: Vec<SubscriptionTask>,
)
    requires
        call_ensures(subscription_tasks, (index_last_n_blocks,), list),
    ensures
        list@.len() == (if index_last_n_blocks is Some {
            3nat
        } else {
            2nat
        }),
        list@[0] == SubscriptionTask::NewBlocks(SubscriptionType::BestBlocks),
        list@[1] == SubscriptionTask::NewBlocks(SubscriptionType::FinalizedBlocks),
        index_last_n_blocks matches Some(n) ==> list@[2] == SubscriptionTask::PastBlocks(n),
{
}

/// The node is reached at the address that is given, with its port in digits, or at the port 9944 of
/// the own machine.
pub proof fn the_node_is_reached_where_it_is_given(
    first_address: Option<(String, u16)>,
    url: String,
)
    requires
        call_ensures(node_rpc_url, (first_address,), url),
    ensures
        first_address is None ==> url@ == "ws://127.0.0.1:9944"@,
        first_address matches Some((ip, port)) ==> {
            let start = 6 + ip@.len() as int;
            &&& url@.len() > start
            &&& url@.take(start) == "ws://"@ + ip@ + ":"@
            &&& crate::text::digits_value(url@.skip(start)) == port
        },
{
    reveal_strlit("ws://");
    reveal_strlit(":");
    if let Some((ip, port)) = first_address {
        let start = 6 + ip@.len() as int;
        let digits = crate::text::decimal(port as nat);
        crate::text::digits_stand_for_their_number(port as nat);
        assert(url@.take(start) =~= "ws://"@ + ip@ + ":"@);
        assert(url@.skip(start) =~= digits);
    }
}

/// The server has four modules, the Ethereum one first; accounts and estimates for development come
/// only there, and unprotected transactions only where they are allowed.
pub proof fn the_modules_of_the_server_are_set_up(
    is_dev: bool,
    allow_unprotected_txs: bool,
    modules: Vec<ServerModule>,
)
    requires
        call_ensures(build_eth_rpc_module, (is_dev, allow_unprotected_txs), modules),
    ensures
        modules@.len() == 4,
        modules@[0] matches ServerModule::Eth(settings) && settings.with_dev_accounts == is_dev
            && settings.allow_unprotected_txs == allow_unprotected_txs
            && settings.use_pending_for_estimate_gas == is_dev,
        modules@[1] is SystemHealth,
        modules@[2] is Debug,
        modules@[3] is Polkadot,
{
}

/// Only a database in memory is pruned, to as many blocks as are cached, and uses one connection.
pub proof fn only_a_database_in_memory_is_pruned(
    command: CliCommand,
    settings: DatabaseSettings,
    built: DatabaseSettings,
)
    requires
        call_ensures(CliCommand::database_settings, (&command,), settings),
        call_ensures(
            build_client_from_backend,
            (&command.database_url, command.cache_size),
            built,
        ),
    ensures
        built == settings,
        command.database_url@ == "sqlite::memory:"@ ==> settings.single_connection
            && settings.keep_latest_n_blocks == Some(command.cache_size),
        command.database_url@ != "sqlite::memory:"@ ==> !settings.single_connection
            && settings.keep_latest_n_blocks is None,
{
}

/// The server listens at the port that is given, or at 8545, and logs a thousand times as much of a
/// request for development.
pub proof fn the_server_listens_where_it_is_told(command: CliCommand, port: u16, limit: u32)
    requires
        call_ensures(CliCommand::port, (&command,), port),
        call_ensures(CliCommand::request_logger_limit, (&command,), limit),
    ensures
        command.rpc_port is Some ==> port == command.rpc_port->0,
        command.rpc_port is None ==> port == 8545,
        command.is_dev ==> limit == 0x10_0000,
        !command.is_dev ==> limit == 0x400,
{
}

} // verus!

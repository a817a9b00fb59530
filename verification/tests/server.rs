//! The configuration of the server.

use revive_eth_rpc::cli::{
    build_client_from_backend, build_eth_rpc_module, node_rpc_url, subscription_tasks, CliCommand,
    EthModuleSettings, ServerModule, SubscriptionTask,
};
use revive_eth_rpc::client::SubscriptionType;
use revive_eth_rpc::primitives::{H160, H256, U256};
use revive_eth_rpc::rpc::{
    resolve_db, BuildAssetHubRpcExtensions, BuildParachainRpcExtensions, DatabaseSettings,
    EthRpcConfig, NodeRpcModule,
};

#[test]
fn databases_are_resolved() {
    assert_eq!(resolve_db(&None), ("sqlite::memory:", true));
    assert_eq!(resolve_db(&Some(String::new())), ("sqlite::memory:", true));
    assert_eq!(resolve_db(&Some("sqlite::memory:".to_string())), ("sqlite::memory:", true));
    assert_eq!(resolve_db(&Some("sqlite:a.db".to_string())), ("sqlite:a.db", false));
}

#[test]
fn the_default_configuration() {
    let config: EthRpcConfig = Default::default();
    assert_eq!(config.cache_size, 256);
    assert!(!config.allow_unprotected_txs);
    assert_eq!(config.database_url, None);
    assert_eq!(config.chain_id, 420420421);
    let (url, settings) = config.database();
    assert_eq!(url, "sqlite::memory:");
    assert_eq!(
        settings,
        DatabaseSettings { single_connection: true, keep_latest_n_blocks: Some(256) }
    );
    let file = EthRpcConfig {
        cache_size: 5,
        allow_unprotected_txs: true,
        database_url: Some("sqlite:a.db".to_string()),
        chain_id: 1,
    };
    let (url, settings) = file.database();
    assert_eq!(url, "sqlite:a.db");
    assert_eq!(
        settings,
        DatabaseSettings { single_connection: false, keep_latest_n_blocks: None }
    );
}

#[test]
fn only_the_memory_url_is_in_memory_on_the_command_line() {
    let in_memory = build_client_from_backend(&"sqlite::memory:".to_string(), 9);
    assert_eq!(in_memory.keep_latest_n_blocks, Some(9));
    assert!(in_memory.single_connection);
    assert_eq!(build_client_from_backend(&String::new(), 9).keep_latest_n_blocks, None);
}

fn command(is_dev: bool) -> CliCommand {
    CliCommand {
        cache_size: 256,
        earliest_receipt_block: None,
        database_url: "sqlite::memory:".to_string(),
        index_last_n_blocks: None,
        rpc_port: None,
        is_dev,
        allow_unprotected_txs: false,
    }
}

#[test]
fn the_command_line() {
    assert_eq!(command(false).port(), 8545);
    assert_eq!(CliCommand { rpc_port: Some(1), ..command(false) }.port(), 1);
    assert_eq!(command(false).request_logger_limit(), 1024);
    assert_eq!(command(true).request_logger_limit(), 1024 * 1024);
    assert_eq!(command(true).database_settings().keep_latest_n_blocks, Some(256));
}

#[test]
fn the_url_of_the_node() {
    assert_eq!(node_rpc_url(None), "ws://127.0.0.1:9944");
    assert_eq!(node_rpc_url(Some(("10.0.0.1".to_string(), 8080))), "ws://10.0.0.1:8080");
    assert_eq!(node_rpc_url(Some(("h".to_string(), 7))), "ws://h:7");
}

#[test]
fn tasks_follow_blocks() {
    let always = vec![
        SubscriptionTask::NewBlocks(SubscriptionType::BestBlocks),
        SubscriptionTask::NewBlocks(SubscriptionType::FinalizedBlocks),
    ];
    assert_eq!(subscription_tasks(None), always);
    let mut with_past = always;
    with_past.push(SubscriptionTask::PastBlocks(3));
    assert_eq!(subscription_tasks(Some(3)), with_past);
}

#[test]
fn the_modules_of_the_server() {
    let modules = build_eth_rpc_module(true, false);
    assert_eq!(
        modules,
        vec![
            ServerModule::Eth(EthModuleSettings {
                with_dev_accounts: true,
                allow_unprotected_txs: false,
                use_pending_for_estimate_gas: true,
            }),
            ServerModule::SystemHealth,
            ServerModule::Debug,
            ServerModule::Polkadot,
        ]
    );
}

#[test]
fn the_modules_of_the_node() {
    let with_store = BuildParachainRpcExtensions::<u8, u8>::build_rpc_extensions(true);
    assert_eq!(
        with_store,
        vec![
            NodeRpcModule::System,
            NodeRpcModule::TransactionPayment,
            NodeRpcModule::StateMigration,
            NodeRpcModule::StatementStore,
            NodeRpcModule::Dev,
        ]
    );
    let without_store = BuildParachainRpcExtensions::<u8, u8>::build_rpc_extensions(false);
    assert_eq!(without_store.len(), 4);
    let asset_hub = BuildAssetHubRpcExtensions::<u8, u8>::build_rpc_extensions(false);
    assert_eq!(asset_hub.len(), 5);
    assert_eq!(asset_hub[4], NodeRpcModule::Eth);
}

#[test]
fn integers_and_hashes() {
    let big = U256 { high: 1, low: 0 };
    let small = U256::from_u64(u64::MAX);
    assert!(big.exceeds(&small));
    assert!(!small.exceeds(&big));
    assert!(!small.exceeds(&small));
    assert_eq!(small.to_u64(), Some(u64::MAX));
    assert_eq!(big.to_u64(), None);
    assert_eq!(small.to_u32(), None);
    assert_eq!(U256::from_usize(5).to_usize(), Some(5));
    assert_eq!(big.to_usize(), None);
    let mut bytes = [1u8; 32];
    assert_eq!(H256(bytes), H256::from_slice(&[1; 32]));
    bytes[31] = 0;
    assert_ne!(H256(bytes), H256([1; 32]));
    assert_eq!(H160::from_slice(&[2; 20]).to_vec(), vec![2; 20]);
    assert_ne!(H160([1; 20]), H160([2; 20]));
}

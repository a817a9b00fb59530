//! Log filters and the rows that they ask for.

use revive_eth_rpc::block_cache::BlockHashMap;
use revive_eth_rpc::database::SqlValue;
use revive_eth_rpc::evm::{BlockNumberOrTag, BlockTag, Log};
use revive_eth_rpc::log_filter::{
    AddressOrAddresses, Condition, Filter, FilterTopic, LogFilterError, LogQuery, StoredLog,
};
use revive_eth_rpc::primitives::{H160, H256, U256};
use revive_eth_rpc::receipt_extractor::ReceiptExtractor;
use revive_eth_rpc::receipt_provider::ReceiptProvider;

fn nothing() -> Filter {
    Default::default()
}

fn number(n: u64) -> Option<BlockNumberOrTag> {
    Some(BlockNumberOrTag::U256(U256::from_u64(n)))
}

fn tag(tag: BlockTag) -> Option<BlockNumberOrTag> {
    Some(BlockNumberOrTag::BlockTag(tag))
}

fn query(filter: Filter) -> LogQuery {
    ReceiptProvider::logs(Some(filter), 100).unwrap()
}

fn refused(filter: Filter) -> LogFilterError {
    ReceiptProvider::logs(Some(filter), 100).unwrap_err()
}

fn integers(query: &LogQuery) -> Vec<i64> {
    query
        .binds()
        .iter()
        .map(|value| match value {
            SqlValue::Integer(value) => *value,
            other => panic!("{other:?}"),
        })
        .collect()
}

#[test]
fn no_filter_asks_for_the_latest_block() {
    let query = ReceiptProvider::logs(None, 100).unwrap();
    assert_eq!(query.sql(), "SELECT logs.* FROM logs WHERE 1=1 AND block_number = ? LIMIT 10000");
    assert_eq!(integers(&query), vec![100]);
}

#[test]
fn ranges_of_blocks() {
    let both = query(Filter { from_block: number(3), to_block: number(5), ..nothing() });
    assert_eq!(
        both.sql(),
        "SELECT logs.* FROM logs WHERE 1=1 AND block_number BETWEEN ? AND ? LIMIT 10000"
    );
    assert_eq!(integers(&both), vec![3, 5]);
    let same = query(Filter { from_block: number(3), to_block: number(3), ..nothing() });
    assert_eq!(same.sql(), "SELECT logs.* FROM logs WHERE 1=1 AND block_number = ? LIMIT 10000");
    assert_eq!(integers(&same), vec![3]);
    let from = query(Filter { from_block: number(3), ..nothing() });
    assert_eq!(from.sql(), "SELECT logs.* FROM logs WHERE 1=1 AND block_number >= ? LIMIT 10000");
    assert_eq!(integers(&from), vec![3]);
    let to = query(Filter { to_block: number(5), ..nothing() });
    assert_eq!(to.sql(), "SELECT logs.* FROM logs WHERE 1=1 AND block_number <= ? LIMIT 10000");
    assert_eq!(integers(&to), vec![5]);
    let latest = query(Filter {
        from_block: number(3),
        to_block: tag(BlockTag::Latest),
        ..nothing()
    });
    assert_eq!(integers(&latest), vec![3, 100]);
}

#[test]
fn a_block_hash() {
    let query = query(Filter { block_hash: Some(H256([7; 32])), ..nothing() });
    assert_eq!(query.sql(), "SELECT logs.* FROM logs WHERE 1=1 AND block_hash = ? LIMIT 10000");
    match &query.binds()[0] {
        SqlValue::Blob(bytes) => assert_eq!(*bytes, vec![7; 32]),
        other => panic!("{other:?}"),
    }
}

#[test]
fn addresses_and_topics() {
    let query = query(Filter {
        address: Some(AddressOrAddresses::Addresses(vec![H160([1; 20]), H160([2; 20])])),
        topics: Some(vec![
            FilterTopic::Single(H256([3; 32])),
            FilterTopic::Multiple(vec![H256([4; 32]), H256([5; 32]), H256([6; 32])]),
            FilterTopic::Multiple(vec![]),
        ]),
        ..nothing()
    });
    assert_eq!(
        query.sql(),
        "SELECT logs.* FROM logs WHERE 1=1 AND block_number = ? AND address IN (?, ?) \
         AND topic_0 = ? AND topic_1 IN (?, ?, ?) AND topic_2 IN () LIMIT 10000"
    );
    let binds = query.binds();
    assert_eq!(binds.len(), 7);
    match &binds[1] {
        SqlValue::Blob(bytes) => assert_eq!(*bytes, vec![1; 20]),
        other => panic!("{other:?}"),
    }
    match &binds[6] {
        SqlValue::Blob(bytes) => assert_eq!(*bytes, vec![6; 32]),
        other => panic!("{other:?}"),
    }
    let one = ReceiptProvider::logs(
        Some(Filter { address: Some(AddressOrAddresses::Address(H160([1; 20]))), ..nothing() }),
        100,
    )
    .unwrap();
    assert!(matches!(one.conditions[1], Condition::AddressIs(H160(_))));
    assert_eq!(
        one.sql(),
        "SELECT logs.* FROM logs WHERE 1=1 AND block_number = ? AND address = ? LIMIT 10000"
    );
}

#[test]
fn filters_are_refused() {
    let unsupported = refused(Filter { from_block: tag(BlockTag::Earliest), ..nothing() });
    assert_eq!(unsupported, LogFilterError::UnsupportedTag(BlockTag::Earliest));
    assert_eq!(unsupported.message(), "Unsupported tag: Earliest");
    assert_eq!(
        refused(Filter { to_block: tag(BlockTag::Pending), ..nothing() }).message(),
        "Unsupported tag: Pending"
    );
    // The tag of the first block is looked at first.
    assert_eq!(
        refused(Filter {
            from_block: tag(BlockTag::Safe),
            to_block: tag(BlockTag::Finalized),
            ..nothing()
        })
        .message(),
        "Unsupported tag: Safe"
    );
    let with_hash = refused(Filter {
        to_block: number(1),
        block_hash: Some(H256([1; 32])),
        ..nothing()
    });
    assert_eq!(with_hash.message(), "block number and block hash cannot be used together");
    let beyond = refused(Filter { from_block: number(1), to_block: number(101), ..nothing() });
    assert_eq!(beyond.message(), "block number exceeds latest block");
    let huge = Some(BlockNumberOrTag::U256(U256 { high: 1, low: 0 }));
    assert_eq!(
        refused(Filter { from_block: huge, ..nothing() }),
        LogFilterError::ExceedsLatest
    );
    let range = refused(Filter { from_block: number(5), to_block: number(3), ..nothing() });
    assert_eq!(range.message(), "invalid block range params");
    let topics = (0..5).map(|i| FilterTopic::Single(H256([i; 32]))).collect();
    let too_many = refused(Filter { topics: Some(topics), ..nothing() });
    assert_eq!(too_many.message(), "exceed max topics");
}

fn row() -> StoredLog {
    StoredLog {
        block_hash: vec![1; 32],
        transaction_index: 2,
        log_index: 3,
        address: vec![4; 20],
        block_number: 5,
        transaction_hash: vec![6; 32],
        topic_0: Some(vec![7; 32]),
        topic_1: None,
        topic_2: Some(vec![8; 32]),
        topic_3: None,
        data: Some(vec![9]),
    }
}

#[test]
fn rows_become_logs() {
    let log = Log::from_row(row());
    assert_eq!(log.block_hash, H256([1; 32]));
    assert_eq!(log.transaction_index, U256::from_u64(2));
    assert_eq!(log.log_index, U256::from_u64(3));
    assert_eq!(log.address, H160([4; 20]));
    assert_eq!(log.block_number, U256::from_u64(5));
    assert_eq!(log.transaction_hash, H256([6; 32]));
    assert_eq!(log.topics, vec![H256([7; 32]), H256([8; 32])]);
    assert_eq!(log.data, Some(vec![9]));
    assert!(!log.removed);
    let negative = Log::from_row(StoredLog { log_index: -1, ..row() });
    assert_eq!(negative.log_index, U256::from_u64(u64::MAX));
}

#[test]
fn a_written_log_is_read_back() {
    let written = Log::from_row(row());
    let topics = written.topics.clone();
    let block = BlockHashMap::new(H256([50; 32]), written.block_hash);
    let mut receipt = revive_eth_rpc::evm::ReceiptInfo::new(
        written.block_hash,
        written.block_number,
        None,
        H160([0; 20]),
        vec![],
        [0; 256],
        None,
        U256::zero(),
        U256::zero(),
        true,
        written.transaction_hash,
        written.transaction_index,
        0,
    );
    receipt.logs = vec![written];
    let tx = revive_eth_rpc::evm::TransactionSigned::decode(
        &hex::decode("cc01808301e2418080801b0101").unwrap(),
    )
    .unwrap();
    let receipts = [(tx, receipt)];
    let statements = ReceiptProvider::new(ReceiptExtractor::new(None), None).insert_with_hashes(
        block.substrate_hash,
        5,
        &receipts,
        &block.ethereum_hash,
        false,
    );
    let stored = match &statements[1] {
        revive_eth_rpc::database::Statement::InsertLog(row) => StoredLog {
            block_hash: row.block_hash.to_vec(),
            transaction_index: row.transaction_index as i64,
            log_index: row.log_index as i64,
            address: row.address.to_vec(),
            block_number: row.block_number,
            transaction_hash: row.transaction_hash.to_vec(),
            topic_0: row.topic_0.map(|topic| topic.to_vec()),
            topic_1: row.topic_1.map(|topic| topic.to_vec()),
            topic_2: row.topic_2.map(|topic| topic.to_vec()),
            topic_3: row.topic_3.map(|topic| topic.to_vec()),
            data: row.data.clone(),
        },
        other => panic!("{other:?}"),
    };
    let read = Log::from_row(stored);
    let original = &receipts[0].1.logs[0];
    assert_eq!(read.topics, topics);
    assert_eq!(read.block_hash, original.block_hash);
    assert_eq!(read.block_number, original.block_number);
    assert_eq!(read.log_index, original.log_index);
    assert_eq!(read.transaction_hash, original.transaction_hash);
    assert_eq!(read.transaction_index, original.transaction_index);
    assert_eq!(read.address, original.address);
    assert_eq!(read.data, original.data);
}

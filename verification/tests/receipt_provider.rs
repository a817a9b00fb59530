//! The receipt index together with a database that executes its statements.

use revive_eth_rpc::block_cache::{BlockHashMap, MAX_CACHED_BLOCKS};
use revive_eth_rpc::database::{Query, SqlValue, Statement};
use revive_eth_rpc::evm::{BlockNumberOrTag, BlockTag, Log, ReceiptInfo, TransactionSigned};
use revive_eth_rpc::primitives::{H160, H256, U256};
use revive_eth_rpc::receipt_extractor::ReceiptExtractor;
use revive_eth_rpc::receipt_provider::ReceiptProvider;
use std::collections::BTreeMap;

const LEGACY: &str = "f86080808301e24194095e7baea6a6c7c4c2dfeb977efac326af552d87808026a07b2e762a17a71a46b422e60890a04512cf0d907ccf6b78b5bd6e6977efdc2bf5a01ea673d50bbe7c2236acb498ceb8346a8607c941f0b8cbcde7cf439aa9369f1f";

/// The three tables.
struct Database {
    transaction_hashes: BTreeMap<[u8; 32], ([u8; 32], i32)>,
    eth_to_substrate_blocks: BTreeMap<[u8; 32], [u8; 32]>,
    logs: Vec<([u8; 32], i32, i32)>,
}

impl Database {
    fn new() -> Self {
        Database {
            transaction_hashes: BTreeMap::new(),
            eth_to_substrate_blocks: BTreeMap::new(),
            logs: vec![],
        }
    }

    fn execute(&mut self, statements: Vec<Statement>) {
        for statement in statements {
            match statement {
                Statement::DeleteTransactions(hashes) => {
                    self.transaction_hashes.retain(|_, row| !hashes.contains(&H256(row.0)))
                }
                Statement::DeleteLogs(hashes) => {
                    self.logs.retain(|row| !hashes.contains(&H256(row.0)))
                }
                Statement::DeleteMappings(hashes) => {
                    self.eth_to_substrate_blocks.retain(|_, hash| !hashes.contains(&H256(*hash)))
                }
                Statement::InsertTransaction { transaction_hash, block_hash, transaction_index } => {
                    self.transaction_hashes
                        .insert(transaction_hash.0, (block_hash.0, transaction_index));
                }
                Statement::InsertLog(row) => {
                    self.logs.push((row.block_hash.0, row.transaction_index, row.log_index))
                }
                Statement::InsertMapping { ethereum_hash, substrate_hash } => {
                    self.eth_to_substrate_blocks.insert(ethereum_hash.0, substrate_hash.0);
                }
            }
        }
    }

    fn has_block(&self, substrate_hash: &H256) -> bool {
        self.eth_to_substrate_blocks.values().any(|hash| *hash == substrate_hash.0)
    }

    fn find_transaction(&self, hash: &H256) -> Option<(H256, usize)> {
        let row = self.transaction_hashes.get(&hash.0);
        ReceiptProvider::find_transaction(row.map(|row| (row.0.to_vec(), row.1 as i64)))
    }
}

fn transaction() -> TransactionSigned {
    TransactionSigned::decode(&hex::decode(LEGACY).unwrap()).unwrap()
}

fn log(block_hash: H256, transaction_hash: H256) -> Log {
    Log {
        address: H160([0; 20]),
        block_hash,
        block_number: U256::zero(),
        data: None,
        log_index: U256::zero(),
        removed: false,
        topics: vec![],
        transaction_hash,
        transaction_index: U256::zero(),
    }
}

fn receipt(transaction_hash: H256, logs: Vec<Log>) -> ReceiptInfo {
    ReceiptInfo::new(
        H256([0; 32]),
        U256::zero(),
        None,
        H160([0; 20]),
        logs,
        [0; 256],
        None,
        U256::zero(),
        U256::zero(),
        true,
        transaction_hash,
        U256::zero(),
        0,
    )
}

fn insert_with_hashes(
    provider: &mut ReceiptProvider,
    database: &mut Database,
    hash: H256,
    number: u32,
    receipts: &[(TransactionSigned, ReceiptInfo)],
    ethereum_hash: &H256,
) {
    let block_map = BlockHashMap::new(hash, *ethereum_hash);
    database.execute(provider.prune_blocks(number, &block_map));
    let exists = database.has_block(&hash);
    database.execute(provider.insert_with_hashes(
        hash,
        number,
        receipts,
        ethereum_hash,
        exists,
    ));
}

fn provider(keep_latest_n_blocks: Option<usize>) -> ReceiptProvider {
    ReceiptProvider::new(ReceiptExtractor::new(None), keep_latest_n_blocks)
}

fn from_low_u64(value: u64) -> H256 {
    let mut bytes = [0u8; 32];
    bytes[24..].copy_from_slice(&value.to_be_bytes());
    H256(bytes)
}

#[test]
fn test_insert_remove() {
    let mut provider = provider(Some(10));
    let mut database = Database::new();
    let hash = H256([0; 32]);
    let receipts = vec![(transaction(), receipt(H256([0; 32]), vec![log(hash, H256([0; 32]))]))];
    let ethereum_hash = H256([1u8; 32]);
    let block_map = BlockHashMap::new(hash, ethereum_hash);

    insert_with_hashes(&mut provider, &mut database, hash, 0, &receipts, &ethereum_hash);
    let row = database.find_transaction(&receipts[0].1.transaction_hash);
    assert_eq!(row, Some((hash, 0)));
    assert_eq!(database.logs.len(), 1);

    database.execute(ReceiptProvider::remove(&[block_map]));
    assert_eq!(database.transaction_hashes.values().filter(|row| row.0 == hash.0).count(), 0);
    assert_eq!(database.logs.iter().filter(|row| row.0 == hash.0).count(), 0);
    assert_eq!(database.transaction_hashes.len(), 0);
    assert_eq!(database.logs.len(), 0);
    assert_eq!(database.eth_to_substrate_blocks.len(), 0);
}

#[test]
fn test_prune() {
    let n = 10;
    let mut provider = provider(Some(n));
    let mut database = Database::new();

    for i in 0..2 * n {
        let hash = H256([i as u8; 32]);
        let transaction_hash = H256([i as u8; 32]);
        let receipts = vec![(transaction(), receipt(transaction_hash, vec![log(hash, transaction_hash)]))];
        let ethereum_hash = H256([(i + 1) as u8; 32]);
        insert_with_hashes(&mut provider, &mut database, hash, i as u32, &receipts, &ethereum_hash);
    }
    assert_eq!(database.transaction_hashes.len(), n);
    assert_eq!(database.logs.len(), n);
    assert_eq!(database.eth_to_substrate_blocks.len(), n);
    assert_eq!(provider.cached_blocks(), n);
    for i in 0..2 * n as u32 {
        assert_eq!(provider.cached_block(i).is_some(), i >= n as u32);
    }
}

#[test]
fn test_fork() {
    let mut provider = provider(Some(10));
    let mut database = Database::new();
    let build_block = |seed: u8, number: u32| {
        let hash = H256([seed; 32]);
        let transaction_hash = H256([seed; 32]);
        let receipts = vec![(transaction(), receipt(transaction_hash, vec![log(hash, transaction_hash)]))];
        (hash, number, receipts, H256([seed + 1; 32]))
    };

    let mut blocks = vec![];
    for seed in 0..4u8 {
        let (hash, number, receipts, ethereum_hash) = build_block(seed, seed as u32);
        insert_with_hashes(&mut provider, &mut database, hash, number, &receipts, &ethereum_hash);
        blocks.push(BlockHashMap::new(hash, ethereum_hash));
    }

    assert_eq!(database.transaction_hashes.len(), 4);
    assert_eq!(database.logs.len(), 4);
    assert_eq!(database.eth_to_substrate_blocks.len(), 4);
    assert_eq!(provider.cached_blocks(), 4);
    for (number, block) in blocks.iter().enumerate() {
        assert_eq!(provider.cached_block(number as u32), Some(*block));
    }

    // Fork at height 1.
    let (hash, number, receipts, ethereum_hash) = build_block(4, 1);
    insert_with_hashes(&mut provider, &mut database, hash, number, &receipts, &ethereum_hash);

    assert_eq!(database.transaction_hashes.len(), 2);
    assert_eq!(database.logs.len(), 2);
    assert_eq!(database.eth_to_substrate_blocks.len(), 2);
    assert_eq!(provider.cached_blocks(), 2);
    assert_eq!(provider.cached_block(0), Some(blocks[0]));
    assert_eq!(provider.cached_block(1), Some(BlockHashMap::new(hash, ethereum_hash)));
    assert_eq!(provider.cached_block(2), None);
}

#[test]
fn test_receipts_count_per_block() {
    let mut provider = provider(Some(10));
    let mut database = Database::new();
    let hash = H256([0; 32]);
    let receipts = vec![
        (transaction(), receipt(H256([0u8; 32]), vec![])),
        (transaction(), receipt(H256([1u8; 32]), vec![])),
    ];
    let ethereum_hash = H256([2u8; 32]);

    insert_with_hashes(&mut provider, &mut database, hash, 0, &receipts, &ethereum_hash);
    let counted = database.transaction_hashes.values().filter(|row| row.0 == hash.0).count();
    let count = ReceiptProvider::receipts_count_per_block(Some(counted as i64));
    assert_eq!(count, Some(2));
    assert_eq!(ReceiptProvider::receipts_count_per_block(None), None);
}

#[test]
fn persistent_mode_caps_in_memory_map() {
    let mut provider = provider(None);
    let mut database = Database::new();

    // Insert more than MAX_CACHED_BLOCKS blocks.
    let start_block: u64 = 1;
    let n = MAX_CACHED_BLOCKS + 1;
    let end_block = start_block + n as u64;
    for i in start_block..end_block {
        let hash = from_low_u64(i);
        let receipts = vec![(transaction(), receipt(hash, vec![log(hash, hash)]))];
        let ethereum_hash = from_low_u64(i + 1);
        insert_with_hashes(&mut provider, &mut database, hash, i as u32, &receipts, &ethereum_hash);
    }

    // The map is capped at MAX_CACHED_BLOCKS.
    assert_eq!(provider.cached_blocks(), MAX_CACHED_BLOCKS);

    // The oldest block (1) should have been evicted, keeping blocks 2..=MAX+1.
    assert!(provider.cached_block(1).is_none());
    assert!(provider.cached_block(2).is_some());
    assert!(provider.cached_block(MAX_CACHED_BLOCKS as u32 + 1).is_some());

    // All blocks are still in the DB.
    assert_eq!(database.eth_to_substrate_blocks.len(), n);
    assert_eq!(database.transaction_hashes.len(), n);
}

#[test]
fn inserting_the_same_block_again_changes_nothing() {
    let mut provider = provider(Some(10));
    let mut database = Database::new();
    let hash = H256([7; 32]);
    let ethereum_hash = H256([8; 32]);
    let receipts = vec![(transaction(), receipt(H256([9; 32]), vec![log(hash, H256([9; 32]))]))];
    insert_with_hashes(&mut provider, &mut database, hash, 5, &receipts, &ethereum_hash);
    insert_with_hashes(&mut provider, &mut database, hash, 5, &receipts, &ethereum_hash);
    assert_eq!(database.logs.len(), 1);
    assert_eq!(database.transaction_hashes.len(), 1);
    assert_eq!(provider.cached_blocks(), 1);
}

#[test]
fn a_fork_only_cuts_the_run_that_follows() {
    let mut provider = provider(Some(10));
    for number in [1u32, 2, 3, 5, 6] {
        provider.prune_blocks(
            number,
            &BlockHashMap::new(H256([number as u8; 32]), H256([number as u8 + 100; 32])),
        );
    }
    let statements =
        provider.prune_blocks(2, &BlockHashMap::new(H256([50; 32]), H256([150; 32])));
    assert!(provider.cached_block(1).is_some());
    assert_eq!(provider.cached_block(2).unwrap().substrate_hash, H256([50; 32]));
    assert!(provider.cached_block(3).is_none());
    assert!(provider.cached_block(5).is_some());
    assert!(provider.cached_block(6).is_some());
    assert_eq!(statements.len(), 3);
    match &statements[0] {
        Statement::DeleteTransactions(hashes) => {
            assert_eq!(*hashes, vec![H256([2; 32]), H256([3; 32])])
        }
        other => panic!("{other:?}"),
    }
    match &statements[1] {
        Statement::DeleteLogs(hashes) => {
            assert_eq!(*hashes, vec![H256([102; 32]), H256([103; 32])])
        }
        other => panic!("{other:?}"),
    }
    match &statements[2] {
        Statement::DeleteMappings(hashes) => {
            assert_eq!(*hashes, vec![H256([2; 32]), H256([3; 32])])
        }
        other => panic!("{other:?}"),
    }
}

#[test]
fn a_fork_at_the_greatest_number_keeps_the_new_block() {
    for keep in [None, Some(10)] {
        let mut provider = provider(keep);
        let new = BlockHashMap::new(H256([3; 32]), H256([4; 32]));
        provider.prune_blocks(u32::MAX, &BlockHashMap::new(H256([1; 32]), H256([2; 32])));
        let statements = provider.prune_blocks(u32::MAX, &new);
        assert_eq!(provider.cached_blocks(), 1);
        assert_eq!(provider.cached_block(u32::MAX), Some(new));
        assert_eq!(statements.len(), 3);
        match &statements[0] {
            Statement::DeleteTransactions(hashes) => assert_eq!(*hashes, vec![H256([1; 32])]),
            other => panic!("{other:?}"),
        }
    }
    // A run that ends at the greatest number is cut up to its end.
    let mut provider = provider(Some(10));
    for number in [u32::MAX - 1, u32::MAX] {
        let seed = (number % 256) as u8;
        provider.prune_blocks(number, &BlockHashMap::new(H256([seed; 32]), H256([seed; 32])));
    }
    let new = BlockHashMap::new(H256([3; 32]), H256([4; 32]));
    provider.prune_blocks(u32::MAX - 1, &new);
    assert_eq!(provider.cached_blocks(), 1);
    assert_eq!(provider.cached_block(u32::MAX - 1), Some(new));
}

#[test]
fn a_late_block_leaves_no_record() {
    let arrive = |provider: &mut ReceiptProvider, database: &mut Database, number: u8| {
        let hash = H256([number; 32]);
        let receipts = vec![(transaction(), receipt(hash, vec![log(hash, hash)]))];
        let ethereum_hash = H256([number + 100; 32]);
        insert_with_hashes(provider, database, hash, number as u32, &receipts, &ethereum_hash);
    };

    let mut limited = provider(Some(1));
    let mut database = Database::new();
    arrive(&mut limited, &mut database, 5);
    arrive(&mut limited, &mut database, 3);
    assert_eq!(limited.cached_blocks(), 1);
    assert!(limited.cached_block(5).is_some());
    assert_eq!(database.eth_to_substrate_blocks.len(), 1);
    assert_eq!(database.eth_to_substrate_blocks[&[105; 32]], [5; 32]);
    assert_eq!(database.transaction_hashes.len(), 1);
    assert_eq!(database.logs.len(), 1);
    // A second time changes nothing.
    arrive(&mut limited, &mut database, 3);
    assert_eq!(database.eth_to_substrate_blocks.len(), 1);
    assert_eq!(database.logs.len(), 1);
    // A later block takes the place.
    arrive(&mut limited, &mut database, 6);
    assert_eq!(database.eth_to_substrate_blocks.len(), 1);
    assert!(database.has_block(&H256([6; 32])));

    let mut several = provider(Some(3));
    let mut database = Database::new();
    for number in [7, 2, 9, 4, 1, 8, 3] {
        arrive(&mut several, &mut database, number);
        assert!(database.eth_to_substrate_blocks.len() <= 3);
        for substrate_hash in database.eth_to_substrate_blocks.values() {
            assert!(several.cached_block(substrate_hash[0] as u32).is_some());
        }
        for row in database.transaction_hashes.values() {
            assert!(database.has_block(&H256(row.0)));
        }
        for row in &database.logs {
            assert!(database.eth_to_substrate_blocks.contains_key(&row.0));
        }
    }
    for number in [7u32, 8, 9] {
        assert!(several.cached_block(number).is_some());
    }

    // A persistent database has every block.
    let mut persistent = provider(None);
    let mut database = Database::new();
    for number in (1..=MAX_CACHED_BLOCKS as u32 + 1).rev() {
        let hash = from_low_u64(number as u64);
        let receipts = vec![(transaction(), receipt(hash, vec![]))];
        insert_with_hashes(&mut persistent, &mut database, hash, number, &receipts, &hash);
    }
    assert!(persistent.cached_block(1).is_none());
    assert!(database.has_block(&from_low_u64(1)));
    assert_eq!(database.eth_to_substrate_blocks.len(), MAX_CACHED_BLOCKS + 1);
}

#[test]
fn mapped_blocks_keep_their_records() {
    // The first transaction of a block is also in the blocks that it competes with.
    let transaction_hash = |seed: u8, i: u8| {
        let mut bytes = [if i == 0 { seed / 10 * 10 } else { seed }; 32];
        bytes[31] = i;
        H256(bytes)
    };
    for keep in [Some(0), Some(1), Some(3), None] {
        let mut provider = provider(keep);
        let mut database = Database::new();
        // Forks, late blocks and blocks that arrive again; the seed tells the number and the branch.
        for seed in [10u8, 20, 30, 21, 31, 41, 10, 11, 21, 40, 60, 50, 51, 20, 60, 31] {
            let (hash, ethereum_hash) = (H256([seed; 32]), H256([seed + 100; 32]));
            let count = seed % 10 + 1;
            let receipts: Vec<_> = (0..count)
                .map(|i| {
                    let mut receipt = receipt(
                        transaction_hash(seed, i),
                        vec![log(ethereum_hash, transaction_hash(seed, i))],
                    );
                    receipt.transaction_index = U256::from_u64(i as u64);
                    (transaction(), receipt)
                })
                .collect();
            let number = (seed / 10) as u32;
            insert_with_hashes(
                &mut provider,
                &mut database,
                hash,
                number,
                &receipts,
                &ethereum_hash,
            );
            let mut logs = 0;
            for (ethereum_hash, hash) in &database.eth_to_substrate_blocks {
                let seed = hash[0];
                assert_eq!(*ethereum_hash, [seed + 100; 32]);
                let count = seed % 10 + 1;
                logs += count as usize;
                for i in 0..count {
                    assert_eq!(
                        database.find_transaction(&transaction_hash(seed, i)),
                        Some((H256(*hash), i as usize))
                    );
                }
                let rows: Vec<(i64, Vec<u8>)> = database
                    .transaction_hashes
                    .iter()
                    .filter(|(_, row)| row.0 == *hash)
                    .map(|(transaction, row)| (row.1 as i64, transaction.to_vec()))
                    .collect();
                let hashes = ReceiptProvider::block_transaction_hashes(&rows);
                assert_eq!(hashes.len(), count as usize);
                for i in 0..count {
                    assert_eq!(hashes[&(i as usize)], transaction_hash(seed, i));
                }
                let found: Vec<i32> = database
                    .logs
                    .iter()
                    .filter(|row| row.0 == *ethereum_hash)
                    .map(|row| row.1)
                    .collect();
                assert_eq!(found, (0..count as i32).collect::<Vec<_>>());
            }
            assert_eq!(database.logs.len(), logs);
            for number in 0..10 {
                if let Some(block) = provider.cached_block(number) {
                    assert_eq!(
                        database.eth_to_substrate_blocks.get(&block.ethereum_hash.0),
                        Some(&block.substrate_hash.0)
                    );
                }
            }
        }
    }
}

#[test]
fn what_is_stored_is_told() {
    let block = BlockHashMap::new(H256([1; 32]), H256([2; 32]));
    let other = BlockHashMap::new(H256([3; 32]), H256([2; 32]));
    let mut limited = provider(Some(2));
    assert!(!limited.stores(7, &block));
    limited.prune_blocks(7, &block);
    assert!(limited.stores(7, &block));
    assert!(!limited.stores(7, &other));
    assert!(!limited.stores(8, &block));
    assert!(provider(None).stores(7, &block));
}

#[test]
fn eviction_takes_the_lowest_numbers_first() {
    let mut provider = provider(Some(2));
    for number in [30u32, 10, 20] {
        provider.prune_blocks(
            number,
            &BlockHashMap::new(H256([number as u8; 32]), H256([number as u8 + 1; 32])),
        );
    }
    assert!(provider.cached_block(10).is_none());
    assert!(provider.cached_block(20).is_some());
    assert!(provider.cached_block(30).is_some());
    // A limit of zero keeps nothing.
    let mut none = ReceiptProvider::new(ReceiptExtractor::new(None), Some(0));
    let statements = none.prune_blocks(1, &BlockHashMap::new(H256([1; 32]), H256([2; 32])));
    assert_eq!(none.cached_blocks(), 0);
    assert_eq!(statements.len(), 3);
}

#[test]
fn removing_nothing_takes_no_statement() {
    assert_eq!(ReceiptProvider::remove(&[]).len(), 0);
}

#[test]
fn statements_are_written_out() {
    let block = BlockHashMap::new(H256([1; 32]), H256([2; 32]));
    let statements = ReceiptProvider::remove(&[block, block]);
    assert_eq!(
        statements[0].sql(),
        "DELETE FROM transaction_hashes WHERE block_hash in (?, ?)"
    );
    assert_eq!(statements[1].sql(), "DELETE FROM logs WHERE block_hash in (?, ?)");
    assert_eq!(
        statements[2].sql(),
        "DELETE FROM eth_to_substrate_blocks WHERE substrate_block_hash in (?, ?)"
    );
    assert_eq!(statements[1].binds().len(), 2);
    match &statements[1].binds()[0] {
        SqlValue::Blob(bytes) => assert_eq!(*bytes, vec![2; 32]),
        other => panic!("{other:?}"),
    }
    let mapping = ReceiptProvider::insert_block_mapping(&block);
    assert_eq!(
        mapping.sql(),
        "INSERT OR REPLACE INTO eth_to_substrate_blocks (ethereum_block_hash, substrate_block_hash) VALUES ($1, $2)"
    );
    match &mapping.binds()[1] {
        SqlValue::Blob(bytes) => assert_eq!(*bytes, vec![1; 32]),
        other => panic!("{other:?}"),
    }
}

#[test]
fn a_log_is_inserted_with_its_columns() {
    let mut with_topics = log(H256([0; 32]), H256([3; 32]));
    with_topics.address = H160([4; 20]);
    with_topics.topics = vec![H256([5; 32]), H256([6; 32])];
    with_topics.data = Some(vec![1, 2, 3]);
    with_topics.log_index = U256::from_u64(9);
    let mut info = receipt(H256([3; 32]), vec![with_topics]);
    info.transaction_index = U256::from_u64(7);
    let receipts = vec![(transaction(), info)];
    let statements = provider(None).insert_with_hashes(
        H256([1; 32]),
        12,
        &receipts,
        &H256([2; 32]),
        false,
    );
    assert_eq!(statements.len(), 3);
    match &statements[0] {
        Statement::InsertTransaction { transaction_hash, block_hash, transaction_index } => {
            assert_eq!(*transaction_hash, H256([3; 32]));
            assert_eq!(*block_hash, H256([1; 32]));
            assert_eq!(*transaction_index, 7);
        }
        other => panic!("{other:?}"),
    }
    match &statements[1] {
        Statement::InsertLog(row) => {
            assert_eq!(row.block_hash, H256([2; 32]));
            assert_eq!(row.transaction_index, 7);
            assert_eq!(row.log_index, 9);
            assert_eq!(row.address, H160([4; 20]));
            assert_eq!(row.block_number, 12);
            assert_eq!(row.transaction_hash, H256([3; 32]));
            assert_eq!(row.topic_0, Some(H256([5; 32])));
            assert_eq!(row.topic_1, Some(H256([6; 32])));
            assert_eq!(row.topic_2, None);
            assert_eq!(row.topic_3, None);
            assert_eq!(row.data, Some(vec![1, 2, 3]));
        }
        other => panic!("{other:?}"),
    }
    assert_eq!(statements[1].binds().len(), 11);
    assert!(matches!(statements[1].binds()[8], SqlValue::Null));
    assert!(matches!(statements[1].binds()[4], SqlValue::Integer(12)));
    assert!(matches!(statements[2], Statement::InsertMapping { .. }));
    assert_eq!(
        statements[0].sql(),
        "INSERT OR REPLACE INTO transaction_hashes (transaction_hash, block_hash, transaction_index) VALUES ($1, $2, $3)"
    );

    let again =
        provider(None).insert_with_hashes(H256([1; 32]), 12, &receipts, &H256([2; 32]), true);
    assert_eq!(again.len(), 0);
}

#[test]
fn an_index_beyond_the_column_turns_negative() {
    let mut info = receipt(H256([3; 32]), vec![]);
    info.transaction_index = U256::from_u64(u32::MAX as u64);
    let statements = provider(None).insert_with_hashes(
        H256([1; 32]),
        12,
        &[(transaction(), info)],
        &H256([2; 32]),
        false,
    );
    match &statements[0] {
        Statement::InsertTransaction { transaction_index, .. } => assert_eq!(*transaction_index, -1),
        other => panic!("{other:?}"),
    }
    assert_eq!(ReceiptProvider::find_transaction(Some((vec![1; 32], -1))), None);
}

#[test]
fn rows_are_read() {
    assert_eq!(
        ReceiptProvider::find_transaction(Some((vec![1; 32], 3))),
        Some((H256([1; 32]), 3))
    );
    assert_eq!(ReceiptProvider::find_transaction(None), None);
    assert_eq!(ReceiptProvider::get_substrate_hash(Some(vec![5; 32])), Some(H256([5; 32])));
    assert_eq!(ReceiptProvider::get_ethereum_hash(Some(vec![6; 32])), Some(H256([6; 32])));
    assert_eq!(ReceiptProvider::get_ethereum_hash(None), None);
    let hashes = ReceiptProvider::block_transaction_hashes(&vec![
        (0, vec![1; 32]),
        (2, vec![2; 32]),
        (0, vec![3; 32]),
    ]);
    assert_eq!(hashes.len(), 2);
    assert_eq!(hashes[&0], H256([3; 32]));
    assert_eq!(hashes[&2], H256([2; 32]));
}

#[test]
fn queries_are_written_out() {
    let query = Query::BlockExists(H256([1; 32]));
    assert_eq!(
        query.sql(),
        "SELECT EXISTS(SELECT 1 FROM eth_to_substrate_blocks WHERE substrate_block_hash = ?)"
    );
    match query.bind() {
        SqlValue::Blob(bytes) => assert_eq!(bytes, vec![1; 32]),
        other => panic!("{other:?}"),
    }
    assert_eq!(
        Query::FindTransaction(H256([1; 32])).sql(),
        "SELECT block_hash, transaction_index FROM transaction_hashes WHERE transaction_hash = $1"
    );
    assert_eq!(
        Query::ReceiptsCount(H256([1; 32])).sql(),
        "SELECT COUNT(*) FROM transaction_hashes WHERE block_hash = ?"
    );
}

#[test]
fn blocks_before_the_earliest_one_are_told() {
    let provider = ReceiptProvider::new(ReceiptExtractor::new(Some(100)), None);
    let number = |n: u64| BlockNumberOrTag::U256(U256::from_u64(n));
    assert!(provider.is_before_earliest_block(&number(99)));
    assert!(!provider.is_before_earliest_block(&number(100)));
    assert!(!provider.is_before_earliest_block(&number(u32::MAX as u64 + 1)));
    assert!(!provider.is_before_earliest_block(&BlockNumberOrTag::U256(U256 { high: 1, low: 0 })));
    assert!(!provider.is_before_earliest_block(&BlockNumberOrTag::BlockTag(BlockTag::Earliest)));
    let all = ReceiptProvider::new(ReceiptExtractor::new(None), None);
    assert!(!all.is_before_earliest_block(&number(0)));
}

//! The index of receipts: which blocks are held, and what the database is told about them.

use crate::block_cache::{insert_block, BlockHashMap};
use crate::database::{LogRow, Statement};
use crate::evm::{BlockNumberOrTag, Log, ReceiptInfo, TransactionSigned};
use crate::primitives::{H256, U256};
use crate::receipt_extractor::ReceiptExtractor;
use std::collections::{BTreeMap, HashMap};
use vstd::prelude::*;

verus! {

broadcast use {
    vstd::std_specs::btree::group_btree_axioms,
    vstd::std_specs::hash::group_hash_axioms,
    vstd::laws_cmp::group_laws_cmp,
};

/// The statements that delete the records of blocks. Transactions and mappings go by the Substrate
/// hash, logs by the Ethereum hash.
pub open spec fn removal(blocks: Seq<BlockHashMap>) -> Seq<crate::database::StatementView> {
    if blocks.len() == 0 {
        seq![]
    } else {
        seq![
            crate::database::StatementView::DeleteTransactions(substrate_hashes(blocks)),
            crate::database::StatementView::DeleteLogs(ethereum_hashes(blocks)),
            crate::database::StatementView::DeleteMappings(substrate_hashes(blocks)),
        ]
    }
}

/// The Substrate hash of each block.
pub open spec fn substrate_hashes(blocks: Seq<BlockHashMap>) -> Seq<Seq<u8>> {
    blocks.map_values(|block: BlockHashMap| block.substrate_hash@)
}

/// The Ethereum hash of each block.
pub open spec fn ethereum_hashes(blocks: Seq<BlockHashMap>) -> Seq<Seq<u8>> {
    blocks.map_values(|block: BlockHashMap| block.ethereum_hash@)
}

/// The value of a 32-bit pattern as a signed integer.
pub open spec fn as_i32(value: nat) -> int {
    if value <= i32::MAX {
        value as int
    } else {
        value - 0x1_0000_0000
    }
}

/// The topic at a position, where the log has so many.
pub open spec fn topic(topics: Seq<Seq<u8>>, position: int) -> Option<Seq<u8>> {
    if position < topics.len() {
        Some(topics[position])
    } else {
        None
    }
}

/// The row for a log of a receipt.
pub open spec fn log_row(
    log: crate::evm::LogView,
    receipt: crate::evm::ReceiptView,
    block: BlockHashMap,
    block_number: u32,
) -> crate::database::LogRowView {
    crate::database::LogRowView {
        block_hash: block.ethereum_hash@,
        transaction_index: as_i32(receipt.transaction_index),
        log_index: as_i32(log.log_index),
        address: log.address,
        block_number: block_number as int,
        transaction_hash: receipt.transaction_hash,
        topic_0: topic(log.topics, 0),
        topic_1: topic(log.topics, 1),
        topic_2: topic(log.topics, 2),
        topic_3: topic(log.topics, 3),
        data: log.data,
    }
}

/// The statements that insert a receipt: the place of its transaction, then the first `count` of
/// its logs.
pub open spec fn receipt_insertion(
    receipt: crate::evm::ReceiptView,
    block: BlockHashMap,
    block_number: u32,
    count: nat,
) -> Seq<crate::database::StatementView> {
    seq![
        crate::database::StatementView::InsertTransaction {
            transaction_hash: receipt.transaction_hash,
            block_hash: block.substrate_hash@,
            transaction_index: as_i32(receipt.transaction_index),
        },
    ] + Seq::new(
        count,
        |i: int|
            crate::database::StatementView::InsertLog(
                log_row(receipt.logs[i], receipt, block, block_number),
            ),
    )
}

/// The statements that insert receipts, in order.
pub open spec fn receipts_insertion(
    receipts: Seq<crate::evm::ReceiptView>,
    block: BlockHashMap,
    block_number: u32,
) -> Seq<crate::database::StatementView>
    decreases receipts.len(),
{
    if receipts.len() == 0 {
        seq![]
    } else {
        receipts_insertion(receipts.drop_last(), block, block_number) + receipt_insertion(
            receipts.last(),
            block,
            block_number,
            receipts.last().logs.len(),
        )
    }
}

/// The statements that insert a block: nothing where it is passed over, else its receipts and then
/// its mapping.
pub open spec fn insertion(
    receipts: Seq<crate::evm::ReceiptView>,
    block: BlockHashMap,
    block_number: u32,
    passed_over: bool,
) -> Seq<crate::database::StatementView> {
    if passed_over {
        seq![]
    } else {
        receipts_insertion(receipts, block, block_number).push(
            crate::database::StatementView::InsertMapping {
                ethereum_hash: block.ethereum_hash@,
                substrate_hash: block.substrate_hash@,
            },
        )
    }
}

/// Whether the indices of a receipt and of its logs fit into 32 bits.
pub open spec fn is_indexable(receipt: crate::evm::ReceiptView) -> bool {
    receipt.transaction_index <= u32::MAX && forall|i: int|
        0 <= i < receipt.logs.len() ==> (#[trigger] receipt.logs[i]).log_index <= u32::MAX
}

/// What each receipt says.
pub open spec fn receipt_views(receipts: Seq<(TransactionSigned, ReceiptInfo)>) -> Seq<
    crate::evm::ReceiptView,
> {
    receipts.map_values(|pair: (TransactionSigned, ReceiptInfo)| pair.1@)
}

/// What the row that was found for a transaction says.
pub open spec fn row_view(row: Option<(Vec<u8>, i64)>) -> Option<(Seq<u8>, int)> {
    match row {
        Some((block_hash, index)) => Some((block_hash@, index as int)),
        None => None,
    }
}

/// The block hash and the index that the row for a transaction gives. A row with a number that is no
/// index counts as none.
pub open spec fn place_of(row: Option<(Seq<u8>, int)>) -> Option<(Seq<u8>, nat)> {
    match row {
        Some((block_hash, index)) => if 0 <= index <= usize::MAX {
            Some((block_hash, index as nat))
        } else {
            None
        },
        None => None,
    }
}

/// The bytes of the block hash and the index of a transaction.
pub open spec fn place_view(place: Option<(H256, usize)>) -> Option<(Seq<u8>, nat)> {
    match place {
        Some((block_hash, index)) => Some((block_hash@, index as nat)),
        None => None,
    }
}

/// The low 32 bits of an index as a signed integer.
fn index_as_i32(index: &U256) -> (r: i32)
    requires
        index@ <= u32::MAX,
    ensures
        r == as_i32(index@),
{
    let bits: u32 = index.low as u32;
    proof {
        assert(index.high == 0);
        assert(bits <= 0x7fff_ffff ==> bits as i32 == bits) by (bit_vector);
        assert(bits > 0x7fff_ffff ==> bits as i32 == bits - 0x1_0000_0000) by (bit_vector);
    }
    bits as i32
}

/// The topic of a log at a position, where the log has so many.
fn topic_at(log: &Log, position: usize) -> (hash: Option<H256>)
    ensures
        crate::database::optional_bytes(hash) == topic(log@.topics, position as int),
{
    if position < log.topics.len() {
        Some(log.topics[position])
    } else {
        None
    }
}

/// The row for a log of a receipt.
fn build_log_row(
    log: &Log,
    transaction_hash: H256,
    transaction_index: i32,
    ethereum_hash: H256,
    block_number: u32,
) -> (row: LogRow)
    requires
        log@.log_index <= u32::MAX,
    ensures
        row@ == (crate::database::LogRowView {
            block_hash: ethereum_hash@,
            transaction_index: transaction_index as int,
            log_index: as_i32(log@.log_index),
            address: log@.address,
            block_number: block_number as int,
            transaction_hash: transaction_hash@,
            topic_0: topic(log@.topics, 0),
            topic_1: topic(log@.topics, 1),
            topic_2: topic(log@.topics, 2),
            topic_3: topic(log@.topics, 3),
            data: log@.data,
        }),
{
    let data = match &log.data {
        Some(data) => Some(data.clone()),
        None => None,
    };
    LogRow {
        block_hash: ethereum_hash,
        transaction_index,
        log_index: index_as_i32(&log.log_index),
        address: log.address,
        block_number: block_number as i64,
        transaction_hash,
        topic_0: topic_at(log, 0),
        topic_1: topic_at(log, 1),
        topic_2: topic_at(log, 2),
        topic_3: topic_at(log, 3),
        data,
    }
}

/// Keeps track of the blocks whose receipts are in the database, and says what the database has to
/// do when a block arrives.
#[derive(Debug)]
pub struct ReceiptProvider {
    /// A means to extract receipts from extrinsics.
    receipt_extractor: ReceiptExtractor,
    /// When `Some`, old blocks will be pruned.
    keep_latest_n_blocks: Option<usize>,
    /// A map of the latest block numbers to block hashes.
    block_number_to_hashes: BTreeMap<u32, BlockHashMap>,
}

/// What a provider knows.
#[verifier::ext_equal]
pub ghost struct ProviderView {
    /// The extractor of receipts.
    pub extractor: ReceiptExtractor,
    /// How many of the latest blocks are kept, where old ones are pruned.
    pub keeps: Option<usize>,
    /// The blocks that are held.
    pub blocks: crate::block_cache::Blocks,
}

impl View for ReceiptProvider {
    type V = ProviderView;

    closed spec fn view(&self) -> ProviderView {
        ProviderView {
            extractor: self.receipt_extractor,
            keeps: self.keep_latest_n_blocks,
            blocks: self.block_number_to_hashes@,
        }
    }
}

impl ReceiptProvider {
    /// Whether the blocks that are held are within their limit.
    pub open spec fn wf(self) -> bool {
        self@.blocks.dom().finite() && self@.blocks.len() <= crate::block_cache::cache_limit(
            self@.keeps,
        )
    }

    /// Create a new `ReceiptProvider`, which holds no blocks yet.
    pub fn new(
        receipt_extractor: ReceiptExtractor,
        keep_latest_n_blocks: Option<usize>,
    ) -> (provider: ReceiptProvider)
        ensures
            provider.wf(),
            provider@ == (ProviderView {
                extractor: receipt_extractor,
                keeps: keep_latest_n_blocks,
                blocks: Map::empty(),
            }),
    {
        ReceiptProvider {
            receipt_extractor,
            keep_latest_n_blocks,
            block_number_to_hashes: BTreeMap::new(),
        }
    }

    /// How many blocks are held.
    pub fn cached_blocks(&self) -> (count: usize)
        ensures
            count == self@.blocks.len(),
    {
        self.block_number_to_hashes.len()
    }

    /// The block that is held at a number.
    pub fn cached_block(&self, block_number: u32) -> (block: Option<BlockHashMap>)
        ensures
            block == (if self@.blocks.contains_key(block_number) {
                Some(self@.blocks[block_number])
            } else {
                None
            }),
    {
        match self.block_number_to_hashes.get(&block_number) {
            Some(block) => Some(*block),
            None => None,
        }
    }

    /// Deletes the records of blocks from the database.
    pub fn remove(block_mappings: &[BlockHashMap]) -> (statements: Vec<Statement>)
        ensures
            crate::database::statement_views(statements@) == removal(block_mappings@),
    {
        let mut statements: Vec<Statement> = Vec::new();
        if block_mappings.len() == 0 {
            assert(crate::database::statement_views(statements@) =~= removal(block_mappings@));
            return statements;
        }
        let mut of_transactions: Vec<H256> = Vec::new();
        let mut of_mappings: Vec<H256> = Vec::new();
        let mut of_logs: Vec<H256> = Vec::new();
        let mut i: usize = 0;
        while i < block_mappings.len()
            invariant
                i <= block_mappings@.len(),
                of_transactions@ == block_mappings@.take(i as int).map_values(
                    |block: BlockHashMap| block.substrate_hash,
                ),
                of_mappings@ == of_transactions@,
                of_logs@ == block_mappings@.take(i as int).map_values(
                    |block: BlockHashMap| block.ethereum_hash,
                ),
            decreases block_mappings@.len() - i,
        {
            let block_map = &block_mappings[i];
            of_transactions.push(block_map.substrate_hash);
            of_mappings.push(block_map.substrate_hash);
            of_logs.push(block_map.ethereum_hash);
            i += 1;
        }
        proof {
            assert(block_mappings@.take(i as int) =~= block_mappings@);
            assert(crate::evm::hash_bytes(of_transactions@) =~= substrate_hashes(block_mappings@));
            assert(crate::evm::hash_bytes(of_logs@) =~= ethereum_hashes(block_mappings@));
        }
        statements.push(Statement::DeleteTransactions(of_transactions));
        statements.push(Statement::DeleteLogs(of_logs));
        statements.push(Statement::DeleteMappings(of_mappings));
        assert(crate::database::statement_views(statements@) =~= removal(block_mappings@));
        statements
    }

    /// Puts a block among those that are held, pruning old blocks when there are too many or a fork
    /// is detected. The statements delete the records of the pruned blocks.
    pub fn prune_blocks(
        &mut self,
        block_number: u32,
        block_map: &BlockHashMap,
    ) -> (statements: Vec<Statement>)
        ensures
            final(self).wf(),
            final(self)@ == (ProviderView {
                blocks: crate::block_cache::blocks_after(
                    old(self)@.blocks,
                    old(self)@.keeps,
                    block_number,
                    *block_map,
                ),
                ..old(self)@
            }),
            crate::database::statement_views(statements@) == removal(
                crate::block_cache::blocks_to_remove(
                    old(self)@.blocks,
                    old(self)@.keeps,
                    block_number,
                    *block_map,
                ),
            ),
    {
        let ghost blocks = self.block_number_to_hashes@;
        let to_remove = insert_block(
            &mut self.block_number_to_hashes,
            self.keep_latest_n_blocks,
            block_number,
            block_map,
        );
        proof {
            crate::block_cache::inserting_respects_the_limit(
                blocks,
                self.keep_latest_n_blocks,
                block_number,
                *block_map,
            );
        }
        Self::remove(to_remove.as_slice())
    }

    /// Inserts a block mapping from Ethereum block hash to Substrate block hash.
    pub fn insert_block_mapping(block_map: &BlockHashMap) -> (statement: Statement)
        ensures
            statement@ == (crate::database::StatementView::InsertMapping {
                ethereum_hash: block_map.ethereum_hash@,
                substrate_hash: block_map.substrate_hash@,
            }),
    {
        Statement::InsertMapping {
            ethereum_hash: block_map.ethereum_hash,
            substrate_hash: block_map.substrate_hash,
        }
    }

    /// Whether the records of a block belong into the database.
    pub fn stores(&self, block_number: u32, block_map: &BlockHashMap) -> (stored: bool)
        ensures
            stored == crate::block_cache::is_stored(
                self@.blocks,
                self@.keeps,
                block_number,
                *block_map,
            ),
    {
        match self.keep_latest_n_blocks {
            None => true,
            Some(_) => match self.block_number_to_hashes.get(&block_number) {
                Some(held) => *held == *block_map,
                None => false,
            },
        }
    }

    /// Inserts the receipts of a block identified by its hashes, once old blocks were pruned for it.
    /// Nothing is inserted where the pruning did not keep the block, or where its mapping exists
    /// already: then its receipts are taken to be there as well.
    pub fn insert_with_hashes(
        &self,
        substrate_block_hash: H256,
        block_number: u32,
        receipts: &[(TransactionSigned, ReceiptInfo)],
        ethereum_hash: &H256,
        is_mapped: bool,
    ) -> (statements: Vec<Statement>)
        requires
            is_mapped || !crate::block_cache::is_stored(
                self@.blocks,
                self@.keeps,
                block_number,
                BlockHashMap {
                    substrate_hash: substrate_block_hash,
                    ethereum_hash: *ethereum_hash,
                },
            ) || forall|i: int|
                0 <= i < receipts@.len() ==> is_indexable((#[trigger] receipts@[i]).1@),
        ensures
            ({
                let block = BlockHashMap {
                    substrate_hash: substrate_block_hash,
                    ethereum_hash: *ethereum_hash,
                };
                let stored = crate::block_cache::is_stored(
                    self@.blocks,
                    self@.keeps,
                    block_number,
                    block,
                );
                crate::database::statement_views(statements@) == insertion(
                    receipt_views(receipts@),
                    block,
                    block_number,
                    is_mapped || !stored,
                )
            }),
    {
        let block_map = BlockHashMap::new(substrate_block_hash, *ethereum_hash);
        let ghost views = receipt_views(receipts@);
        let mut statements: Vec<Statement> = Vec::new();
        if is_mapped || !self.stores(block_number, &block_map) {
            assert(crate::database::statement_views(statements@) =~= seq![]);
            return statements;
        }
        let mut i: usize = 0;
        assert(views.take(0) =~= seq![]);
        assert(crate::database::statement_views(statements@) =~= receipts_insertion(
            views.take(0),
            block_map,
            block_number,
        ));
        while i < receipts.len()
            invariant
                i <= receipts@.len(),
                views == receipt_views(receipts@),
                block_map.substrate_hash == substrate_block_hash,
                block_map.ethereum_hash == *ethereum_hash,
                forall|k: int|
                    0 <= k < receipts@.len() ==> is_indexable((#[trigger] receipts@[k]).1@),
                crate::database::statement_views(statements@) == receipts_insertion(
                    views.take(i as int),
                    block_map,
                    block_number,
                ),
            decreases receipts@.len() - i,
        {
            let receipt = &receipts[i].1;
            let ghost before = receipts_insertion(views.take(i as int), block_map, block_number);
            assert(is_indexable(receipts@[i as int].1@));
            let transaction_hash = receipt.transaction_hash;
            let transaction_index: i32 = index_as_i32(&receipt.transaction_index);
            statements.push(
                Statement::InsertTransaction {
                    transaction_hash,
                    block_hash: substrate_block_hash,
                    transaction_index,
                },
            );
            proof {
                assert(crate::database::statement_views(statements@) =~= before
                    + receipt_insertion(receipt@, block_map, block_number, 0));
            }
            let mut j: usize = 0;
            while j < receipt.logs.len()
                invariant
                    j <= receipt.logs@.len(),
                    is_indexable(receipt@),
                    block_map.ethereum_hash == *ethereum_hash,
                    transaction_hash == receipt.transaction_hash,
                    transaction_index == as_i32(receipt@.transaction_index),
                    crate::database::statement_views(statements@) == before + receipt_insertion(
                        receipt@,
                        block_map,
                        block_number,
                        j as nat,
                    ),
                decreases receipt.logs@.len() - j,
            {
                let log = &receipt.logs[j];
                assert(receipt@.logs[j as int] == log@);
                let ghost earlier = statements@;
                let row = build_log_row(
                    log,
                    transaction_hash,
                    transaction_index,
                    *ethereum_hash,
                    block_number,
                );
                statements.push(Statement::InsertLog(row));
                proof {
                    assert(row@ =~= log_row(log@, receipt@, block_map, block_number));
                    assert(crate::database::statement_views(statements@)
                        =~= crate::database::statement_views(earlier).push(
                        crate::database::StatementView::InsertLog(row@),
                    ));
                    assert(crate::database::statement_views(statements@) =~= before
                        + receipt_insertion(receipt@, block_map, block_number, (j + 1) as nat));
                }
                j += 1;
            }
            proof {
                assert(views.take(i + 1).drop_last() =~= views.take(i as int));
                assert(views.take(i + 1).last() == receipt@);
            }
            i += 1;
        }
        proof {
            assert(views.take(i as int) =~= views);
        }
        let ghost earlier = statements@;
        statements.push(Self::insert_block_mapping(&block_map));
        assert(crate::database::statement_views(statements@)
            =~= crate::database::statement_views(earlier).push(
            statements@.last()@,
        ));
        statements
    }

    /// Check if the block is before the earliest indexed block. No tag is, and neither is a number
    /// beyond those of blocks.
    pub fn is_before_earliest_block(&self, at: &BlockNumberOrTag) -> (before: bool)
        ensures
            before == (match *at {
                BlockNumberOrTag::U256(number) => self@.extractor.skips(number@),
                BlockNumberOrTag::BlockTag(_) => false,
            }),
    {
        match at {
            BlockNumberOrTag::U256(block_number) => match block_number.to_u32() {
                Some(number) => self.receipt_extractor.is_before_earliest_block(number),
                None => false,
            },
            BlockNumberOrTag::BlockTag(_) => false,
        }
    }

    /// The block hash and the index of a transaction, from the row that was found for it. A row
    /// whose index is negative counts as none.
    pub fn find_transaction(row: Option<(Vec<u8>, i64)>) -> (place: Option<(H256, usize)>)
        requires
            row matches Some(row) ==> row.0@.len() == 32,
        ensures
            place_view(place) == place_of(row_view(row)),
    {
        match row {
            Some((block_hash, transaction_index)) => {
                let index: usize = match usize::try_from(transaction_index) {
                    Ok(index) => index,
                    Err(_) => return None,
                };
                Some((H256::from_slice(block_hash.as_slice()), index))
            },
            None => None,
        }
    }

    /// A block hash, from the row that was found.
    fn read_hash(row: Option<Vec<u8>>) -> (hash: Option<H256>)
        requires
            row matches Some(bytes) ==> bytes@.len() == 32,
        ensures
            crate::database::optional_bytes(hash) == crate::evm::data_bytes(row),
    {
        match row {
            Some(bytes) => Some(H256::from_slice(bytes.as_slice())),
            None => None,
        }
    }

    /// The Substrate block hash of an Ethereum block, from the row that was found for it.
    pub fn get_substrate_hash(row: Option<Vec<u8>>) -> (hash: Option<H256>)
        requires
            row matches Some(bytes) ==> bytes@.len() == 32,
        ensures
            crate::database::optional_bytes(hash) == crate::evm::data_bytes(row),
    {
        Self::read_hash(row)
    }

    /// The Ethereum block hash of a Substrate block, from the row that was found for it.
    pub fn get_ethereum_hash(row: Option<Vec<u8>>) -> (hash: Option<H256>)
        requires
            row matches Some(bytes) ==> bytes@.len() == 32,
        ensures
            crate::database::optional_bytes(hash) == crate::evm::data_bytes(row),
    {
        Self::read_hash(row)
    }

    /// The number of receipts of a block, from the count that was read.
    pub fn receipts_count_per_block(count: Option<i64>) -> (receipts: Option<usize>)
        ensures
            receipts == (match count {
                Some(count) => Some(count as usize),
                None => None,
            }),
    {
        match count {
            Some(count) => Some(count as usize),
            None => None,
        }
    }

    /// All transaction hashes of a block by their index, from the rows that were read. Of two rows
    /// with the same index the later one counts.
    pub fn block_transaction_hashes(rows: &Vec<(i64, Vec<u8>)>) -> (hashes: HashMap<usize, H256>)
        requires
            forall|i: int| 0 <= i < rows@.len() ==> (#[trigger] rows@[i]).1@.len() == 32,
        ensures
            hashes@.map_values(|hash: H256| hash@) == hashes_by_index(indexed_hashes(rows@)),
    {
        let mut hashes: HashMap<usize, H256> = HashMap::new();
        let ghost as_bytes = |hash: H256| hash@;
        let mut i: usize = 0;
        assert(rows@.take(0) =~= seq![]);
        assert(hashes@.map_values(as_bytes) =~= hashes_by_index(indexed_hashes(rows@.take(0))));
        while i < rows.len()
            invariant
                i <= rows@.len(),
                as_bytes == |hash: H256| hash@,
                forall|k: int| 0 <= k < rows@.len() ==> (#[trigger] rows@[k]).1@.len() == 32,
                hashes@.map_values(as_bytes) == hashes_by_index(indexed_hashes(rows@.take(i as int))),
            decreases rows@.len() - i,
        {
            let index: usize = rows[i].0 as usize;
            let hash = H256::from_slice(rows[i].1.as_slice());
            let ghost before = hashes@;
            hashes.insert(index, hash);
            proof {
                assert(indexed_hashes(rows@.take(i + 1)).drop_last() =~= indexed_hashes(
                    rows@.take(i as int),
                ));
                assert(hashes@.map_values(as_bytes) =~= before.map_values(as_bytes).insert(
                    index,
                    hash@,
                ));
            }
            i += 1;
        }
        assert(rows@.take(i as int) =~= rows@);
        hashes
    }
}

/// The index and the bytes of the hash in each row.
pub open spec fn indexed_hashes(rows: Seq<(i64, Vec<u8>)>) -> Seq<(int, Seq<u8>)> {
    rows.map_values(|row: (i64, Vec<u8>)| (row.0 as int, row.1@))
}

/// The bytes of each transaction hash, by index. Of two rows with the same index the later one
/// counts.
pub open spec fn hashes_by_index(rows: Seq<(int, Seq<u8>)>) -> Map<usize, Seq<u8>>
    decreases rows.len(),
{
    if rows.len() == 0 {
        Map::empty()
    } else {
        hashes_by_index(rows.drop_last()).insert(rows.last().0 as usize, rows.last().1)
    }
}

/// The place of a transaction is what its row says, and a row with a negative index counts as none.
pub proof fn a_place_is_what_its_row_says(
    row: Option<(Vec<u8>, i64)>,
    place: Option<(H256, usize)>,
)
    requires
        call_ensures(ReceiptProvider::find_transaction, (row,), place),
    ensures
        row is None ==> place is None,
        row matches Some((bytes, number)) ==> (place is Some <==> 0 <= number <= usize::MAX),
        row matches Some((bytes, number)) ==> (place matches Some((hash, index)) ==> hash@ == bytes@
            && index == number),
{
}

/// A hash is what its row says.
pub proof fn a_hash_is_what_its_row_says(row: Option<Vec<u8>>, hash: Option<H256>)
    requires
        call_ensures(ReceiptProvider::get_substrate_hash, (row,), hash) || call_ensures(
            ReceiptProvider::get_ethereum_hash,
            (row,),
            hash,
        ),
    ensures
        hash is Some <==> row is Some,
        hash matches Some(hash) ==> hash@ == row->0@,
{
}

/// The number of receipts is the count that was read.
pub proof fn a_count_is_what_was_read(count: Option<i64>, receipts: Option<usize>)
    requires
        call_ensures(ReceiptProvider::receipts_count_per_block, (count,), receipts),
    ensures
        receipts is Some <==> count is Some,
        count matches Some(count) ==> (0 <= count <= usize::MAX ==> receipts->0 == count),
{
}

/// Each transaction of a block is found at the index of its row, of several rows with one index the
/// last one, and nothing else is found.
pub proof fn transactions_are_found_at_the_index_of_their_row(
    rows: Vec<(i64, Vec<u8>)>,
    hashes: HashMap<usize, H256>,
)
    requires
        call_ensures(ReceiptProvider::block_transaction_hashes, (&rows,), hashes),
    ensures
        forall|i: int|
            0 <= i < rows@.len() && (forall|j: int|
                i < j < rows@.len() ==> (#[trigger] rows@[j]).0 as usize != rows@[i].0 as usize)
                ==> hashes@.contains_key((#[trigger] rows@[i]).0 as usize)
                && hashes@[rows@[i].0 as usize]@ == rows@[i].1@,
        forall|index: usize| #[trigger]
            hashes@.contains_key(index) ==> exists|i: int|
                0 <= i < rows@.len() && (#[trigger] rows@[i]).0 as usize == index,
{
    let pairs = indexed_hashes(rows@);
    let as_bytes = |hash: H256| hash@;
    let found = hashes@.map_values(as_bytes);
    assert forall|i: int|
        0 <= i < rows@.len() && (forall|j: int|
            i < j < rows@.len() ==> (#[trigger] rows@[j]).0 as usize
                != rows@[i].0 as usize) implies hashes@.contains_key(
        (#[trigger] rows@[i]).0 as usize,
    ) && hashes@[rows@[i].0 as usize]@ == rows@[i].1@ by {
        assert(pairs[i] == (rows@[i].0 as int, rows@[i].1@));
        assert forall|j: int| i < j < pairs.len() implies (#[trigger] pairs[j]).0 as usize
            != pairs[i].0 as usize by {
            assert(rows@[j].0 as usize != rows@[i].0 as usize);
        }
        lemma_last_with_index(pairs, i);
        assert(found.contains_key(pairs[i].0 as usize));
    }
    assert forall|index: usize| #[trigger] hashes@.contains_key(index) implies exists|i: int|
        0 <= i < rows@.len() && (#[trigger] rows@[i]).0 as usize == index by {
        assert(found.contains_key(index));
        let i = lemma_row_with_index(pairs, index);
        assert(rows@[i].0 as usize == index);
    }
}

/// The last row with an index is found by it.
proof fn lemma_last_with_index(rows: Seq<(int, Seq<u8>)>, i: int)
    requires
        0 <= i < rows.len(),
        forall|j: int|
            i < j < rows.len() ==> (#[trigger] rows[j]).0 as usize != rows[i].0 as usize,
    ensures
        hashes_by_index(rows).contains_key(rows[i].0 as usize),
        hashes_by_index(rows)[rows[i].0 as usize] == rows[i].1,
    decreases rows.len(),
{
    let before = rows.drop_last();
    let end = rows.len() - 1;
    if i < end {
        assert(rows[end].0 as usize != rows[i].0 as usize);
        assert(before[i] == rows[i]);
        assert forall|j: int| i < j < before.len() implies (#[trigger] before[j]).0 as usize
            != before[i].0 as usize by {
            assert(before[j] == rows[j]);
        }
        lemma_last_with_index(before, i);
    }
}

/// What is found by an index is in a row with this index.
proof fn lemma_row_with_index(rows: Seq<(int, Seq<u8>)>, index: usize) -> (i: int)
    requires
        hashes_by_index(rows).contains_key(index),
    ensures
        0 <= i < rows.len(),
        rows[i].0 as usize == index,
    decreases rows.len(),
{
    let before = rows.drop_last();
    let end = rows.len() - 1;
    if index == rows[end].0 as usize {
        end
    } else {
        let i = lemma_row_with_index(before, index);
        assert(rows[i] == before[i]);
        i
    }
}

/// A block is before the earliest one exactly where it is given by a number below that of the
/// earliest block.
pub proof fn only_lower_numbers_are_before_the_earliest_block(
    provider: ReceiptProvider,
    at: BlockNumberOrTag,
    before: bool,
)
    requires
        call_ensures(ReceiptProvider::is_before_earliest_block, (&provider, &at), before),
    ensures
        before <==> (at matches BlockNumberOrTag::U256(number)
            && provider@.extractor.earliest_receipt_block is Some && number@
            < provider@.extractor.earliest_receipt_block->0),
{
}

/// The records of a block belong into the database where it is persistent, or where the block is
/// held.
pub proof fn only_held_blocks_are_stored_where_few_are_kept(
    provider: ReceiptProvider,
    block_number: u32,
    block_map: BlockHashMap,
    held: Option<BlockHashMap>,
    stored: bool,
)
    requires
        call_ensures(ReceiptProvider::stores, (&provider, block_number, &block_map), stored),
        call_ensures(ReceiptProvider::cached_block, (&provider, block_number), held),
    ensures
        provider@.keeps is None ==> stored,
        provider@.keeps is Some ==> (stored <==> held == Some(block_map)),
{
}

/// A new provider holds no blocks, and a mapping leads from the Ethereum hash of a block to its
/// Substrate hash.
pub proof fn a_new_provider_holds_nothing(
    extractor: ReceiptExtractor,
    keep_latest_n_blocks: Option<usize>,
    provider: ReceiptProvider,
    count: usize,
    number: u32,
    held: Option<BlockHashMap>,
    block: BlockHashMap,
    statement: Statement,
)
    requires
        call_ensures(ReceiptProvider::new, (extractor, keep_latest_n_blocks), provider),
        call_ensures(ReceiptProvider::cached_blocks, (&provider,), count),
        call_ensures(ReceiptProvider::cached_block, (&provider, number), held),
        call_ensures(ReceiptProvider::insert_block_mapping, (&block,), statement),
    ensures
        count == 0,
        held is None,
        provider@.keeps == keep_latest_n_blocks,
        provider@.extractor == extractor,
        statement matches Statement::InsertMapping { ethereum_hash, substrate_hash }
            && ethereum_hash@ == block.ethereum_hash@ && substrate_hash@ == block.substrate_hash@,
{
}

} // verus!

//! What holds of the database as blocks are inserted: what was inserted is found, what was removed
//! is gone, and the database and the blocks that are held speak of the same blocks.

use crate::block_cache::BlockHashMap;
use crate::{block_cache, database, evm, log_filter, receipt_extractor, receipt_provider};
use vstd::prelude::*;

verus! {

/// The rows for the logs of receipts, in order.
pub open spec fn log_rows(
    receipts: Seq<evm::ReceiptView>,
    block: BlockHashMap,
    block_number: u32,
) -> Seq<database::LogRowView>
    decreases receipts.len(),
{
    if receipts.len() == 0 {
        seq![]
    } else {
        let last = receipts.last();
        log_rows(receipts.drop_last(), block, block_number) + Seq::new(
            last.logs.len(),
            |i: int| receipt_provider::log_row(last.logs[i], last, block, block_number),
        )
    }
}

/// The database after a block was inserted: first the records of the pruned blocks go, then those of
/// the block come, unless it is there already or was itself pruned.
pub open spec fn tables_after(
    tables: database::Tables,
    blocks: block_cache::Blocks,
    keep_latest_n_blocks: Option<usize>,
    number: u32,
    block: BlockHashMap,
    receipts: Seq<evm::ReceiptView>,
) -> database::Tables {
    let pruned = tables.after_all(
        receipt_provider::removal(
            block_cache::blocks_to_remove(blocks, keep_latest_n_blocks, number, block),
        ),
    );
    let stored = block_cache::is_stored(
        block_cache::blocks_after(blocks, keep_latest_n_blocks, number, block),
        keep_latest_n_blocks,
        number,
        block,
    );
    pruned.after_all(
        receipt_provider::insertion(
            receipts,
            block,
            number,
            pruned.has_block(block.substrate_hash@) || !stored,
        ),
    )
}

/// Executing one list of statements and then another is executing both as one list.
pub proof fn statements_execute_in_order(
    tables: database::Tables,
    first: Seq<database::StatementView>,
    second: Seq<database::StatementView>,
)
    ensures
        tables.after_all(first + second) == tables.after_all(first).after_all(second),
    decreases second.len(),
{
    if second.len() == 0 {
        assert(first + second =~= first);
    } else {
        assert((first + second).drop_last() =~= first + second.drop_last());
        statements_execute_in_order(tables, first, second.drop_last());
    }
}

proof fn lemma_receipt_insertion(
    tables: database::Tables,
    receipt: evm::ReceiptView,
    block: BlockHashMap,
    number: u32,
    count: nat,
)
    requires
        count <= receipt.logs.len(),
    ensures
        tables.after_all(receipt_provider::receipt_insertion(receipt, block, number, count)) == (
        database::Tables {
            transactions: tables.transactions.insert(
                receipt.transaction_hash,
                (block.substrate_hash@, receipt_provider::as_i32(receipt.transaction_index)),
            ),
            mappings: tables.mappings,
            logs: tables.logs + Seq::new(
                count,
                |i: int| receipt_provider::log_row(receipt.logs[i], receipt, block, number),
            ),
        }),
    decreases count,
{
    let statements = receipt_provider::receipt_insertion(receipt, block, number, count);
    let after = tables.after_all(statements);
    if count == 0 {
        assert(statements.drop_last() =~= seq![]);
        assert(tables.after_all(statements.drop_last()) == tables);
        assert(after.logs =~= tables.logs + Seq::new(
            count,
            |i: int| receipt_provider::log_row(receipt.logs[i], receipt, block, number),
        ));
    } else {
        let before = (count - 1) as nat;
        lemma_receipt_insertion(tables, receipt, block, number, before);
        assert(statements.drop_last() =~= receipt_provider::receipt_insertion(
            receipt,
            block,
            number,
            before,
        ));
        assert(after.logs =~= tables.logs + Seq::new(
            count,
            |i: int| receipt_provider::log_row(receipt.logs[i], receipt, block, number),
        ));
    }
}

/// Inserting receipts leaves the mappings alone, appends the logs in order, and puts each
/// transaction in its place. A transaction that comes twice is where its last receipt says, and one
/// that does not come stays where it was.
pub proof fn inserting_receipts_adds_transactions_and_logs(
    tables: database::Tables,
    receipts: Seq<evm::ReceiptView>,
    block: BlockHashMap,
    number: u32,
)
    ensures
        ({
            let after = tables.after_all(receipt_provider::receipts_insertion(receipts, block, number));
            &&& after.mappings == tables.mappings
            &&& after.logs == tables.logs + log_rows(receipts, block, number)
            &&& forall|hash: Seq<u8>| #[trigger]
                after.transactions.contains_key(hash) <==> tables.transactions.contains_key(hash)
                    || exists|i: int|
                    0 <= i < receipts.len() && receipts[i].transaction_hash == hash
            &&& forall|i: int|
                0 <= i < receipts.len() && (forall|j: int|
                    i < j < receipts.len() ==> receipts[j].transaction_hash
                        != receipts[i].transaction_hash)
                    ==> after.transactions[#[trigger] receipts[i].transaction_hash] == (
                    block.substrate_hash@,
                    receipt_provider::as_i32(receipts[i].transaction_index),
                )
            &&& forall|hash: Seq<u8>| #[trigger]
                after.transactions.contains_key(hash) ==> after.transactions[hash].0
                    == block.substrate_hash@ || (tables.transactions.contains_key(hash)
                    && after.transactions[hash] == tables.transactions[hash])
            &&& forall|hash: Seq<u8>|
                !(exists|i: int| 0 <= i < receipts.len() && receipts[i].transaction_hash == hash)
                    ==> #[trigger] after.transactions[hash] == tables.transactions[hash]
        }),
    decreases receipts.len(),
{
    let after = tables.after_all(receipt_provider::receipts_insertion(receipts, block, number));
    if receipts.len() == 0 {
        assert(after == tables);
        assert(after.logs =~= tables.logs + log_rows(receipts, block, number));
    } else {
        let before = receipts.drop_last();
        let last = receipts.last();
        let middle = tables.after_all(receipt_provider::receipts_insertion(before, block, number));
        inserting_receipts_adds_transactions_and_logs(tables, before, block, number);
        statements_execute_in_order(
            tables,
            receipt_provider::receipts_insertion(before, block, number),
            receipt_provider::receipt_insertion(last, block, number, last.logs.len()),
        );
        lemma_receipt_insertion(middle, last, block, number, last.logs.len());
        assert(after.logs =~= tables.logs + log_rows(receipts, block, number));
        assert forall|hash: Seq<u8>| #[trigger]
            after.transactions.contains_key(hash) <==> tables.transactions.contains_key(hash)
                || exists|i: int|
                0 <= i < receipts.len() && receipts[i].transaction_hash == hash by {
            if hash == last.transaction_hash {
                assert(receipts[receipts.len() - 1].transaction_hash == hash);
            } else {
                assert(after.transactions.contains_key(hash) <==> middle.transactions.contains_key(
                    hash,
                ));
                if exists|i: int| 0 <= i < receipts.len() && receipts[i].transaction_hash == hash {
                    let i = choose|i: int|
                        0 <= i < receipts.len() && receipts[i].transaction_hash == hash;
                    assert(before[i].transaction_hash == hash);
                }
                if exists|i: int| 0 <= i < before.len() && before[i].transaction_hash == hash {
                    let i = choose|i: int|
                        0 <= i < before.len() && before[i].transaction_hash == hash;
                    assert(receipts[i].transaction_hash == hash);
                }
            }
        }
        assert forall|hash: Seq<u8>|
            !(exists|i: int| 0 <= i < receipts.len() && receipts[i].transaction_hash
                == hash) implies #[trigger] after.transactions[hash]
            == tables.transactions[hash] by {
            assert(receipts[receipts.len() - 1].transaction_hash != hash);
            if exists|i: int| 0 <= i < before.len() && before[i].transaction_hash == hash {
                let i = choose|i: int| 0 <= i < before.len() && before[i].transaction_hash == hash;
                assert(receipts[i].transaction_hash == hash);
            }
            assert(middle.transactions[hash] == tables.transactions[hash]);
        }
        assert forall|i: int|
            0 <= i < receipts.len() && (forall|j: int|
                i < j < receipts.len() ==> receipts[j].transaction_hash
                    != receipts[i].transaction_hash) implies after.transactions[
        #[trigger] receipts[i].transaction_hash] == (
            block.substrate_hash@,
            receipt_provider::as_i32(receipts[i].transaction_index),
        ) by {
            if i < before.len() {
                assert(receipts[receipts.len() - 1].transaction_hash
                    != receipts[i].transaction_hash);
                assert forall|j: int| i < j < before.len() implies before[j].transaction_hash
                    != before[i].transaction_hash by {
                    assert(receipts[j].transaction_hash != receipts[i].transaction_hash);
                }
                assert(before[i] == receipts[i]);
                assert(middle.transactions[before[i].transaction_hash] == (
                    block.substrate_hash@,
                    receipt_provider::as_i32(before[i].transaction_index),
                ));
            }
        }
    }
}

/// A transaction of a block that was inserted is found at its place: in that block and at its
/// index. (Where a block holds a transaction twice, the last of the two counts.)
pub proof fn an_inserted_transaction_is_found(
    tables: database::Tables,
    receipts: Seq<evm::ReceiptView>,
    block: BlockHashMap,
    number: u32,
    i: int,
)
    requires
        0 <= i < receipts.len(),
        forall|j: int|
            i < j < receipts.len() ==> receipts[j].transaction_hash
                != receipts[i].transaction_hash,
    ensures
        ({
            let after = tables.after_all(receipt_provider::insertion(receipts, block, number, false));
            let (block_hash, index) = after.transactions[receipts[i].transaction_hash];
            &&& after.transactions.contains_key(receipts[i].transaction_hash)
            &&& block_hash == block.substrate_hash@
            &&& index == receipt_provider::as_i32(receipts[i].transaction_index)
            &&& receipts[i].transaction_index <= i32::MAX ==> receipt_provider::place_of(
                after.transaction_row(receipts[i].transaction_hash),
            ) == Some((block.substrate_hash@, receipts[i].transaction_index))
        }),
{
    inserting_receipts_adds_transactions_and_logs(tables, receipts, block, number);
    lemma_insertion(tables, receipts, block, number);
    assert(receipts[i].transaction_hash == receipts[i].transaction_hash);
}

pub(crate) proof fn lemma_insertion(
    tables: database::Tables,
    receipts: Seq<evm::ReceiptView>,
    block: BlockHashMap,
    number: u32,
)
    ensures
        ({
            let middle = tables.after_all(
                receipt_provider::receipts_insertion(receipts, block, number),
            );
            let after = tables.after_all(receipt_provider::insertion(receipts, block, number, false));
            &&& after.transactions == middle.transactions
            &&& after.logs == middle.logs
            &&& after.mappings == middle.mappings.insert(
                block.ethereum_hash@,
                block.substrate_hash@,
            )
        }),
{
    let statements = receipt_provider::insertion(receipts, block, number, false);
    assert(statements.drop_last() =~= receipt_provider::receipts_insertion(receipts, block, number));
}

/// A block that was inserted is found by either of its hashes, and where its Substrate hash was not
/// known before, only its Ethereum hash leads to it.
pub proof fn an_inserted_block_is_found_by_either_hash(
    tables: database::Tables,
    receipts: Seq<evm::ReceiptView>,
    block: BlockHashMap,
    number: u32,
)
    requires
        !tables.has_block(block.substrate_hash@),
    ensures
        ({
            let after = tables.after_all(receipt_provider::insertion(receipts, block, number, false));
            &&& after.has_block(block.substrate_hash@)
            &&& after.substrate_row(block.ethereum_hash@) == Some(block.substrate_hash@)
            &&& forall|row: Option<Seq<u8>>| #[trigger]
                after.may_be_ethereum_row(block.substrate_hash@, row) <==> row == Some(
                    block.ethereum_hash@,
                )
        }),
{
    let after = tables.after_all(receipt_provider::insertion(receipts, block, number, false));
    inserting_receipts_adds_transactions_and_logs(tables, receipts, block, number);
    lemma_insertion(tables, receipts, block, number);
    assert(after.mappings.contains_key(block.ethereum_hash@));
}

/// A block that was inserted has as many transactions as receipts, where no transaction comes twice
/// and none of the block was there before.
pub proof fn an_inserted_block_has_as_many_transactions_as_receipts(
    tables: database::Tables,
    receipts: Seq<evm::ReceiptView>,
    block: BlockHashMap,
    number: u32,
)
    requires
        tables.transactions_of(block.substrate_hash@) == Set::<Seq<u8>>::empty(),
        forall|i: int, j: int|
            0 <= i < j < receipts.len() ==> receipts[i].transaction_hash
                != receipts[j].transaction_hash,
    ensures
        ({
            let after = tables.after_all(receipt_provider::insertion(receipts, block, number, false));
            &&& after.transactions_of(block.substrate_hash@).finite()
            &&& after.transactions_of(block.substrate_hash@).len() == receipts.len()
        }),
{
    let after = tables.after_all(receipt_provider::insertion(receipts, block, number, false));
    let hashes = Seq::new(receipts.len(), |i: int| receipts[i].transaction_hash);
    inserting_receipts_adds_transactions_and_logs(tables, receipts, block, number);
    lemma_insertion(tables, receipts, block, number);
    assert(after.transactions_of(block.substrate_hash@) =~= hashes.to_set()) by {
        assert forall|hash: Seq<u8>| #[trigger]
            after.transactions_of(block.substrate_hash@).contains(hash) <==> hashes.contains(
                hash,
            ) by {
            if hashes.contains(hash) {
                let i = choose|i: int| 0 <= i < hashes.len() && hashes[i] == hash;
                assert forall|j: int| i < j < receipts.len() implies receipts[j].transaction_hash
                    != receipts[i].transaction_hash by {}
                assert(after.transactions[receipts[i].transaction_hash].0 == block.substrate_hash@);
                assert(after.transactions.contains_key(hash));
            } else if after.transactions_of(block.substrate_hash@).contains(hash) {
                assert(after.transactions.contains_key(hash));
                assert(!tables.transactions_of(block.substrate_hash@).contains(hash));
                if exists|i: int| 0 <= i < receipts.len() && receipts[i].transaction_hash == hash {
                    let i = choose|i: int|
                        0 <= i < receipts.len() && receipts[i].transaction_hash == hash;
                    assert(hashes[i] == hash);
                }
            }
        }
    }
    hashes.unique_seq_to_set();
    vstd::seq_lib::seq_to_set_is_finite(hashes);
}

/// Removing blocks deletes every record of them, and no other record.
pub proof fn removing_blocks_deletes_their_records_alone(
    tables: database::Tables,
    blocks: Seq<BlockHashMap>,
)
    ensures
        ({
            let after = tables.after_all(receipt_provider::removal(blocks));
            &&& forall|hash: Seq<u8>| #[trigger]
                after.transactions.contains_key(hash) <==> tables.transactions.contains_key(hash)
                    && !receipt_provider::substrate_hashes(blocks).contains(tables.transactions[hash].0)
            &&& forall|hash: Seq<u8>| #[trigger]
                after.transactions.contains_key(hash) ==> after.transactions[hash]
                    == tables.transactions[hash]
            &&& forall|hash: Seq<u8>| #[trigger]
                after.mappings.contains_key(hash) <==> tables.mappings.contains_key(hash)
                    && !receipt_provider::substrate_hashes(blocks).contains(tables.mappings[hash])
            &&& forall|hash: Seq<u8>| #[trigger]
                after.mappings.contains_key(hash) ==> after.mappings[hash] == tables.mappings[hash]
            &&& forall|row: database::LogRowView| #[trigger]
                after.logs.contains(row) <==> tables.logs.contains(row)
                    && !receipt_provider::ethereum_hashes(blocks).contains(row.block_hash)
        }),
{
    let statements = receipt_provider::removal(blocks);
    let after = tables.after_all(statements);
    let substrate = receipt_provider::substrate_hashes(blocks);
    let ethereum = receipt_provider::ethereum_hashes(blocks);
    if blocks.len() == 0 {
        assert(after == tables);
        assert(substrate =~= seq![]);
        assert(ethereum =~= seq![]);
    } else {
        let one = tables.after(database::StatementView::DeleteTransactions(substrate));
        let two = one.after(database::StatementView::DeleteLogs(ethereum));
        let three = two.after(database::StatementView::DeleteMappings(substrate));
        let upto_two = statements.drop_last();
        let upto_one = upto_two.drop_last();
        assert(upto_one.drop_last() =~= seq![]);
        assert(tables.after_all(upto_one.drop_last()) == tables);
        assert(upto_one.last() == database::StatementView::DeleteTransactions(substrate));
        assert(tables.after_all(upto_one) == one);
        assert(upto_two.last() == database::StatementView::DeleteLogs(ethereum));
        assert(tables.after_all(upto_two) == two);
        assert(after == three);
        database::lemma_filtered_rows(
            tables.logs,
            |row: database::LogRowView| !ethereum.contains(row.block_hash),
        );
    }
}

/// Whether no two of the blocks share a hash.
pub open spec fn hashes_are_distinct(blocks: block_cache::Blocks) -> bool {
    forall|m: u32, n: u32|
        m != n && #[trigger] blocks.contains_key(m) && #[trigger] blocks.contains_key(n)
            ==> blocks[m].substrate_hash != blocks[n].substrate_hash && blocks[m].ethereum_hash
            != blocks[n].ethereum_hash
}

/// Whether one of the blocks has this Substrate hash.
pub open spec fn holds_substrate(blocks: block_cache::Blocks, hash: Seq<u8>) -> bool {
    exists|n: u32| #[trigger] blocks.contains_key(n) && blocks[n].substrate_hash@ == hash
}

/// Whether one of the blocks has this Ethereum hash.
pub open spec fn holds_ethereum(blocks: block_cache::Blocks, hash: Seq<u8>) -> bool {
    exists|n: u32| #[trigger] blocks.contains_key(n) && blocks[n].ethereum_hash@ == hash
}

/// Whether the mapping of each of the blocks is in the database.
pub open spec fn blocks_are_mapped(blocks: block_cache::Blocks, tables: database::Tables) -> bool {
    forall|n: u32| #[trigger]
        blocks.contains_key(n) ==> tables.mappings.contains_key(blocks[n].ethereum_hash@)
            && tables.mappings[blocks[n].ethereum_hash@] == blocks[n].substrate_hash@
}

/// Whether the database and the blocks that are held speak of the same blocks: each block is mapped,
/// and every mapping, transaction and log is of one of the blocks.
pub open spec fn is_consistent(blocks: block_cache::Blocks, tables: database::Tables) -> bool {
    &&& hashes_are_distinct(blocks)
    &&& blocks_are_mapped(blocks, tables)
    &&& forall|hash: Seq<u8>| #[trigger]
        tables.mappings.contains_key(hash) ==> holds_ethereum(blocks, hash)
    &&& forall|hash: Seq<u8>| #[trigger]
        tables.transactions.contains_key(hash) ==> holds_substrate(
            blocks,
            tables.transactions[hash].0,
        )
    &&& forall|row: database::LogRowView| #[trigger]
        tables.logs.contains(row) ==> holds_ethereum(blocks, row.block_hash)
}

/// Whether no other block among those held has one of the hashes of this block.
pub open spec fn is_new_at(blocks: block_cache::Blocks, number: u32, block: BlockHashMap) -> bool {
    forall|n: u32|
        n != number && #[trigger] blocks.contains_key(n) ==> blocks[n].substrate_hash
            != block.substrate_hash && blocks[n].ethereum_hash != block.ethereum_hash
}

/// Nothing is held and nothing is recorded at the start.
pub proof fn an_empty_database_is_consistent()
    ensures
        is_consistent(Map::empty(), database::Tables::empty()),
{
}

/// Whether a block is removed: its number is no longer held, or another block took it.
pub open spec fn leaves(
    blocks: block_cache::Blocks,
    after: block_cache::Blocks,
    number: u32,
    block: BlockHashMap,
    n: u32,
) -> bool {
    blocks.contains_key(n) && (!after.contains_key(n) || (n == number && blocks[n] != block))
}

/// Where only the latest blocks are kept, the blocks that are removed are exactly those that are
/// held no longer, the new block among them where it is not kept, and the others stay as they are.
pub proof fn removed_blocks_are_those_no_longer_held(
    blocks: block_cache::Blocks,
    keep: usize,
    number: u32,
    block: BlockHashMap,
)
    requires
        blocks.dom().finite(),
    ensures
        ({
            let after = block_cache::blocks_after(blocks, Some(keep), number, block);
            let removed = block_cache::blocks_to_remove(blocks, Some(keep), number, block);
            &&& if after.contains_key(number) {
                after[number] == block
            } else {
                removed.contains(block)
            }
            &&& forall|n: u32|
                n != number && #[trigger] after.contains_key(n) ==> blocks.contains_key(n)
                    && after[n] == blocks[n]
            &&& forall|n: u32| #[trigger]
                leaves(blocks, after, number, block, n) ==> removed.contains(blocks[n])
            &&& forall|gone: BlockHashMap| #[trigger]
                removed.contains(gone) ==> (gone == block && !after.contains_key(number)) || exists|
                    n: u32,
                |
                    leaves(blocks, after, number, block, n) && blocks[n] == gone
        }),
{
    let held = block_cache::with_block(blocks, number, block);
    let count = block_cache::excess(held, keep as nat);
    let after = block_cache::blocks_after(blocks, Some(keep), number, block);
    let gone = block_cache::displaced(blocks, number, block);
    let old = block_cache::oldest_blocks(held, count);
    let removed = block_cache::blocks_to_remove(blocks, Some(keep), number, block);
    block_cache::lemma_with_block_finite(blocks, number, block);
    block_cache::leaving_out_the_oldest_keeps_the_latest(held, count);
    block_cache::a_fork_loses_no_block(blocks, number, block);
    assert(removed =~= gone + old);
    assert(held.contains_key(number) && held[number] == block);
    assert forall|n: u32| #[trigger] after.contains_key(n) implies held.contains_key(n) && after[n]
        == held[n] by {
        assert(after.submap_of(held));
        assert(after.dom().contains(n));
        assert(held.dom().contains(n));
    }
    if !after.contains_key(number) {
        assert(old.contains(held[number]));
        let i = choose|i: int| 0 <= i < old.len() && old[i] == block;
        assert(removed[gone.len() + i] == block);
    }
    assert forall|n: u32| #[trigger] leaves(blocks, after, number, block, n) implies removed.contains(
        blocks[n],
    ) by {
        if gone.contains(blocks[n]) {
            let i = choose|i: int| 0 <= i < gone.len() && gone[i] == blocks[n];
            assert(removed[i] == blocks[n]);
        } else {
            assert(held.contains_key(n) && held[n] == blocks[n]);
            assert(old.contains(held[n]));
            let i = choose|i: int| 0 <= i < old.len() && old[i] == held[n];
            assert(removed[gone.len() + i] == blocks[n]);
        }
    }
    assert forall|b: BlockHashMap| #[trigger] removed.contains(b) implies (b == block
        && !after.contains_key(number)) || exists|n: u32|
        leaves(blocks, after, number, block, n) && blocks[n] == b by {
        let i = choose|i: int| 0 <= i < removed.len() && removed[i] == b;
        if i < gone.len() {
            assert(gone[i] == b);
            assert(gone.contains(b));
            let n = choose|n: u32|
                blocks.contains_key(n) && blocks[n] == b && (n == number || !held.contains_key(n));
            if n == number {
                assert(block_cache::is_fork(blocks, number, block));
            }
            assert(leaves(blocks, after, number, block, n));
        } else {
            assert(old[i - gone.len()] == b);
            assert(old.contains(b));
            let n = choose|n: u32|
                held.contains_key(n) && !after.contains_key(n) && held[n] == b;
            if n != number {
                assert(blocks.contains_key(n) && blocks[n] == b);
                assert(leaves(blocks, after, number, block, n));
            }
        }
    }
}

/// Where only the latest blocks are kept, inserting a block keeps the database and the blocks that
/// are held consistent, as long as the hashes of the new block are its own.
pub proof fn inserting_keeps_the_database_consistent(
    tables: database::Tables,
    blocks: block_cache::Blocks,
    keep: usize,
    number: u32,
    block: BlockHashMap,
    receipts: Seq<evm::ReceiptView>,
)
    requires
        blocks.dom().finite(),
        is_consistent(blocks, tables),
        is_new_at(blocks, number, block),
    ensures
        is_consistent(
            block_cache::blocks_after(blocks, Some(keep), number, block),
            tables_after(tables, blocks, Some(keep), number, block, receipts),
        ),
{
    let after = block_cache::blocks_after(blocks, Some(keep), number, block);
    let removed = block_cache::blocks_to_remove(blocks, Some(keep), number, block);
    let pruned = tables.after_all(receipt_provider::removal(removed));
    let last = tables_after(tables, blocks, Some(keep), number, block, receipts);
    let substrate = receipt_provider::substrate_hashes(removed);
    let ethereum = receipt_provider::ethereum_hashes(removed);
    removed_blocks_are_those_no_longer_held(blocks, keep, number, block);
    removing_blocks_deletes_their_records_alone(tables, removed);
    // A block that is removed takes its hashes with it, and only its own.
    assert forall|n: u32| #[trigger] blocks.contains_key(n) implies {
        &&& substrate.contains(blocks[n].substrate_hash@) <==> leaves(blocks, after, number, block, n)
        &&& ethereum.contains(blocks[n].ethereum_hash@) <==> leaves(blocks, after, number, block, n)
    } by {
        if leaves(blocks, after, number, block, n) {
            let i = choose|i: int| 0 <= i < removed.len() && removed[i] == blocks[n];
            assert(substrate[i] == blocks[n].substrate_hash@);
            assert(ethereum[i] == blocks[n].ethereum_hash@);
        }
        if substrate.contains(blocks[n].substrate_hash@) {
            let i = choose|i: int|
                0 <= i < substrate.len() && substrate[i] == blocks[n].substrate_hash@;
            lemma_same_hash(removed[i].substrate_hash, blocks[n].substrate_hash);
            assert(removed.contains(removed[i]));
            if removed[i] == block && !after.contains_key(number) {
                assert(n == number);
            } else {
                let m = choose|m: u32|
                    leaves(blocks, after, number, block, m) && blocks[m] == removed[i];
                assert(m == n);
            }
        }
        if ethereum.contains(blocks[n].ethereum_hash@) {
            let i = choose|i: int| 0 <= i < ethereum.len() && ethereum[i] == blocks[n].ethereum_hash@;
            lemma_same_hash(removed[i].ethereum_hash, blocks[n].ethereum_hash);
            assert(removed.contains(removed[i]));
            if removed[i] == block && !after.contains_key(number) {
                assert(n == number);
            } else {
                let m = choose|m: u32|
                    leaves(blocks, after, number, block, m) && blocks[m] == removed[i];
                assert(m == n);
            }
        }
    }
    assert(hashes_are_distinct(after)) by {
        assert forall|m: u32, n: u32|
            m != n && #[trigger] after.contains_key(m) && #[trigger] after.contains_key(
                n,
            ) implies after[m].substrate_hash != after[n].substrate_hash && after[m].ethereum_hash
            != after[n].ethereum_hash by {
            if m != number {
                assert(blocks.contains_key(m));
            }
            if n != number {
                assert(blocks.contains_key(n));
            }
        }
    }
    // What is left after pruning is of blocks that stay.
    assert forall|hash: Seq<u8>| #[trigger] pruned.mappings.contains_key(hash) implies holds_ethereum(
        after,
        hash,
    ) by {
        let n = choose|n: u32| #[trigger] blocks.contains_key(n) && blocks[n].ethereum_hash@ == hash;
        assert(!leaves(blocks, after, number, block, n));
        assert(after.contains_key(n) && after[n] == blocks[n]);
    }
    assert forall|hash: Seq<u8>| #[trigger] pruned.transactions.contains_key(
        hash,
    ) implies holds_substrate(after, pruned.transactions[hash].0) by {
        let of = tables.transactions[hash].0;
        let n = choose|n: u32| #[trigger] blocks.contains_key(n) && blocks[n].substrate_hash@ == of;
        assert(!leaves(blocks, after, number, block, n));
        assert(after.contains_key(n) && after[n] == blocks[n]);
    }
    assert forall|row: database::LogRowView| #[trigger] pruned.logs.contains(
        row,
    ) implies holds_ethereum(after, row.block_hash) by {
        let n = choose|n: u32| #[trigger]
            blocks.contains_key(n) && blocks[n].ethereum_hash@ == row.block_hash;
        assert(!leaves(blocks, after, number, block, n));
        assert(after.contains_key(n) && after[n] == blocks[n]);
    }
    // The blocks that stay are still mapped.
    assert forall|n: u32| n != number && #[trigger] after.contains_key(
        n,
    ) implies pruned.mappings.contains_key(after[n].ethereum_hash@)
        && pruned.mappings[after[n].ethereum_hash@] == after[n].substrate_hash@ by {
        assert(blocks.contains_key(n));
        assert(!leaves(blocks, after, number, block, n));
    }
    if !after.contains_key(number) {
        assert(last == pruned);
    } else if pruned.has_block(block.substrate_hash@) {
        // Only the block itself can be what is there already.
        let e = choose|e: Seq<u8>| #[trigger]
            pruned.mappings.contains_key(e) && pruned.mappings[e] == block.substrate_hash@;
        let n = choose|n: u32| #[trigger] blocks.contains_key(n) && blocks[n].ethereum_hash@ == e;
        lemma_same_hash(blocks[n].substrate_hash, block.substrate_hash);
        assert(n == number);
        assert(!leaves(blocks, after, number, block, n));
        assert(blocks[number] == block);
        assert(last == pruned);
    } else {
        inserting_receipts_adds_transactions_and_logs(pruned, receipts, block, number);
        lemma_insertion(pruned, receipts, block, number);
        lemma_log_rows_are_of_the_block(receipts, block, number);
        assert(after.contains_key(number) && after[number] == block);
        assert forall|n: u32| #[trigger] after.contains_key(n) implies last.mappings.contains_key(
            after[n].ethereum_hash@,
        ) && last.mappings[after[n].ethereum_hash@] == after[n].substrate_hash@ by {
            if n != number {
                if after[n].ethereum_hash@ == block.ethereum_hash@ {
                    lemma_same_hash(after[n].ethereum_hash, block.ethereum_hash);
                    assert(blocks.contains_key(n));
                }
            }
        }
        assert forall|row: database::LogRowView| #[trigger] last.logs.contains(
            row,
        ) implies holds_ethereum(after, row.block_hash) by {
            let rows = log_rows(receipts, block, number);
            let i = choose|i: int| 0 <= i < last.logs.len() && last.logs[i] == row;
            if i < pruned.logs.len() {
                assert(pruned.logs[i] == row);
                assert(pruned.logs.contains(row));
            } else {
                assert(rows[i - pruned.logs.len()] == row);
            }
        }
    }
}

/// Two hashes with the same bytes are the same hash.
pub(crate) proof fn lemma_same_hash(a: crate::primitives::H256, b: crate::primitives::H256)
    ensures
        a@ == b@ ==> a == b,
{
    if a@ == b@ {
        crate::primitives::h256_bytes_determine(a, b);
    }
}

/// The rows for the logs of a block carry its Ethereum hash.
pub(crate) proof fn lemma_log_rows_are_of_the_block(
    receipts: Seq<evm::ReceiptView>,
    block: BlockHashMap,
    number: u32,
)
    ensures
        forall|i: int|
            0 <= i < log_rows(receipts, block, number).len() ==> (#[trigger] log_rows(
                receipts,
                block,
                number,
            )[i]).block_hash == block.ethereum_hash@,
    decreases receipts.len(),
{
    if receipts.len() > 0 {
        lemma_log_rows_are_of_the_block(receipts.drop_last(), block, number);
    }
}

/// A consistent database has exactly one mapping for each block that is held. So where only the
/// latest blocks are kept, the database has no more blocks than that.
pub proof fn a_consistent_database_has_as_many_blocks_as_are_held(
    blocks: block_cache::Blocks,
    tables: database::Tables,
)
    requires
        blocks.dom().finite(),
        is_consistent(blocks, tables),
    ensures
        tables.mappings.dom().finite(),
        tables.mappings.len() == blocks.len(),
{
    let hash = |n: u32| blocks[n].ethereum_hash@;
    assert(vstd::relations::injective_on(hash, blocks.dom())) by {
        assert forall|m: u32, n: u32|
            blocks.dom().contains(m) && blocks.dom().contains(n) && #[trigger] hash(m)
                == #[trigger] hash(n) implies m == n by {
            lemma_same_hash(blocks[m].ethereum_hash, blocks[n].ethereum_hash);
            assert(blocks.contains_key(m) && blocks.contains_key(n));
        }
    }
    assert(blocks.dom().map(hash) =~= tables.mappings.dom()) by {
        assert forall|e: Seq<u8>| tables.mappings.dom().contains(e) implies #[trigger] blocks.dom().map(
            hash,
        ).contains(e) by {
            assert(tables.mappings.contains_key(e));
            let n = choose|n: u32| #[trigger] blocks.contains_key(n) && blocks[n].ethereum_hash@ == e;
            assert(blocks.dom().contains(n) && hash(n) == e);
        }
        assert forall|e: Seq<u8>| #[trigger] blocks.dom().map(hash).contains(
            e,
        ) implies tables.mappings.dom().contains(e) by {
            let n = choose|n: u32| blocks.dom().contains(n) && hash(n) == e;
            assert(blocks.contains_key(n));
        }
    }
    vstd::set_lib::lemma_map_size(blocks.dom(), tables.mappings.dom(), hash);
}

/// Where the database is persistent, blocks that fall out of the cache stay in the database: only a
/// fork deletes records.
pub proof fn a_persistent_database_only_loses_forked_blocks(
    tables: database::Tables,
    blocks: block_cache::Blocks,
    number: u32,
    block: BlockHashMap,
)
    requires
        !block_cache::is_fork(blocks, number, block),
    ensures
        tables.after_all(
            receipt_provider::removal(block_cache::blocks_to_remove(blocks, None, number, block)),
        ) == tables,
{
}

/// Where the database is persistent, every block that is held stays mapped when a block is inserted,
/// and the new block is mapped too, as long as its hashes are its own.
pub proof fn a_persistent_database_maps_the_blocks_that_are_held(
    tables: database::Tables,
    blocks: block_cache::Blocks,
    number: u32,
    block: BlockHashMap,
    receipts: Seq<evm::ReceiptView>,
)
    requires
        blocks.dom().finite(),
        hashes_are_distinct(blocks),
        blocks_are_mapped(blocks, tables),
        is_new_at(blocks, number, block),
        forall|hash: Seq<u8>| #[trigger]
            tables.mappings.contains_key(hash) && tables.mappings[hash] == block.substrate_hash@
                ==> hash == block.ethereum_hash@,
    ensures
        blocks_are_mapped(
            block_cache::blocks_after(blocks, None, number, block),
            tables_after(tables, blocks, None, number, block, receipts),
        ),
        tables_after(tables, blocks, None, number, block, receipts).mappings.contains_key(
            block.ethereum_hash@,
        ),
        tables_after(
            tables,
            blocks,
            None,
            number,
            block,
            receipts,
        ).mappings[block.ethereum_hash@] == block.substrate_hash@,
{
    let held = block_cache::with_block(blocks, number, block);
    let limit = block_cache::cache_limit(None);
    let after = block_cache::blocks_after(blocks, None, number, block);
    let removed = block_cache::blocks_to_remove(blocks, None, number, block);
    let pruned = tables.after_all(receipt_provider::removal(removed));
    let last = tables_after(tables, blocks, None, number, block, receipts);
    let substrate = receipt_provider::substrate_hashes(removed);
    block_cache::lemma_with_block_finite(blocks, number, block);
    block_cache::leaving_out_the_oldest_keeps_the_latest(held, block_cache::excess(held, limit));
    block_cache::a_fork_loses_no_block(blocks, number, block);
    removing_blocks_deletes_their_records_alone(tables, removed);
    inserting_receipts_adds_transactions_and_logs(pruned, receipts, block, number);
    lemma_insertion(pruned, receipts, block, number);
    if pruned.has_block(block.substrate_hash@) {
        let e = choose|e: Seq<u8>| #[trigger]
            pruned.mappings.contains_key(e) && pruned.mappings[e] == block.substrate_hash@;
        assert(tables.mappings.contains_key(e));
        assert(last == pruned);
    }
    assert(last.mappings.contains_key(block.ethereum_hash@) && last.mappings[block.ethereum_hash@]
        == block.substrate_hash@);
    assert forall|n: u32| #[trigger] after.contains_key(n) implies last.mappings.contains_key(
        after[n].ethereum_hash@,
    ) && last.mappings[after[n].ethereum_hash@] == after[n].substrate_hash@ by {
        assert(after.submap_of(held));
        assert(after.dom().contains(n));
        assert(held.dom().contains(n));
        if n == number {
            assert(held[n] == block);
        } else {
            assert(blocks.contains_key(n) && after[n] == blocks[n]);
            if substrate.contains(blocks[n].substrate_hash@) {
                let i = choose|i: int|
                    0 <= i < substrate.len() && substrate[i] == blocks[n].substrate_hash@;
                lemma_same_hash(removed[i].substrate_hash, blocks[n].substrate_hash);
                assert(removed.contains(removed[i]));
                let m = choose|m: u32|
                    blocks.contains_key(m) && blocks[m] == removed[i] && (m == number
                        || !held.contains_key(m));
                assert(m == n);
            }
            lemma_same_hash(after[n].ethereum_hash, block.ethereum_hash);
        }
    }
}

/// Each log of each receipt has its row.
pub(crate) proof fn lemma_log_rows_hold_each_log(
    receipts: Seq<evm::ReceiptView>,
    block: BlockHashMap,
    number: u32,
    i: int,
    j: int,
)
    requires
        0 <= i < receipts.len(),
        0 <= j < receipts[i].logs.len(),
    ensures
        log_rows(receipts, block, number).contains(
            receipt_provider::log_row(receipts[i].logs[j], receipts[i], block, number),
        ),
    decreases receipts.len(),
{
    let rows = log_rows(receipts, block, number);
    let before = log_rows(receipts.drop_last(), block, number);
    let row = receipt_provider::log_row(receipts[i].logs[j], receipts[i], block, number);
    if i < receipts.len() - 1 {
        lemma_log_rows_hold_each_log(receipts.drop_last(), block, number, i, j);
        let k = choose|k: int| 0 <= k < before.len() && before[k] == row;
        assert(rows[k] == row);
    } else {
        assert(rows[before.len() + j] == row);
    }
}

/// A log of a block that was inserted is in the database, and it is selected by a filter that asks
/// for the hash of its Ethereum block, and by one that asks for its block number.
pub proof fn an_inserted_log_is_found_by_its_block(
    tables: database::Tables,
    receipts: Seq<evm::ReceiptView>,
    block: BlockHashMap,
    number: u32,
    latest: u32,
    i: int,
    j: int,
)
    requires
        0 <= i < receipts.len(),
        0 <= j < receipts[i].logs.len(),
        number <= latest,
    ensures
        ({
            let after = tables.after_all(receipt_provider::insertion(receipts, block, number, false));
            let row = receipt_provider::log_row(receipts[i].logs[j], receipts[i], block, number);
            let by_hash = log_filter::FilterView {
                block_hash: Some(block.ethereum_hash@),
                ..log_filter::FilterView::nothing()
            };
            let at = Some(evm::BlockNumberOrTag::U256(crate::primitives::U256::of(number as nat)));
            let by_number = log_filter::FilterView {
                from_block: at,
                to_block: at,
                ..log_filter::FilterView::nothing()
            };
            &&& after.logs.contains(row)
            &&& log_filter::conditions(by_hash, latest) is Ok
            &&& log_filter::selects(log_filter::conditions(by_hash, latest)->Ok_0, row)
            &&& log_filter::conditions(by_number, latest) is Ok
            &&& log_filter::selects(log_filter::conditions(by_number, latest)->Ok_0, row)
        }),
{
    let after = tables.after_all(receipt_provider::insertion(receipts, block, number, false));
    let rows = log_rows(receipts, block, number);
    let row = receipt_provider::log_row(receipts[i].logs[j], receipts[i], block, number);
    inserting_receipts_adds_transactions_and_logs(tables, receipts, block, number);
    lemma_insertion(tables, receipts, block, number);
    lemma_log_rows_hold_each_log(receipts, block, number, i, j);
    let k = choose|k: int| 0 <= k < rows.len() && rows[k] == row;
    assert(after.logs[tables.logs.len() + k] == row);
}

/// A block that was inserted and then removed leaves no record behind. What is left was there before,
/// and of the records of other blocks only those are gone that the block replaced: the transactions
/// that it has as well, and the mapping of its Ethereum hash.
pub proof fn removing_undoes_inserting(
    tables: database::Tables,
    receipts: Seq<evm::ReceiptView>,
    block: BlockHashMap,
    number: u32,
)
    ensures
        ({
            let after = tables.after_all(
                receipt_provider::insertion(receipts, block, number, false),
            ).after_all(receipt_provider::removal(seq![block]));
            &&& forall|hash: Seq<u8>| #[trigger]
                after.transactions.contains_key(hash) ==> after.transactions[hash].0
                    != block.substrate_hash@
            &&& !after.has_block(block.substrate_hash@)
            &&& forall|row: database::LogRowView| #[trigger]
                after.logs.contains(row) ==> row.block_hash != block.ethereum_hash@
                    && tables.logs.contains(row)
            &&& forall|hash: Seq<u8>| #[trigger]
                after.transactions.contains_key(hash) ==> tables.transactions.contains_key(hash)
                    && after.transactions[hash] == tables.transactions[hash]
            &&& forall|hash: Seq<u8>| #[trigger]
                after.mappings.contains_key(hash) ==> tables.mappings.contains_key(hash)
                    && after.mappings[hash] == tables.mappings[hash]
            &&& forall|hash: Seq<u8>| #[trigger]
                tables.transactions.contains_key(hash) && tables.transactions[hash].0
                    != block.substrate_hash@ && !(exists|i: int|
                    0 <= i < receipts.len() && receipts[i].transaction_hash == hash)
                    ==> after.transactions.contains_key(hash)
            &&& forall|hash: Seq<u8>| #[trigger]
                tables.mappings.contains_key(hash) && tables.mappings[hash] != block.substrate_hash@
                    && hash != block.ethereum_hash@ ==> after.mappings.contains_key(hash)
            &&& forall|row: database::LogRowView| #[trigger]
                tables.logs.contains(row) && row.block_hash != block.ethereum_hash@
                    ==> after.logs.contains(row)
        }),
{
    let inserted = tables.after_all(receipt_provider::insertion(receipts, block, number, false));
    let after = inserted.after_all(receipt_provider::removal(seq![block]));
    inserting_receipts_adds_transactions_and_logs(tables, receipts, block, number);
    lemma_insertion(tables, receipts, block, number);
    lemma_log_rows_are_of_the_block(receipts, block, number);
    removing_blocks_deletes_their_records_alone(inserted, seq![block]);
    assert(receipt_provider::substrate_hashes(seq![block])[0] == block.substrate_hash@);
    assert(receipt_provider::ethereum_hashes(seq![block])[0] == block.ethereum_hash@);
    assert forall|row: database::LogRowView| #[trigger] after.logs.contains(row) implies row.block_hash
        != block.ethereum_hash@ && tables.logs.contains(row) by {
        let rows = log_rows(receipts, block, number);
        assert(inserted.logs.contains(row));
        let i = choose|i: int| 0 <= i < inserted.logs.len() && inserted.logs[i] == row;
        if i < tables.logs.len() {
            assert(tables.logs[i] == row);
        } else {
            assert(rows[i - tables.logs.len()] == row);
        }
    }
    assert forall|hash: Seq<u8>| #[trigger]
        tables.transactions.contains_key(hash) && tables.transactions[hash].0
            != block.substrate_hash@ && !(exists|i: int|
            0 <= i < receipts.len() && receipts[i].transaction_hash
                == hash) implies after.transactions.contains_key(hash) by {
        assert(inserted.transactions.contains_key(hash));
        assert(inserted.transactions[hash] == tables.transactions[hash]);
    }
    assert forall|hash: Seq<u8>| #[trigger]
        tables.mappings.contains_key(hash) && tables.mappings[hash] != block.substrate_hash@ && hash
            != block.ethereum_hash@ implies after.mappings.contains_key(hash) by {
        assert(inserted.mappings.contains_key(hash));
    }
    assert forall|row: database::LogRowView| #[trigger]
        tables.logs.contains(row) && row.block_hash
            != block.ethereum_hash@ implies after.logs.contains(row) by {
        let i = choose|i: int| 0 <= i < tables.logs.len() && tables.logs[i] == row;
        assert(inserted.logs[i] == row);
    }
}

/// A log that was extracted from a block is read back from the database as it was extracted, once
/// the receipts of the block were inserted under its hashes, as long as the log has no more topics
/// than the table has columns and its indices are not beyond the range of the columns.
pub proof fn an_extracted_log_is_read_back_from_the_database(
    tables: database::Tables,
    contents: receipt_extractor::BlockContents,
    senders: Seq<Option<Seq<u8>>>,
    count: nat,
    block: BlockHashMap,
    i: int,
    j: int,
)
    requires
        contents.receipts(senders, count) is Ok,
        block.ethereum_hash@ == contents.hash,
        0 <= i < count,
        0 <= j < contents.receipts(senders, count)->Ok_0[i].1.logs.len(),
        contents.receipts(senders, count)->Ok_0[i].1.logs[j].topics.len()
            <= log_filter::MAX_TOPICS,
        contents.receipts(senders, count)->Ok_0[i].1.transaction_index <= i32::MAX,
        j <= i32::MAX,
    ensures
        ({
            let pairs = contents.receipts(senders, count)->Ok_0;
            let receipts = pairs.map_values(|pair: (Seq<u8>, evm::ReceiptView)| pair.1);
            let after = tables.after_all(
                receipt_provider::insertion(receipts, block, contents.number, false),
            );
            exists|row: database::LogRowView| #[trigger]
                after.logs.contains(row) && log_filter::log_of_row(row) == pairs[i].1.logs[j]
        }),
{
    let pairs = contents.receipts(senders, count)->Ok_0;
    receipt_extractor::receipts_follow_the_extrinsics(contents, senders, count);
    let receipts = pairs.map_values(|pair: (Seq<u8>, evm::ReceiptView)| pair.1);
    let receipt = pairs[i].1;
    let log = receipt.logs[j];
    let row = receipt_provider::log_row(log, receipt, block, contents.number);
    let after = tables.after_all(
        receipt_provider::insertion(receipts, block, contents.number, false),
    );
    assert(receipts[i] == receipt);
    an_inserted_log_is_found_by_its_block(
        tables,
        receipts,
        block,
        contents.number,
        contents.number,
        i,
        j,
    );
    log_filter::a_log_is_read_back_as_it_was_written(log, receipt, block, contents.number);
    assert(after.logs.contains(row));
}

/// A block that arrives, with its receipts.
pub ghost struct Arrival {
    /// The number of the block.
    pub number: u32,
    /// The hashes of the block.
    pub block: BlockHashMap,
    /// The receipts of the block.
    pub receipts: Seq<evm::ReceiptView>,
}

/// The blocks that are held, and the database.
#[verifier::ext_equal]
pub ghost struct Index {
    /// The blocks that are held.
    pub blocks: block_cache::Blocks,
    /// The database.
    pub tables: database::Tables,
}

impl Index {
    /// Nothing is held and nothing is recorded.
    pub open spec fn empty() -> Index {
        Index { blocks: Map::empty(), tables: database::Tables::empty() }
    }

    /// The index after a block arrived and was inserted.
    pub open spec fn after(self, keep_latest_n_blocks: Option<usize>, arrival: Arrival) -> Index {
        Index {
            blocks: block_cache::blocks_after(
                self.blocks,
                keep_latest_n_blocks,
                arrival.number,
                arrival.block,
            ),
            tables: tables_after(
                self.tables,
                self.blocks,
                keep_latest_n_blocks,
                arrival.number,
                arrival.block,
                arrival.receipts,
            ),
        }
    }

    /// The index after blocks arrived and were inserted, in order.
    pub open spec fn after_all(
        self,
        keep_latest_n_blocks: Option<usize>,
        arrivals: Seq<Arrival>,
    ) -> Index
        decreases arrivals.len(),
    {
        if arrivals.len() == 0 {
            self
        } else {
            self.after_all(keep_latest_n_blocks, arrivals.drop_last()).after(
                keep_latest_n_blocks,
                arrivals.last(),
            )
        }
    }
}

/// Whether one of the blocks has both of these hashes.
pub open spec fn holds_both(
    blocks: block_cache::Blocks,
    ethereum_hash: Seq<u8>,
    substrate_hash: Seq<u8>,
) -> bool {
    exists|n: u32| #[trigger]
        blocks.contains_key(n) && blocks[n].ethereum_hash@ == ethereum_hash
            && blocks[n].substrate_hash@ == substrate_hash
}

/// Whether every record in the database is of a block that is held.
pub open spec fn records_are_of_held_blocks(
    blocks: block_cache::Blocks,
    tables: database::Tables,
) -> bool {
    &&& forall|hash: Seq<u8>| #[trigger]
        tables.mappings.contains_key(hash) ==> holds_both(blocks, hash, tables.mappings[hash])
    &&& forall|hash: Seq<u8>| #[trigger]
        tables.transactions.contains_key(hash) ==> holds_substrate(
            blocks,
            tables.transactions[hash].0,
        )
    &&& forall|row: database::LogRowView| #[trigger]
        tables.logs.contains(row) ==> holds_ethereum(blocks, row.block_hash)
}

/// Where only the latest blocks are kept, inserting a block leaves records of held blocks only,
/// whatever its number and its hashes are: a block that is not kept leaves no record.
pub proof fn inserting_leaves_records_of_held_blocks_only(
    tables: database::Tables,
    blocks: block_cache::Blocks,
    keep: usize,
    number: u32,
    block: BlockHashMap,
    receipts: Seq<evm::ReceiptView>,
)
    requires
        blocks.dom().finite(),
        records_are_of_held_blocks(blocks, tables),
    ensures
        records_are_of_held_blocks(
            block_cache::blocks_after(blocks, Some(keep), number, block),
            tables_after(tables, blocks, Some(keep), number, block, receipts),
        ),
{
    let after = block_cache::blocks_after(blocks, Some(keep), number, block);
    let removed = block_cache::blocks_to_remove(blocks, Some(keep), number, block);
    let pruned = tables.after_all(receipt_provider::removal(removed));
    let last = tables_after(tables, blocks, Some(keep), number, block, receipts);
    let substrate = receipt_provider::substrate_hashes(removed);
    let ethereum = receipt_provider::ethereum_hashes(removed);
    removed_blocks_are_those_no_longer_held(blocks, keep, number, block);
    removing_blocks_deletes_their_records_alone(tables, removed);
    // A block whose hash is not among those of the removed blocks stays.
    assert forall|n: u32| #[trigger]
        blocks.contains_key(n) && (!substrate.contains(blocks[n].substrate_hash@)
            || !ethereum.contains(blocks[n].ethereum_hash@)) implies after.contains_key(n)
        && after[n] == blocks[n] by {
        if leaves(blocks, after, number, block, n) {
            let i = choose|i: int| 0 <= i < removed.len() && removed[i] == blocks[n];
            assert(substrate[i] == blocks[n].substrate_hash@);
            assert(ethereum[i] == blocks[n].ethereum_hash@);
        }
    }
    assert forall|hash: Seq<u8>| #[trigger] pruned.mappings.contains_key(hash) implies holds_both(
        after,
        hash,
        pruned.mappings[hash],
    ) by {
        let n = choose|n: u32| #[trigger]
            blocks.contains_key(n) && blocks[n].ethereum_hash@ == hash && blocks[n].substrate_hash@
                == tables.mappings[hash];
        assert(after.contains_key(n) && after[n] == blocks[n]);
    }
    assert forall|hash: Seq<u8>| #[trigger] pruned.transactions.contains_key(
        hash,
    ) implies holds_substrate(after, pruned.transactions[hash].0) by {
        let of = tables.transactions[hash].0;
        let n = choose|n: u32| #[trigger] blocks.contains_key(n) && blocks[n].substrate_hash@ == of;
        assert(after.contains_key(n) && after[n] == blocks[n]);
    }
    assert forall|row: database::LogRowView| #[trigger] pruned.logs.contains(
        row,
    ) implies holds_ethereum(after, row.block_hash) by {
        let n = choose|n: u32| #[trigger]
            blocks.contains_key(n) && blocks[n].ethereum_hash@ == row.block_hash;
        assert(after.contains_key(n) && after[n] == blocks[n]);
    }
    if !after.contains_key(number) || pruned.has_block(block.substrate_hash@) {
        assert(last == pruned);
    } else {
        inserting_receipts_adds_transactions_and_logs(pruned, receipts, block, number);
        lemma_insertion(pruned, receipts, block, number);
        lemma_log_rows_are_of_the_block(receipts, block, number);
        assert(after.contains_key(number) && after[number] == block);
        assert forall|row: database::LogRowView| #[trigger] last.logs.contains(
            row,
        ) implies holds_ethereum(after, row.block_hash) by {
            let rows = log_rows(receipts, block, number);
            let i = choose|i: int| 0 <= i < last.logs.len() && last.logs[i] == row;
            if i < pruned.logs.len() {
                assert(pruned.logs[i] == row);
                assert(pruned.logs.contains(row));
            } else {
                assert(rows[i - pruned.logs.len()] == row);
            }
        }
    }
}

/// Where every record is of a held block, no more blocks are mapped than are held.
proof fn lemma_no_more_mappings_than_blocks(
    blocks: block_cache::Blocks,
    tables: database::Tables,
)
    requires
        blocks.dom().finite(),
        records_are_of_held_blocks(blocks, tables),
    ensures
        tables.mappings.dom().finite(),
        tables.mappings.len() <= blocks.len(),
{
    let hash = |n: u32| blocks[n].ethereum_hash@;
    let mapped = tables.mappings.dom();
    let number = |e: Seq<u8>| choose|n: u32| #[trigger]
        blocks.contains_key(n) && blocks[n].ethereum_hash@ == e;
    assert forall|e: Seq<u8>| mapped.contains(e) implies #[trigger] blocks.dom().contains(number(e))
        && hash(number(e)) == e by {
        assert(tables.mappings.contains_key(e));
        let n = choose|n: u32| #[trigger]
            blocks.contains_key(n) && blocks[n].ethereum_hash@ == e && blocks[n].substrate_hash@
                == tables.mappings[e];
        assert(blocks.contains_key(n) && blocks[n].ethereum_hash@ == e);
    }
    assert(mapped.subset_of(blocks.dom().map(hash))) by {
        assert forall|e: Seq<u8>| mapped.contains(e) implies #[trigger] blocks.dom().map(
            hash,
        ).contains(e) by {
            assert(blocks.dom().contains(number(e)) && hash(number(e)) == e);
        }
    }
    blocks.dom().lemma_map_finite(hash);
    vstd::set_lib::lemma_len_subset(mapped, blocks.dom().map(hash));
    assert(vstd::relations::injective_on(number, mapped)) by {
        assert forall|a: Seq<u8>, b: Seq<u8>|
            mapped.contains(a) && mapped.contains(b) && #[trigger] number(a) == #[trigger] number(
                b,
            ) implies a == b by {
            assert(hash(number(a)) == a && hash(number(b)) == b);
        }
    }
    vstd::set_lib::lemma_map_size(mapped, mapped.map(number), number);
    assert(mapped.map(number).subset_of(blocks.dom())) by {
        assert forall|n: u32| #[trigger] mapped.map(number).contains(n) implies blocks.dom().contains(
            n,
        ) by {
            let e = choose|e: Seq<u8>| mapped.contains(e) && number(e) == n;
            assert(blocks.dom().contains(number(e)));
        }
    }
    vstd::set_lib::lemma_len_subset(mapped.map(number), blocks.dom());
}

/// Where only the latest blocks are kept, the database never has more blocks than that, whatever
/// blocks arrive and in whatever order, and every record in it is of a block that is held.
pub proof fn the_database_never_has_more_blocks_than_are_kept(keep: usize, arrivals: Seq<Arrival>)
    ensures
        ({
            let index = Index::empty().after_all(Some(keep), arrivals);
            &&& index.blocks.dom().finite()
            &&& index.blocks.len() <= keep
            &&& index.tables.mappings.dom().finite()
            &&& index.tables.mappings.len() <= keep
            &&& records_are_of_held_blocks(index.blocks, index.tables)
        }),
    decreases arrivals.len(),
{
    let index = Index::empty().after_all(Some(keep), arrivals);
    if arrivals.len() > 0 {
        let before = Index::empty().after_all(Some(keep), arrivals.drop_last());
        let last = arrivals.last();
        the_database_never_has_more_blocks_than_are_kept(keep, arrivals.drop_last());
        block_cache::inserting_respects_the_limit(
            before.blocks,
            Some(keep),
            last.number,
            last.block,
        );
        inserting_leaves_records_of_held_blocks_only(
            before.tables,
            before.blocks,
            keep,
            last.number,
            last.block,
            last.receipts,
        );
    }
    lemma_no_more_mappings_than_blocks(index.blocks, index.tables);
}

/// Whether a hash names one block at one number among those that arrive.
pub open spec fn hashes_name_blocks(arrivals: Seq<Arrival>) -> bool {
    forall|i: int, j: int|
        0 <= i < arrivals.len() && 0 <= j < arrivals.len() && ((
        #[trigger] arrivals[i]).block.substrate_hash == (
        #[trigger] arrivals[j]).block.substrate_hash || arrivals[i].block.ethereum_hash
            == arrivals[j].block.ethereum_hash) ==> arrivals[i].block == arrivals[j].block
            && arrivals[i].number == arrivals[j].number
}

/// Whether a block at a number is one of those that arrived.
pub open spec fn arrived(arrivals: Seq<Arrival>, number: u32, block: BlockHashMap) -> bool {
    exists|i: int|
        0 <= i < arrivals.len() && (#[trigger] arrivals[i]).number == number && arrivals[i].block
            == block
}

/// Where only the latest blocks are kept and hashes name blocks, the database and the blocks that
/// are held speak of the same blocks, whatever blocks arrive and in whatever order.
pub proof fn the_database_speaks_of_the_blocks_that_are_held(keep: usize, arrivals: Seq<Arrival>)
    requires
        hashes_name_blocks(arrivals),
    ensures
        ({
            let index = Index::empty().after_all(Some(keep), arrivals);
            &&& index.blocks.dom().finite()
            &&& is_consistent(index.blocks, index.tables)
            &&& forall|n: u32| #[trigger]
                index.blocks.contains_key(n) ==> arrived(arrivals, n, index.blocks[n])
        }),
    decreases arrivals.len(),
{
    if arrivals.len() == 0 {
        an_empty_database_is_consistent();
    } else {
        let earlier = arrivals.drop_last();
        let before = Index::empty().after_all(Some(keep), earlier);
        let index = Index::empty().after_all(Some(keep), arrivals);
        let last = arrivals.last();
        assert(hashes_name_blocks(earlier)) by {
            assert forall|i: int, j: int|
                0 <= i < earlier.len() && 0 <= j < earlier.len() && ((
                #[trigger] earlier[i]).block.substrate_hash == (
                #[trigger] earlier[j]).block.substrate_hash || earlier[i].block.ethereum_hash
                    == earlier[j].block.ethereum_hash) implies earlier[i].block
                == earlier[j].block && earlier[i].number == earlier[j].number by {
                assert(earlier[i] == arrivals[i] && earlier[j] == arrivals[j]);
            }
        }
        the_database_speaks_of_the_blocks_that_are_held(keep, earlier);
        assert(arrivals[arrivals.len() - 1] == last);
        assert(is_new_at(before.blocks, last.number, last.block)) by {
            assert forall|n: u32|
                n != last.number && #[trigger] before.blocks.contains_key(
                    n,
                ) implies before.blocks[n].substrate_hash != last.block.substrate_hash
                && before.blocks[n].ethereum_hash != last.block.ethereum_hash by {
                let i = choose|i: int|
                    0 <= i < earlier.len() && (#[trigger] earlier[i]).number == n
                        && earlier[i].block == before.blocks[n];
                assert(arrivals[i] == earlier[i]);
            }
        }
        block_cache::inserting_respects_the_limit(
            before.blocks,
            Some(keep),
            last.number,
            last.block,
        );
        inserting_keeps_the_database_consistent(
            before.tables,
            before.blocks,
            keep,
            last.number,
            last.block,
            last.receipts,
        );
        removed_blocks_are_those_no_longer_held(before.blocks, keep, last.number, last.block);
        assert forall|n: u32| #[trigger] index.blocks.contains_key(n) implies arrived(
            arrivals,
            n,
            index.blocks[n],
        ) by {
            if n != last.number {
                assert(before.blocks.contains_key(n));
                let i = choose|i: int|
                    0 <= i < earlier.len() && (#[trigger] earlier[i]).number == n
                        && earlier[i].block == before.blocks[n];
                assert(arrivals[i] == earlier[i]);
            }
        }
    }
}

/// Whether no two Ethereum hashes are mapped to the same Substrate hash.
pub open spec fn mappings_are_one_to_one(tables: database::Tables) -> bool {
    forall|a: Seq<u8>, b: Seq<u8>| #[trigger]
        tables.mappings.contains_key(a) && #[trigger] tables.mappings.contains_key(b)
            && tables.mappings[a] == tables.mappings[b] ==> a == b
}

/// The lookups by either hash agree, whatever blocks arrive and in whatever order: where an Ethereum
/// hash leads to a Substrate hash, that one leads back to it and to nothing else.
pub proof fn the_lookups_by_either_hash_agree(
    keep_latest_n_blocks: Option<usize>,
    arrivals: Seq<Arrival>,
)
    ensures
        ({
            let tables = Index::empty().after_all(keep_latest_n_blocks, arrivals).tables;
            &&& mappings_are_one_to_one(tables)
            &&& forall|ethereum_hash: Seq<u8>, substrate_hash: Seq<u8>, row: Option<Seq<u8>>|
                #[trigger] tables.substrate_row(ethereum_hash) == Some(substrate_hash) ==> (
                #[trigger] tables.may_be_ethereum_row(substrate_hash, row) <==> row == Some(
                    ethereum_hash,
                ))
        }),
    decreases arrivals.len(),
{
    if arrivals.len() > 0 {
        let before = Index::empty().after_all(keep_latest_n_blocks, arrivals.drop_last());
        let last = arrivals.last();
        let removed = block_cache::blocks_to_remove(
            before.blocks,
            keep_latest_n_blocks,
            last.number,
            last.block,
        );
        let pruned = before.tables.after_all(receipt_provider::removal(removed));
        the_lookups_by_either_hash_agree(keep_latest_n_blocks, arrivals.drop_last());
        removing_blocks_deletes_their_records_alone(before.tables, removed);
        inserting_receipts_adds_transactions_and_logs(
            pruned,
            last.receipts,
            last.block,
            last.number,
        );
        lemma_insertion(pruned, last.receipts, last.block, last.number);
        assert(mappings_are_one_to_one(pruned));
    }
    let tables = Index::empty().after_all(keep_latest_n_blocks, arrivals).tables;
    assert forall|ethereum_hash: Seq<u8>, substrate_hash: Seq<u8>, row: Option<Seq<u8>>| #[trigger]
        tables.substrate_row(ethereum_hash) == Some(substrate_hash) implies (
    #[trigger] tables.may_be_ethereum_row(substrate_hash, row) <==> row == Some(ethereum_hash)) by {
        assert(tables.mappings.contains_key(ethereum_hash));
        assert(tables.has_block(substrate_hash));
    }
}

pub(crate) proof fn lemma_nothing_is_filtered_out(
    rows: Seq<database::LogRowView>,
    keep: spec_fn(database::LogRowView) -> bool,
)
    requires
        forall|row: database::LogRowView| #[trigger] rows.contains(row) ==> keep(row),
    ensures
        rows.filter(keep) == rows,
    decreases rows.len(),
{
    reveal(Seq::filter);
    if rows.len() > 0 {
        let before = rows.drop_last();
        assert forall|row: database::LogRowView| #[trigger] before.contains(row) implies keep(
            row,
        ) by {
            let i = choose|i: int| 0 <= i < before.len() && before[i] == row;
            assert(rows[i] == row);
            assert(rows.contains(row));
        }
        lemma_nothing_is_filtered_out(before, keep);
        assert(rows.contains(rows.last()));
        assert(before.push(rows.last()) =~= rows);
    }
}

/// Removing a block that has no records changes nothing.
proof fn lemma_removing_what_is_not_there(tables: database::Tables, block: BlockHashMap)
    requires
        forall|hash: Seq<u8>| #[trigger]
            tables.transactions.contains_key(hash) ==> tables.transactions[hash].0
                != block.substrate_hash@,
        !tables.has_block(block.substrate_hash@),
        forall|row: database::LogRowView| #[trigger]
            tables.logs.contains(row) ==> row.block_hash != block.ethereum_hash@,
    ensures
        tables.after_all(receipt_provider::removal(seq![block])) == tables,
{
    let statements = receipt_provider::removal(seq![block]);
    let substrate = receipt_provider::substrate_hashes(seq![block]);
    let ethereum = receipt_provider::ethereum_hashes(seq![block]);
    let one = database::StatementView::DeleteTransactions(substrate);
    let two = database::StatementView::DeleteLogs(ethereum);
    let three = database::StatementView::DeleteMappings(substrate);
    let upto_two = statements.drop_last();
    let upto_one = upto_two.drop_last();
    assert(upto_one.drop_last() =~= seq![]);
    assert(upto_one.last() == one && upto_two.last() == two && statements.last() == three);
    assert(tables.after(one).transactions =~= tables.transactions);
    lemma_nothing_is_filtered_out(
        tables.logs,
        |row: database::LogRowView| !ethereum.contains(row.block_hash),
    );
    assert(tables.after(two).logs == tables.logs);
    assert(tables.after(three).mappings =~= tables.mappings);
    assert(tables.after_all(upto_one.drop_last()) == tables);
    assert(tables.after_all(upto_one) == tables);
    assert(tables.after_all(upto_two) == tables);
}

/// A block that was inserted is recorded, where its records belong into the database.
proof fn lemma_a_stored_block_is_mapped(
    tables: database::Tables,
    receipts: Seq<evm::ReceiptView>,
    block: BlockHashMap,
    number: u32,
)
    ensures
        tables.after_all(
            receipt_provider::insertion(
                receipts,
                block,
                number,
                tables.has_block(block.substrate_hash@),
            ),
        ).has_block(block.substrate_hash@),
{
    if !tables.has_block(block.substrate_hash@) {
        let after = tables.after_all(receipt_provider::insertion(receipts, block, number, false));
        lemma_insertion(tables, receipts, block, number);
        assert(after.mappings.contains_key(block.ethereum_hash@));
    }
}

/// Inserting the same block a second time changes nothing, whether it is kept or not.
pub proof fn inserting_a_block_again_changes_nothing(
    index: Index,
    keep_latest_n_blocks: Option<usize>,
    arrival: Arrival,
)
    requires
        index.blocks.dom().finite(),
    ensures
        index.after(keep_latest_n_blocks, arrival).after(keep_latest_n_blocks, arrival)
            == index.after(keep_latest_n_blocks, arrival),
{
    let (number, block, receipts) = (arrival.number, arrival.block, arrival.receipts);
    let limit = block_cache::cache_limit(keep_latest_n_blocks);
    let held = block_cache::with_block(index.blocks, number, block);
    let once = index.after(keep_latest_n_blocks, arrival);
    let twice = once.after(keep_latest_n_blocks, arrival);
    let removed = block_cache::blocks_to_remove(index.blocks, keep_latest_n_blocks, number, block);
    let pruned = index.tables.after_all(receipt_provider::removal(removed));
    block_cache::lemma_with_block_finite(index.blocks, number, block);
    block_cache::inserting_respects_the_limit(index.blocks, keep_latest_n_blocks, number, block);
    block_cache::leaving_out_the_oldest_keeps_the_latest(held, block_cache::excess(held, limit));
    lemma_a_stored_block_is_mapped(pruned, receipts, block, number);
    assert(held.contains_key(number) && held[number] == block);
    if once.blocks.contains_key(number) {
        assert(once.blocks.submap_of(held));
        assert(once.blocks.dom().contains(number));
        assert(once.blocks[number] == block);
        assert(once.blocks.insert(number, block) =~= once.blocks);
        block_cache::inserting_with_room_only_adds(
            once.blocks,
            keep_latest_n_blocks,
            number,
            block,
        );
        assert(twice.blocks == once.blocks);
        assert(twice.tables == once.tables);
    } else {
        let again = once.blocks.insert(number, block);
        assert(block_cache::with_block(once.blocks, number, block) == again);
        assert(again.len() == limit + 1);
        assert(block_cache::is_oldest(again, number)) by {
            assert forall|k: u32| again.contains_key(k) implies number <= k by {
                if k != number {
                    assert(once.blocks.contains_key(k));
                }
            }
        }
        block_cache::lemma_oldest(again, number);
        assert(block_cache::excess(again, limit) == 1);
        assert(block_cache::without_oldest(again, 0) == again);
        assert(block_cache::without_oldest(again, 1) =~= once.blocks);
        assert(block_cache::oldest_blocks(again, 0) =~= seq![]);
        assert(block_cache::oldest_blocks(again, 1) =~= seq![block]);
        assert(twice.blocks == once.blocks);
        match keep_latest_n_blocks {
            Some(keep) => {
                assert(block_cache::blocks_to_remove(
                    once.blocks,
                    keep_latest_n_blocks,
                    number,
                    block,
                ) =~= seq![block]);
                assert(once.tables == pruned);
                removed_blocks_are_those_no_longer_held(index.blocks, keep, number, block);
                removing_blocks_deletes_their_records_alone(index.tables, removed);
                let i = choose|i: int| 0 <= i < removed.len() && removed[i] == block;
                assert(receipt_provider::substrate_hashes(removed)[i] == block.substrate_hash@);
                assert(receipt_provider::ethereum_hashes(removed)[i] == block.ethereum_hash@);
                lemma_removing_what_is_not_there(pruned, block);
                assert(twice.tables == once.tables);
            },
            None => {
                assert(twice.tables == once.tables);
            },
        }
    }
}

} // verus!

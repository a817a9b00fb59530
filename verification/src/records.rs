//! What the database says of each block in every later state: the records of a block that is mapped
//! are there, as long as it stays mapped, and the queries find them.

use crate::block_cache::BlockHashMap;
use crate::database::Query;
use crate::primitives::H256;
use crate::{block_cache, consistency, database, evm, log_filter, receipt_provider};
use vstd::prelude::*;

verus! {

/// Whether a block is one of those that arrived.
pub open spec fn is_among(arrivals: Seq<consistency::Arrival>, block: BlockHashMap) -> bool {
    exists|i: int| 0 <= i < arrivals.len() && (#[trigger] arrivals[i]).block == block
}

/// Whether a block comes with the same receipts whenever it arrives.
pub open spec fn blocks_have_their_receipts(arrivals: Seq<consistency::Arrival>) -> bool {
    forall|i: int, j: int|
        0 <= i < arrivals.len() && 0 <= j < arrivals.len() && (#[trigger] arrivals[i]).block == (
        #[trigger] arrivals[j]).block ==> arrivals[i].receipts == arrivals[j].receipts
}

/// Whether no transaction of the one block is in the other.
pub open spec fn share_no_transaction(a: Seq<evm::ReceiptView>, b: Seq<evm::ReceiptView>) -> bool {
    forall|i: int, j: int|
        0 <= i < a.len() && 0 <= j < b.len() ==> (#[trigger] a[i]).transaction_hash != (
        #[trigger] b[j]).transaction_hash
}

/// Whether no block ever takes a transaction over from another one: at each arrival, the block
/// shares no transaction with another one that is mapped together with it. A fork may well hold the
/// transactions of the blocks that it displaces.
pub open spec fn transactions_stay_apart(
    keep_latest_n_blocks: Option<usize>,
    arrivals: Seq<consistency::Arrival>,
) -> bool
    decreases arrivals.len(),
{
    if arrivals.len() == 0 {
        true
    } else {
        let tables = consistency::Index::empty().after_all(keep_latest_n_blocks, arrivals).tables;
        let last = arrivals.last();
        &&& transactions_stay_apart(keep_latest_n_blocks, arrivals.drop_last())
        &&& is_mapped(tables, last.block) ==> forall|i: int|
            0 <= i < arrivals.len() && (#[trigger] arrivals[i]).block != last.block && is_mapped(
                tables,
                arrivals[i].block,
            ) ==> share_no_transaction(arrivals[i].receipts, last.receipts)
    }
}

/// Whether the database leads from the Ethereum hash of a block to its Substrate hash.
pub open spec fn is_mapped(tables: database::Tables, block: BlockHashMap) -> bool {
    tables.substrate_row(block.ethereum_hash@) == Some(block.substrate_hash@)
}

/// Whether the row for each log of a block is in the database.
pub open spec fn logs_are_recorded(
    tables: database::Tables,
    arrival: consistency::Arrival,
) -> bool {
    forall|i: int, j: int|
        0 <= i < arrival.receipts.len() && 0 <= j < arrival.receipts[i].logs.len()
            ==> tables.logs.contains(
            receipt_provider::log_row(
                #[trigger] arrival.receipts[i].logs[j],
                arrival.receipts[i],
                arrival.block,
                arrival.number,
            ),
        )
}

/// Whether a receipt is the last one of its transaction.
pub open spec fn is_last(receipts: Seq<evm::ReceiptView>, i: int) -> bool {
    forall|j: int|
        i < j < receipts.len() ==> (#[trigger] receipts[j]).transaction_hash
            != receipts[i].transaction_hash
}

/// Whether the database leads from the hash of each transaction of a block to its place.
pub open spec fn transactions_are_recorded(
    tables: database::Tables,
    arrival: consistency::Arrival,
) -> bool {
    forall|i: int|
        0 <= i < arrival.receipts.len() && is_last(arrival.receipts, i) ==> tables.transaction_row(
            (#[trigger] arrival.receipts[i]).transaction_hash,
        ) == Some(
            (
                arrival.block.substrate_hash@,
                receipt_provider::as_i32(arrival.receipts[i].transaction_index),
            ),
        )
}

/// Whether the database leads to the place of each transaction of every block that is mapped.
pub open spec fn transactions_are_recorded_of_all(
    tables: database::Tables,
    arrivals: Seq<consistency::Arrival>,
) -> bool {
    forall|i: int|
        0 <= i < arrivals.len() && is_mapped(tables, (#[trigger] arrivals[i]).block)
            ==> transactions_are_recorded(tables, arrivals[i])
}

/// Whether every mapping is of a block that arrived.
pub open spec fn mappings_are_of(
    tables: database::Tables,
    arrivals: Seq<consistency::Arrival>,
) -> bool {
    forall|hash: Seq<u8>| #[trigger]
        tables.mappings.contains_key(hash) ==> exists|i: int|
            0 <= i < arrivals.len() && (#[trigger] arrivals[i]).block.ethereum_hash@ == hash
                && arrivals[i].block.substrate_hash@ == tables.mappings[hash]
}

/// What holds of the index after these blocks arrived: every block that is held arrived and is
/// mapped, and every block that is mapped arrived and has a row for each of its logs.
pub open spec fn is_complete(
    index: consistency::Index,
    arrivals: Seq<consistency::Arrival>,
) -> bool {
    &&& index.blocks.dom().finite()
    &&& mappings_are_of(index.tables, arrivals)
    &&& forall|n: u32| #[trigger]
        index.blocks.contains_key(n) ==> consistency::arrived(arrivals, n, index.blocks[n])
            && is_mapped(index.tables, index.blocks[n])
    &&& forall|i: int|
        0 <= i < arrivals.len() && is_mapped(index.tables, (#[trigger] arrivals[i]).block)
            ==> logs_are_recorded(index.tables, arrivals[i])
}

/// What holds of all arrivals holds of all but the last.
proof fn lemma_earlier_arrivals(arrivals: Seq<consistency::Arrival>)
    requires
        arrivals.len() > 0,
    ensures
        consistency::hashes_name_blocks(arrivals) ==> consistency::hashes_name_blocks(
            arrivals.drop_last(),
        ),
        blocks_have_their_receipts(arrivals) ==> blocks_have_their_receipts(arrivals.drop_last()),
{
    let earlier = arrivals.drop_last();
    assert forall|i: int| 0 <= i < earlier.len() implies #[trigger] earlier[i] == arrivals[i] by {}
}

/// What is removed is no longer held, and what is held otherwise stays, whether the database is
/// persistent or not.
proof fn lemma_removed_blocks(
    blocks: block_cache::Blocks,
    keep_latest_n_blocks: Option<usize>,
    number: u32,
    block: BlockHashMap,
)
    requires
        blocks.dom().finite(),
    ensures
        ({
            let after = block_cache::blocks_after(blocks, keep_latest_n_blocks, number, block);
            let removed = block_cache::blocks_to_remove(
                blocks,
                keep_latest_n_blocks,
                number,
                block,
            );
            &&& after.dom().finite()
            &&& after.contains_key(number) ==> after[number] == block
            &&& forall|n: u32|
                n != number && #[trigger] after.contains_key(n) ==> blocks.contains_key(n)
                    && after[n] == blocks[n]
            &&& forall|gone: BlockHashMap| #[trigger]
                removed.contains(gone) ==> (gone == block && !after.contains_key(number)) || exists|
                    n: u32,
                |
                    consistency::leaves(blocks, after, number, block, n) && blocks[n] == gone
        }),
{
    block_cache::inserting_respects_the_limit(blocks, keep_latest_n_blocks, number, block);
    match keep_latest_n_blocks {
        Some(keep) => consistency::removed_blocks_are_those_no_longer_held(
            blocks,
            keep,
            number,
            block,
        ),
        None => {
            let held = block_cache::with_block(blocks, number, block);
            let limit = block_cache::cache_limit(None);
            let after = block_cache::blocks_after(blocks, None, number, block);
            let removed = block_cache::blocks_to_remove(blocks, None, number, block);
            block_cache::lemma_with_block_finite(blocks, number, block);
            block_cache::leaving_out_the_oldest_keeps_the_latest(
                held,
                block_cache::excess(held, limit),
            );
            block_cache::a_fork_loses_no_block(blocks, number, block);
            assert forall|n: u32| #[trigger] after.contains_key(n) implies held.contains_key(n)
                && after[n] == held[n] by {
                assert(after.submap_of(held));
                assert(after.dom().contains(n));
                assert(held.dom().contains(n));
            }
            assert forall|b: BlockHashMap| #[trigger] removed.contains(b) implies exists|n: u32|
                consistency::leaves(blocks, after, number, block, n) && blocks[n] == b by {
                let n = choose|n: u32|
                    blocks.contains_key(n) && blocks[n] == b && (n == number || !held.contains_key(
                        n,
                    ));
                if n == number {
                    assert(block_cache::is_fork(blocks, number, block));
                }
                assert(consistency::leaves(blocks, after, number, block, n));
            }
        },
    }
}

/// Two blocks that arrived and share a hash are the same block at the same number.
proof fn lemma_same_block(arrivals: Seq<consistency::Arrival>, i: int, j: int)
    requires
        consistency::hashes_name_blocks(arrivals),
        0 <= i < arrivals.len(),
        0 <= j < arrivals.len(),
        arrivals[i].block.substrate_hash@ == arrivals[j].block.substrate_hash@
            || arrivals[i].block.ethereum_hash@ == arrivals[j].block.ethereum_hash@,
    ensures
        arrivals[i].block == arrivals[j].block,
        arrivals[i].number == arrivals[j].number,
{
    let (a, b) = (arrivals[i].block, arrivals[j].block);
    consistency::lemma_same_hash(a.substrate_hash, b.substrate_hash);
    consistency::lemma_same_hash(a.ethereum_hash, b.ethereum_hash);
}

/// A block that is mapped before the last one arrives arrived before.
proof fn lemma_mapped_before(
    tables: database::Tables,
    arrivals: Seq<consistency::Arrival>,
    i: int,
) -> (k: int)
    requires
        arrivals.len() > 0,
        consistency::hashes_name_blocks(arrivals),
        blocks_have_their_receipts(arrivals),
        mappings_are_of(tables, arrivals.drop_last()),
        0 <= i < arrivals.len(),
        tables.mappings.contains_key(arrivals[i].block.ethereum_hash@),
    ensures
        0 <= k < arrivals.len() - 1,
        arrivals.drop_last()[k] == arrivals[i],
        is_mapped(tables, arrivals[i].block),
{
    let earlier = arrivals.drop_last();
    let hash = arrivals[i].block.ethereum_hash@;
    let k = choose|k: int|
        0 <= k < earlier.len() && (#[trigger] earlier[k]).block.ethereum_hash@ == hash
            && earlier[k].block.substrate_hash@ == tables.mappings[hash];
    assert(earlier[k] == arrivals[k]);
    lemma_same_block(arrivals, k, i);
    k
}

/// Removing blocks that arrived leaves the records of the blocks that stay mapped.
proof fn lemma_pruning_keeps_records(
    tables: database::Tables,
    removed: Seq<BlockHashMap>,
    arrivals: Seq<consistency::Arrival>,
    i: int,
)
    requires
        consistency::hashes_name_blocks(arrivals),
        forall|gone: BlockHashMap| #[trigger] removed.contains(gone) ==> is_among(arrivals, gone),
        0 <= i < arrivals.len(),
        is_mapped(tables.after_all(receipt_provider::removal(removed)), arrivals[i].block),
    ensures
        is_mapped(tables, arrivals[i].block),
        logs_are_recorded(tables, arrivals[i]) ==> logs_are_recorded(
            tables.after_all(receipt_provider::removal(removed)),
            arrivals[i],
        ),
        transactions_are_recorded(tables, arrivals[i]) ==> transactions_are_recorded(
            tables.after_all(receipt_provider::removal(removed)),
            arrivals[i],
        ),
{
    let pruned = tables.after_all(receipt_provider::removal(removed));
    let arrival = arrivals[i];
    let substrate = receipt_provider::substrate_hashes(removed);
    let ethereum = receipt_provider::ethereum_hashes(removed);
    consistency::removing_blocks_deletes_their_records_alone(tables, removed);
    assert(pruned.mappings.contains_key(arrival.block.ethereum_hash@));
    assert(!substrate.contains(arrival.block.substrate_hash@));
    assert(!ethereum.contains(arrival.block.ethereum_hash@)) by {
        if ethereum.contains(arrival.block.ethereum_hash@) {
            let m = choose|m: int|
                0 <= m < ethereum.len() && ethereum[m] == arrival.block.ethereum_hash@;
            assert(removed.contains(removed[m]));
            let k = choose|k: int|
                0 <= k < arrivals.len() && (#[trigger] arrivals[k]).block == removed[m];
            lemma_same_block(arrivals, k, i);
            assert(substrate[m] == arrival.block.substrate_hash@);
        }
    }
    if transactions_are_recorded(tables, arrival) {
        assert forall|r: int|
            0 <= r < arrival.receipts.len() && is_last(
                arrival.receipts,
                r,
            ) implies pruned.transaction_row((#[trigger] arrival.receipts[r]).transaction_hash)
            == Some(
            (
                arrival.block.substrate_hash@,
                receipt_provider::as_i32(arrival.receipts[r].transaction_index),
            ),
        ) by {
            let hash = arrival.receipts[r].transaction_hash;
            assert(tables.transaction_row(hash) is Some);
            assert(pruned.transactions.contains_key(hash));
        }
    }
}

/// Inserting a block that is not mapped yet records it and leaves the records of other blocks.
proof fn lemma_inserting_records(
    pruned: database::Tables,
    arrivals: Seq<consistency::Arrival>,
    last: int,
    i: int,
)
    requires
        consistency::hashes_name_blocks(arrivals),
        blocks_have_their_receipts(arrivals),
        0 <= last < arrivals.len(),
        0 <= i < arrivals.len(),
        arrivals[i].block != arrivals[last].block ==> is_mapped(pruned, arrivals[i].block)
            && logs_are_recorded(pruned, arrivals[i]),
    ensures
        ({
            let tables = pruned.after_all(
                receipt_provider::insertion(
                    arrivals[last].receipts,
                    arrivals[last].block,
                    arrivals[last].number,
                    false,
                ),
            );
            &&& is_mapped(tables, arrivals[i].block)
            &&& logs_are_recorded(tables, arrivals[i])
            &&& (arrivals[i].block != arrivals[last].block ==> transactions_are_recorded(
                pruned,
                arrivals[i],
            ) && share_no_transaction(arrivals[i].receipts, arrivals[last].receipts))
                ==> transactions_are_recorded(tables, arrivals[i])
        }),
{
    let new = arrivals[last];
    let arrival = arrivals[i];
    let tables = pruned.after_all(
        receipt_provider::insertion(new.receipts, new.block, new.number, false),
    );
    let rows = consistency::log_rows(new.receipts, new.block, new.number);
    consistency::inserting_receipts_adds_transactions_and_logs(
        pruned,
        new.receipts,
        new.block,
        new.number,
    );
    consistency::lemma_insertion(pruned, new.receipts, new.block, new.number);
    if arrival.block == new.block {
        lemma_same_block(arrivals, i, last);
        assert forall|a: int, b: int|
            0 <= a < arrival.receipts.len() && 0 <= b
                < arrival.receipts[a].logs.len() implies tables.logs.contains(
            receipt_provider::log_row(
                #[trigger] arrival.receipts[a].logs[b],
                arrival.receipts[a],
                arrival.block,
                arrival.number,
            ),
        ) by {
            let row = receipt_provider::log_row(
                arrival.receipts[a].logs[b],
                arrival.receipts[a],
                arrival.block,
                arrival.number,
            );
            consistency::lemma_log_rows_hold_each_log(new.receipts, new.block, new.number, a, b);
            let k = choose|k: int| 0 <= k < rows.len() && rows[k] == row;
            assert(tables.logs[pruned.logs.len() + k] == row);
        }
        assert forall|r: int|
            0 <= r < arrival.receipts.len() && is_last(
                arrival.receipts,
                r,
            ) implies tables.transaction_row((#[trigger] arrival.receipts[r]).transaction_hash)
            == Some(
            (
                arrival.block.substrate_hash@,
                receipt_provider::as_i32(arrival.receipts[r].transaction_index),
            ),
        ) by {
            assert forall|j: int|
                r < j < new.receipts.len() implies new.receipts[j].transaction_hash
                != new.receipts[r].transaction_hash by {
                assert(arrival.receipts[j].transaction_hash
                    != arrival.receipts[r].transaction_hash);
            }
            assert(new.receipts[r].transaction_hash == arrival.receipts[r].transaction_hash);
            assert(tables.transactions.contains_key(arrival.receipts[r].transaction_hash));
        }
    } else {
        if arrival.block.ethereum_hash@ == new.block.ethereum_hash@ {
            lemma_same_block(arrivals, i, last);
        }
        assert forall|a: int, b: int|
            0 <= a < arrival.receipts.len() && 0 <= b
                < arrival.receipts[a].logs.len() implies tables.logs.contains(
            receipt_provider::log_row(
                #[trigger] arrival.receipts[a].logs[b],
                arrival.receipts[a],
                arrival.block,
                arrival.number,
            ),
        ) by {
            let row = receipt_provider::log_row(
                arrival.receipts[a].logs[b],
                arrival.receipts[a],
                arrival.block,
                arrival.number,
            );
            assert(pruned.logs.contains(row));
            let k = choose|k: int| 0 <= k < pruned.logs.len() && pruned.logs[k] == row;
            assert(tables.logs[k] == row);
        }
        if transactions_are_recorded(pruned, arrival) && share_no_transaction(
            arrival.receipts,
            new.receipts,
        ) {
            assert forall|r: int|
                0 <= r < arrival.receipts.len() && is_last(
                    arrival.receipts,
                    r,
                ) implies tables.transaction_row((#[trigger] arrival.receipts[r]).transaction_hash)
                == Some(
                (
                    arrival.block.substrate_hash@,
                    receipt_provider::as_i32(arrival.receipts[r].transaction_index),
                ),
            ) by {
                let hash = arrival.receipts[r].transaction_hash;
                assert(pruned.transaction_row(hash) is Some);
                if exists|j: int|
                    0 <= j < new.receipts.len() && new.receipts[j].transaction_hash == hash {
                    let j = choose|j: int|
                        0 <= j < new.receipts.len() && new.receipts[j].transaction_hash == hash;
                    assert(arrival.receipts[r].transaction_hash
                        != new.receipts[j].transaction_hash);
                }
                assert(tables.transactions.contains_key(hash));
                assert(tables.transactions[hash] == pruned.transactions[hash]);
            }
        }
    }
}

/// The blocks that are removed for the last arrival arrived.
proof fn lemma_removed_blocks_arrived(
    before: consistency::Index,
    keep_latest_n_blocks: Option<usize>,
    arrivals: Seq<consistency::Arrival>,
)
    requires
        arrivals.len() > 0,
        is_complete(before, arrivals.drop_last()),
    ensures
        forall|gone: BlockHashMap| #[trigger]
            block_cache::blocks_to_remove(
                before.blocks,
                keep_latest_n_blocks,
                arrivals.last().number,
                arrivals.last().block,
            ).contains(gone) ==> is_among(arrivals, gone),
{
    let earlier = arrivals.drop_last();
    let end = arrivals.len() - 1;
    let (number, block) = (arrivals[end].number, arrivals[end].block);
    let after = block_cache::blocks_after(before.blocks, keep_latest_n_blocks, number, block);
    let removed = block_cache::blocks_to_remove(
        before.blocks,
        keep_latest_n_blocks,
        number,
        block,
    );
    lemma_removed_blocks(before.blocks, keep_latest_n_blocks, number, block);
    assert forall|gone: BlockHashMap| #[trigger] removed.contains(gone) implies is_among(
        arrivals,
        gone,
    ) by {
        if gone == block {
            assert(arrivals[end].block == gone);
        } else {
            let n = choose|n: u32|
                consistency::leaves(before.blocks, after, number, block, n)
                    && before.blocks[n] == gone;
            let k = choose|k: int|
                0 <= k < earlier.len() && (#[trigger] earlier[k]).number == n && earlier[k].block
                    == before.blocks[n];
            assert(arrivals[k] == earlier[k]);
        }
    }
}

/// The records of a block that is mapped after a further arrival are there: they were there before,
/// or came with it.
proof fn lemma_records_after_one_more_arrival(
    before: consistency::Index,
    keep_latest_n_blocks: Option<usize>,
    arrivals: Seq<consistency::Arrival>,
    i: int,
)
    requires
        arrivals.len() > 0,
        consistency::hashes_name_blocks(arrivals),
        blocks_have_their_receipts(arrivals),
        is_complete(before, arrivals.drop_last()),
        0 <= i < arrivals.len(),
        is_mapped(before.after(keep_latest_n_blocks, arrivals.last()).tables, arrivals[i].block),
    ensures
        ({
            let tables = before.after(keep_latest_n_blocks, arrivals.last()).tables;
            let last = arrivals.last();
            &&& logs_are_recorded(tables, arrivals[i])
            &&& transactions_are_recorded_of_all(before.tables, arrivals.drop_last()) && (
            is_mapped(tables, last.block) && arrivals[i].block != last.block
                ==> share_no_transaction(arrivals[i].receipts, last.receipts))
                ==> transactions_are_recorded(tables, arrivals[i])
        }),
{
    let earlier = arrivals.drop_last();
    let end = arrivals.len() - 1;
    let last = arrivals.last();
    let block = last.block;
    let tables = before.after(keep_latest_n_blocks, last).tables;
    let removed = block_cache::blocks_to_remove(
        before.blocks,
        keep_latest_n_blocks,
        last.number,
        block,
    );
    let pruned = before.tables.after_all(receipt_provider::removal(removed));
    let passed_over = tables == pruned;
    consistency::lemma_insertion(pruned, last.receipts, block, last.number);
    consistency::inserting_receipts_adds_transactions_and_logs(
        pruned,
        last.receipts,
        block,
        last.number,
    );
    lemma_removed_blocks_arrived(before, keep_latest_n_blocks, arrivals);
    if passed_over || arrivals[i].block != block {
        if !passed_over && arrivals[i].block.ethereum_hash@ == block.ethereum_hash@ {
            lemma_same_block(arrivals, i, end);
        }
        assert(is_mapped(pruned, arrivals[i].block));
        lemma_pruning_keeps_records(before.tables, removed, arrivals, i);
        let k = lemma_mapped_before(before.tables, arrivals, i);
        assert(is_mapped(before.tables, earlier[k].block));
        assert(logs_are_recorded(before.tables, earlier[k]));
    }
    if !passed_over {
        lemma_inserting_records(pruned, arrivals, end, i);
    }
}

/// A further arrival keeps the index complete.
proof fn lemma_one_more_arrival(
    before: consistency::Index,
    keep_latest_n_blocks: Option<usize>,
    arrivals: Seq<consistency::Arrival>,
)
    requires
        arrivals.len() > 0,
        consistency::hashes_name_blocks(arrivals),
        blocks_have_their_receipts(arrivals),
        is_complete(before, arrivals.drop_last()),
    ensures
        is_complete(before.after(keep_latest_n_blocks, arrivals.last()), arrivals),
{
    let earlier = arrivals.drop_last();
    let end = arrivals.len() - 1;
    let last = arrivals[end];
    let (number, block) = (last.number, last.block);
    let index = before.after(keep_latest_n_blocks, last);
    let removed = block_cache::blocks_to_remove(
        before.blocks,
        keep_latest_n_blocks,
        number,
        block,
    );
    let pruned = before.tables.after_all(receipt_provider::removal(removed));
    let substrate = receipt_provider::substrate_hashes(removed);
    let stored = block_cache::is_stored(index.blocks, keep_latest_n_blocks, number, block);
    let passed_over = pruned.has_block(block.substrate_hash@) || !stored;
    lemma_removed_blocks(before.blocks, keep_latest_n_blocks, number, block);
    consistency::removing_blocks_deletes_their_records_alone(before.tables, removed);
    consistency::inserting_receipts_adds_transactions_and_logs(
        pruned,
        last.receipts,
        block,
        number,
    );
    consistency::lemma_insertion(pruned, last.receipts, block, number);
    if passed_over {
        assert(index.tables == pruned);
    }
    lemma_removed_blocks_arrived(before, keep_latest_n_blocks, arrivals);
    // What is mapped arrived.
    assert(mappings_are_of(index.tables, arrivals)) by {
        assert forall|hash: Seq<u8>| #[trigger] index.tables.mappings.contains_key(
            hash,
        ) implies exists|i: int|
            0 <= i < arrivals.len() && (#[trigger] arrivals[i]).block.ethereum_hash@ == hash
                && arrivals[i].block.substrate_hash@ == index.tables.mappings[hash] by {
            if !passed_over && hash == block.ethereum_hash@ {
                assert(arrivals[end].block.ethereum_hash@ == hash);
            } else {
                assert(before.tables.mappings.contains_key(hash));
                let k = choose|k: int|
                    0 <= k < earlier.len() && (#[trigger] earlier[k]).block.ethereum_hash@ == hash
                        && earlier[k].block.substrate_hash@ == before.tables.mappings[hash];
                assert(arrivals[k] == earlier[k]);
            }
        }
    }
    // What is held arrived and is mapped.
    assert forall|n: u32| #[trigger] index.blocks.contains_key(n) implies consistency::arrived(
        arrivals,
        n,
        index.blocks[n],
    ) && is_mapped(index.tables, index.blocks[n]) by {
        if n == number {
            assert(arrivals[end].number == n && arrivals[end].block == index.blocks[n]);
            if passed_over {
                let e = choose|e: Seq<u8>| #[trigger]
                    pruned.mappings.contains_key(e) && pruned.mappings[e] == block.substrate_hash@;
                let k = choose|k: int|
                    0 <= k < earlier.len() && (#[trigger] earlier[k]).block.ethereum_hash@ == e
                        && earlier[k].block.substrate_hash@ == before.tables.mappings[e];
                assert(arrivals[k] == earlier[k]);
                lemma_same_block(arrivals, k, end);
            }
        } else {
            let held = before.blocks[n];
            let k = choose|k: int|
                0 <= k < earlier.len() && (#[trigger] earlier[k]).number == n && earlier[k].block
                    == held;
            assert(arrivals[k] == earlier[k]);
            assert(is_mapped(before.tables, held));
            assert(!substrate.contains(held.substrate_hash@)) by {
                if substrate.contains(held.substrate_hash@) {
                    let m = choose|m: int|
                        0 <= m < substrate.len() && substrate[m] == held.substrate_hash@;
                    let gone = removed[m];
                    assert(removed.contains(gone));
                    if gone == block && !index.blocks.contains_key(number) {
                        lemma_same_block(arrivals, k, end);
                    } else {
                        let o = choose|o: u32|
                            consistency::leaves(before.blocks, index.blocks, number, block, o)
                                && before.blocks[o] == gone;
                        let l = choose|l: int|
                            0 <= l < earlier.len() && (#[trigger] earlier[l]).number == o
                                && earlier[l].block == gone;
                        assert(arrivals[l] == earlier[l]);
                        lemma_same_block(arrivals, k, l);
                    }
                }
            }
            assert(pruned.mappings.contains_key(held.ethereum_hash@));
            if !passed_over && held.ethereum_hash@ == block.ethereum_hash@ {
                lemma_same_block(arrivals, k, end);
            }
        }
    }
    // What is mapped has its logs.
    assert forall|i: int|
        0 <= i < arrivals.len() && is_mapped(
            index.tables,
            (#[trigger] arrivals[i]).block,
        ) implies logs_are_recorded(index.tables, arrivals[i]) by {
        lemma_records_after_one_more_arrival(before, keep_latest_n_blocks, arrivals, i);
    }
}

/// What was inserted is there in every later state: whatever blocks arrive and in whatever order,
/// every block that is held is mapped, and every block that is mapped has a row for each of its logs.
/// This holds of a persistent database as well.
pub proof fn blocks_that_are_mapped_keep_their_logs(
    keep_latest_n_blocks: Option<usize>,
    arrivals: Seq<consistency::Arrival>,
)
    requires
        consistency::hashes_name_blocks(arrivals),
        blocks_have_their_receipts(arrivals),
    ensures
        is_complete(
            consistency::Index::empty().after_all(keep_latest_n_blocks, arrivals),
            arrivals,
        ),
    decreases arrivals.len(),
{
    if arrivals.len() > 0 {
        let earlier = arrivals.drop_last();
        lemma_earlier_arrivals(arrivals);
        blocks_that_are_mapped_keep_their_logs(keep_latest_n_blocks, earlier);
        lemma_one_more_arrival(
            consistency::Index::empty().after_all(keep_latest_n_blocks, earlier),
            keep_latest_n_blocks,
            arrivals,
        );
    }
}

/// Every block that is mapped has the place of each of its transactions, in every later state,
/// unless another block took one of them over.
pub proof fn blocks_that_are_mapped_keep_their_transactions(
    keep_latest_n_blocks: Option<usize>,
    arrivals: Seq<consistency::Arrival>,
)
    requires
        consistency::hashes_name_blocks(arrivals),
        blocks_have_their_receipts(arrivals),
        transactions_stay_apart(keep_latest_n_blocks, arrivals),
    ensures
        transactions_are_recorded_of_all(
            consistency::Index::empty().after_all(keep_latest_n_blocks, arrivals).tables,
            arrivals,
        ),
    decreases arrivals.len(),
{
    if arrivals.len() > 0 {
        let earlier = arrivals.drop_last();
        let before = consistency::Index::empty().after_all(keep_latest_n_blocks, earlier);
        let tables = before.after(keep_latest_n_blocks, arrivals.last()).tables;
        lemma_earlier_arrivals(arrivals);
        blocks_that_are_mapped_keep_their_transactions(keep_latest_n_blocks, earlier);
        blocks_that_are_mapped_keep_their_logs(keep_latest_n_blocks, earlier);
        assert forall|i: int|
            0 <= i < arrivals.len() && is_mapped(
                tables,
                (#[trigger] arrivals[i]).block,
            ) implies transactions_are_recorded(tables, arrivals[i]) by {
            lemma_records_after_one_more_arrival(before, keep_latest_n_blocks, arrivals, i);
        }
    }
}

/// Whether every recorded transaction is at a place that a receipt of a block that arrived gives.
pub open spec fn transactions_are_of(
    tables: database::Tables,
    arrivals: Seq<consistency::Arrival>,
) -> bool {
    forall|hash: Seq<u8>| #[trigger]
        tables.transactions.contains_key(hash) ==> exists|i: int, j: int|
            0 <= i < arrivals.len() && 0 <= j < arrivals[i].receipts.len() && (
            #[trigger] arrivals[i].receipts[j]).transaction_hash == hash
                && tables.transactions[hash] == (
                arrivals[i].block.substrate_hash@,
                receipt_provider::as_i32(arrivals[i].receipts[j].transaction_index),
            )
}

/// A transaction has a last receipt.
proof fn lemma_last_receipt(receipts: Seq<evm::ReceiptView>, i: int) -> (last: int)
    requires
        0 <= i < receipts.len(),
    ensures
        i <= last < receipts.len(),
        receipts[last].transaction_hash == receipts[i].transaction_hash,
        is_last(receipts, last),
    decreases receipts.len() - i,
{
    if is_last(receipts, i) {
        i
    } else {
        let j = choose|j: int|
            i < j < receipts.len() && (#[trigger] receipts[j]).transaction_hash
                == receipts[i].transaction_hash;
        lemma_last_receipt(receipts, j)
    }
}

/// Every recorded transaction is in a block that arrived, at the index that its receipt gives.
pub proof fn recorded_transactions_are_of_blocks_that_arrived(
    keep_latest_n_blocks: Option<usize>,
    arrivals: Seq<consistency::Arrival>,
)
    ensures
        transactions_are_of(
            consistency::Index::empty().after_all(keep_latest_n_blocks, arrivals).tables,
            arrivals,
        ),
    decreases arrivals.len(),
{
    if arrivals.len() > 0 {
        let earlier = arrivals.drop_last();
        let end = arrivals.len() - 1;
        let last = arrivals[end];
        let before = consistency::Index::empty().after_all(keep_latest_n_blocks, earlier);
        let after = consistency::Index::empty().after_all(keep_latest_n_blocks, arrivals).tables;
        let removed = block_cache::blocks_to_remove(
            before.blocks,
            keep_latest_n_blocks,
            last.number,
            last.block,
        );
        let pruned = before.tables.after_all(receipt_provider::removal(removed));
        recorded_transactions_are_of_blocks_that_arrived(keep_latest_n_blocks, earlier);
        consistency::removing_blocks_deletes_their_records_alone(before.tables, removed);
        consistency::inserting_receipts_adds_transactions_and_logs(
            pruned,
            last.receipts,
            last.block,
            last.number,
        );
        consistency::lemma_insertion(pruned, last.receipts, last.block, last.number);
        assert forall|hash: Seq<u8>| #[trigger] after.transactions.contains_key(
            hash,
        ) implies exists|i: int, j: int|
            0 <= i < arrivals.len() && 0 <= j < arrivals[i].receipts.len() && (
            #[trigger] arrivals[i].receipts[j]).transaction_hash == hash
                && after.transactions[hash] == (
                arrivals[i].block.substrate_hash@,
                receipt_provider::as_i32(arrivals[i].receipts[j].transaction_index),
            ) by {
            if after.transactions != pruned.transactions && (exists|j: int|
                0 <= j < last.receipts.len() && last.receipts[j].transaction_hash == hash) {
                let j = choose|j: int|
                    0 <= j < last.receipts.len() && last.receipts[j].transaction_hash == hash;
                let k = lemma_last_receipt(last.receipts, j);
                assert(arrivals[end].receipts[k].transaction_hash == hash);
                assert forall|m: int|
                    k < m < last.receipts.len() implies last.receipts[m].transaction_hash
                    != last.receipts[k].transaction_hash by {}
                assert(after.transactions[last.receipts[k].transaction_hash] == (
                    last.block.substrate_hash@,
                    receipt_provider::as_i32(last.receipts[k].transaction_index),
                ));
            } else {
                assert(after.transactions[hash] == pruned.transactions[hash]);
                assert(pruned.transactions.contains_key(hash));
                assert(before.tables.transactions.contains_key(hash));
                let (i, j) = choose|i: int, j: int|
                    0 <= i < earlier.len() && 0 <= j < earlier[i].receipts.len() && (
                    #[trigger] earlier[i].receipts[j]).transaction_hash == hash
                        && before.tables.transactions[hash] == (
                        earlier[i].block.substrate_hash@,
                        receipt_provider::as_i32(earlier[i].receipts[j].transaction_index),
                    );
                assert(arrivals[i].receipts[j].transaction_hash == hash);
            }
        }
    }
}

/// The rows for the logs of the Ethereum block with this hash, in the order in which they were
/// inserted.
pub open spec fn logs_of(tables: database::Tables, ethereum_hash: Seq<u8>) -> Seq<
    database::LogRowView,
> {
    tables.logs.filter(|row: database::LogRowView| row.block_hash == ethereum_hash)
}

/// Whether every log is of a block that is mapped.
pub open spec fn logs_are_of_mapped_blocks(tables: database::Tables) -> bool {
    forall|row: database::LogRowView| #[trigger]
        tables.logs.contains(row) ==> tables.mappings.contains_key(row.block_hash)
}

/// Whether the logs of every block that is mapped are those of its receipts.
pub open spec fn logs_are_exact(
    tables: database::Tables,
    arrivals: Seq<consistency::Arrival>,
) -> bool {
    forall|i: int|
        0 <= i < arrivals.len() && is_mapped(tables, (#[trigger] arrivals[i]).block) ==> logs_of(
            tables,
            arrivals[i].block.ethereum_hash@,
        ) == consistency::log_rows(arrivals[i].receipts, arrivals[i].block, arrivals[i].number)
}

/// Where what a second filter keeps is kept by the first, the first makes no difference.
proof fn lemma_filtered_twice(
    rows: Seq<database::LogRowView>,
    first: spec_fn(database::LogRowView) -> bool,
    second: spec_fn(database::LogRowView) -> bool,
)
    requires
        forall|row: database::LogRowView| #[trigger] second(row) ==> first(row),
    ensures
        rows.filter(first).filter(second) == rows.filter(second),
    decreases rows.len(),
{
    reveal(Seq::filter);
    if rows.len() > 0 {
        let before = rows.drop_last();
        lemma_filtered_twice(before, first, second);
        if first(rows.last()) {
            assert(rows.filter(first).drop_last() =~= before.filter(first));
        } else {
            assert(!second(rows.last()));
        }
    }
}

/// Removing blocks leaves the logs of every other block.
proof fn lemma_logs_after_removal(
    tables: database::Tables,
    blocks: Seq<BlockHashMap>,
    hash: Seq<u8>,
)
    requires
        !receipt_provider::ethereum_hashes(blocks).contains(hash),
    ensures
        logs_of(tables.after_all(receipt_provider::removal(blocks)), hash) == logs_of(tables, hash),
{
    let statements = receipt_provider::removal(blocks);
    let ethereum = receipt_provider::ethereum_hashes(blocks);
    if blocks.len() == 0 {
        assert(tables.after_all(statements) == tables);
    } else {
        let upto_two = statements.drop_last();
        let upto_one = upto_two.drop_last();
        let kept = |row: database::LogRowView| !ethereum.contains(row.block_hash);
        assert(upto_one.drop_last() =~= seq![]);
        assert(tables.after_all(upto_one.drop_last()) == tables);
        assert(tables.after_all(upto_one).logs == tables.logs);
        assert(upto_two.last() == database::StatementView::DeleteLogs(ethereum));
        assert(tables.after_all(upto_two).logs == tables.logs.filter(kept));
        assert(tables.after_all(statements).logs == tables.logs.filter(kept));
        lemma_filtered_twice(
            tables.logs,
            kept,
            |row: database::LogRowView| row.block_hash == hash,
        );
    }
}

/// Where no row is of a block, the block has no logs.
proof fn lemma_no_logs(tables: database::Tables, hash: Seq<u8>)
    requires
        forall|row: database::LogRowView| #[trigger]
            tables.logs.contains(row) ==> row.block_hash != hash,
    ensures
        logs_of(tables, hash) == Seq::<database::LogRowView>::empty(),
{
    let of_block = |row: database::LogRowView| row.block_hash == hash;
    let found = logs_of(tables, hash);
    database::lemma_filtered_rows(tables.logs, of_block);
    if found.len() > 0 {
        assert(found.contains(found[0]));
    }
    assert(found =~= Seq::<database::LogRowView>::empty());
}

/// Inserting a block that has no logs yet gives it those of its receipts, and no other block gets or
/// loses any.
proof fn lemma_logs_after_insertion(
    tables: database::Tables,
    arrival: consistency::Arrival,
    hash: Seq<u8>,
)
    ensures
        ({
            let after = tables.after_all(
                receipt_provider::insertion(
                    arrival.receipts,
                    arrival.block,
                    arrival.number,
                    false,
                ),
            );
            let rows = consistency::log_rows(arrival.receipts, arrival.block, arrival.number);
            &&& hash != arrival.block.ethereum_hash@ ==> logs_of(after, hash) == logs_of(
                tables,
                hash,
            )
            &&& hash == arrival.block.ethereum_hash@ ==> logs_of(after, hash) == logs_of(
                tables,
                hash,
            ) + rows
        }),
{
    let after = tables.after_all(
        receipt_provider::insertion(arrival.receipts, arrival.block, arrival.number, false),
    );
    let rows = consistency::log_rows(arrival.receipts, arrival.block, arrival.number);
    let of_block = |row: database::LogRowView| row.block_hash == hash;
    consistency::inserting_receipts_adds_transactions_and_logs(
        tables,
        arrival.receipts,
        arrival.block,
        arrival.number,
    );
    consistency::lemma_insertion(tables, arrival.receipts, arrival.block, arrival.number);
    consistency::lemma_log_rows_are_of_the_block(
        arrival.receipts,
        arrival.block,
        arrival.number,
    );
    assert(after.logs == tables.logs + rows);
    Seq::filter_distributes_over_add(tables.logs, rows, of_block);
    assert forall|row: database::LogRowView| #[trigger] rows.contains(row) implies row.block_hash
        == arrival.block.ethereum_hash@ by {
        let i = choose|i: int| 0 <= i < rows.len() && rows[i] == row;
        assert(rows[i].block_hash == arrival.block.ethereum_hash@);
    }
    if hash == arrival.block.ethereum_hash@ {
        consistency::lemma_nothing_is_filtered_out(rows, of_block);
    } else {
        database::lemma_filtered_rows(rows, of_block);
        if rows.filter(of_block).len() > 0 {
            assert(rows.filter(of_block).contains(rows.filter(of_block)[0]));
        }
        assert(logs_of(after, hash) =~= logs_of(tables, hash));
    }
}

/// The logs of every block that is mapped are those of its receipts, each once and in order, and
/// there are no other logs, whatever blocks arrive and in whatever order.
pub proof fn the_logs_of_a_mapped_block_are_those_of_its_receipts(
    keep_latest_n_blocks: Option<usize>,
    arrivals: Seq<consistency::Arrival>,
)
    requires
        consistency::hashes_name_blocks(arrivals),
        blocks_have_their_receipts(arrivals),
    ensures
        ({
            let tables = consistency::Index::empty().after_all(
                keep_latest_n_blocks,
                arrivals,
            ).tables;
            &&& logs_are_of_mapped_blocks(tables)
            &&& logs_are_exact(tables, arrivals)
        }),
    decreases arrivals.len(),
{
    if arrivals.len() > 0 {
        let earlier = arrivals.drop_last();
        let before = consistency::Index::empty().after_all(keep_latest_n_blocks, earlier);
        lemma_earlier_arrivals(arrivals);
        the_logs_of_a_mapped_block_are_those_of_its_receipts(keep_latest_n_blocks, earlier);
        blocks_that_are_mapped_keep_their_logs(keep_latest_n_blocks, earlier);
        lemma_logs_after_one_more_arrival(before, keep_latest_n_blocks, arrivals);
    }
}

/// A further arrival keeps the logs exact.
proof fn lemma_logs_after_one_more_arrival(
    before: consistency::Index,
    keep_latest_n_blocks: Option<usize>,
    arrivals: Seq<consistency::Arrival>,
)
    requires
        arrivals.len() > 0,
        consistency::hashes_name_blocks(arrivals),
        blocks_have_their_receipts(arrivals),
        is_complete(before, arrivals.drop_last()),
        logs_are_of_mapped_blocks(before.tables),
        logs_are_exact(before.tables, arrivals.drop_last()),
    ensures
        ({
            let tables = before.after(keep_latest_n_blocks, arrivals.last()).tables;
            &&& logs_are_of_mapped_blocks(tables)
            &&& logs_are_exact(tables, arrivals)
        }),
{
    let earlier = arrivals.drop_last();
    let end = arrivals.len() - 1;
    let last = arrivals.last();
    let tables = before.after(keep_latest_n_blocks, last).tables;
    let removed = block_cache::blocks_to_remove(
        before.blocks,
        keep_latest_n_blocks,
        last.number,
        last.block,
    );
    let pruned = before.tables.after_all(receipt_provider::removal(removed));
    let substrate = receipt_provider::substrate_hashes(removed);
    let ethereum = receipt_provider::ethereum_hashes(removed);
    let rows = consistency::log_rows(last.receipts, last.block, last.number);
    consistency::removing_blocks_deletes_their_records_alone(before.tables, removed);
    lemma_removed_blocks_arrived(before, keep_latest_n_blocks, arrivals);
    // A block stays mapped exactly where its Ethereum hash is not that of a block that is removed.
    assert forall|hash: Seq<u8>| #[trigger] before.tables.mappings.contains_key(hash) implies (
    substrate.contains(before.tables.mappings[hash]) <==> ethereum.contains(hash)) by {
        let k = choose|k: int|
            0 <= k < earlier.len() && (#[trigger] earlier[k]).block.ethereum_hash@ == hash
                && earlier[k].block.substrate_hash@ == before.tables.mappings[hash];
        assert(arrivals[k] == earlier[k]);
        if substrate.contains(before.tables.mappings[hash]) {
            let m = choose|m: int|
                0 <= m < substrate.len() && substrate[m] == before.tables.mappings[hash];
            assert(removed.contains(removed[m]));
            assert(is_among(arrivals, removed[m]));
            let l = choose|l: int|
                0 <= l < arrivals.len() && (#[trigger] arrivals[l]).block == removed[m];
            lemma_same_block(arrivals, k, l);
            assert(ethereum[m] == hash);
        }
        if ethereum.contains(hash) {
            let m = choose|m: int| 0 <= m < ethereum.len() && ethereum[m] == hash;
            assert(removed.contains(removed[m]));
            assert(is_among(arrivals, removed[m]));
            let l = choose|l: int|
                0 <= l < arrivals.len() && (#[trigger] arrivals[l]).block == removed[m];
            lemma_same_block(arrivals, k, l);
            assert(substrate[m] == before.tables.mappings[hash]);
        }
    }
    assert(logs_are_of_mapped_blocks(pruned)) by {
        assert forall|row: database::LogRowView| #[trigger] pruned.logs.contains(
            row,
        ) implies pruned.mappings.contains_key(row.block_hash) by {
            assert(before.tables.logs.contains(row));
            assert(before.tables.mappings.contains_key(row.block_hash));
        }
    }
    assert(mappings_are_of(pruned, earlier)) by {
        assert forall|hash: Seq<u8>| #[trigger] pruned.mappings.contains_key(
            hash,
        ) implies exists|i: int|
            0 <= i < earlier.len() && (#[trigger] earlier[i]).block.ethereum_hash@ == hash
                && earlier[i].block.substrate_hash@ == pruned.mappings[hash] by {
            assert(before.tables.mappings.contains_key(hash));
        }
    }
    assert(logs_are_exact(pruned, arrivals)) by {
        assert forall|i: int|
            0 <= i < arrivals.len() && is_mapped(
                pruned,
                (#[trigger] arrivals[i]).block,
            ) implies logs_of(pruned, arrivals[i].block.ethereum_hash@) == consistency::log_rows(
            arrivals[i].receipts,
            arrivals[i].block,
            arrivals[i].number,
        ) by {
            let hash = arrivals[i].block.ethereum_hash@;
            assert(pruned.mappings.contains_key(hash));
            assert(before.tables.mappings.contains_key(hash));
            let k = lemma_mapped_before(before.tables, arrivals, i);
            lemma_logs_after_removal(before.tables, removed, hash);
            assert(is_mapped(before.tables, earlier[k].block));
        }
    }
    let passed_over = tables == pruned;
    if !passed_over {
        assert(!pruned.has_block(last.block.substrate_hash@));
        assert(tables == pruned.after_all(
            receipt_provider::insertion(last.receipts, last.block, last.number, false),
        ));
        consistency::inserting_receipts_adds_transactions_and_logs(
            pruned,
            last.receipts,
            last.block,
            last.number,
        );
        consistency::lemma_insertion(pruned, last.receipts, last.block, last.number);
        consistency::lemma_log_rows_are_of_the_block(last.receipts, last.block, last.number);
        assert(!pruned.mappings.contains_key(last.block.ethereum_hash@)) by {
            if pruned.mappings.contains_key(last.block.ethereum_hash@) {
                let k = lemma_mapped_before(pruned, arrivals, end);
            }
        }
        assert forall|row: database::LogRowView| #[trigger] tables.logs.contains(
            row,
        ) implies tables.mappings.contains_key(row.block_hash) by {
            let m = choose|m: int| 0 <= m < tables.logs.len() && tables.logs[m] == row;
            if m < pruned.logs.len() {
                assert(pruned.logs[m] == row);
                assert(pruned.logs.contains(row));
            } else {
                assert(rows[m - pruned.logs.len()] == row);
            }
        }
        assert forall|i: int|
            0 <= i < arrivals.len() && is_mapped(
                tables,
                (#[trigger] arrivals[i]).block,
            ) implies logs_of(tables, arrivals[i].block.ethereum_hash@) == consistency::log_rows(
            arrivals[i].receipts,
            arrivals[i].block,
            arrivals[i].number,
        ) by {
            let hash = arrivals[i].block.ethereum_hash@;
            lemma_logs_after_insertion(pruned, last, hash);
            if hash == last.block.ethereum_hash@ {
                lemma_same_block(arrivals, i, end);
                assert(arrivals[i].receipts == last.receipts);
                lemma_no_logs(pruned, hash);
                assert(logs_of(tables, hash) =~= rows);
            } else {
                assert(is_mapped(pruned, arrivals[i].block));
            }
        }
    }
}

/// Whether no two receipts are of the same transaction.
pub open spec fn transactions_are_distinct(receipts: Seq<evm::ReceiptView>) -> bool {
    forall|i: int, j: int|
        0 <= i < j < receipts.len() ==> (#[trigger] receipts[i]).transaction_hash != (
        #[trigger] receipts[j]).transaction_hash
}

/// Whether no two receipts have the same index, and none has one beyond the range of the column.
pub open spec fn indices_are_distinct(receipts: Seq<evm::ReceiptView>) -> bool {
    &&& forall|i: int, j: int|
        0 <= i < j < receipts.len() ==> (#[trigger] receipts[i]).transaction_index != (
        #[trigger] receipts[j]).transaction_index
    &&& forall|i: int|
        0 <= i < receipts.len() ==> (#[trigger] receipts[i]).transaction_index <= i32::MAX
}

/// Whether a receipt is of the transaction with this hash, at this index of the column.
pub open spec fn is_transaction_of(
    receipts: Seq<evm::ReceiptView>,
    hash: Seq<u8>,
    index: int,
) -> bool {
    exists|j: int|
        0 <= j < receipts.len() && (#[trigger] receipts[j]).transaction_hash == hash
            && receipt_provider::as_i32(receipts[j].transaction_index) == index
}

/// The queries for a block that is mapped find it by either hash, and nothing else, whatever blocks
/// arrived and in whatever order.
pub proof fn a_mapped_block_is_found_by_either_hash(
    keep_latest_n_blocks: Option<usize>,
    arrivals: Seq<consistency::Arrival>,
    block: BlockHashMap,
    answer: database::Answer,
)
    requires
        is_mapped(
            consistency::Index::empty().after_all(keep_latest_n_blocks, arrivals).tables,
            block,
        ),
    ensures
        ({
            let tables = consistency::Index::empty().after_all(
                keep_latest_n_blocks,
                arrivals,
            ).tables;
            &&& Query::SubstrateHash(block.ethereum_hash).may_answer(tables, answer) <==> answer
                == database::Answer::BlockHash(Some(block.substrate_hash@))
            &&& Query::EthereumHash(block.substrate_hash).may_answer(tables, answer) <==> answer
                == database::Answer::BlockHash(Some(block.ethereum_hash@))
            &&& Query::BlockExists(block.substrate_hash).may_answer(tables, answer) <==> answer
                == database::Answer::Exists(true)
        }),
{
    let tables = consistency::Index::empty().after_all(keep_latest_n_blocks, arrivals).tables;
    consistency::the_lookups_by_either_hash_agree(keep_latest_n_blocks, arrivals);
    assert(tables.substrate_row(block.ethereum_hash@) == Some(block.substrate_hash@));
    assert(tables.mappings.contains_key(block.ethereum_hash@));
    assert(tables.has_block(block.substrate_hash@));
    if let database::Answer::BlockHash(row) = answer {
        assert(tables.may_be_ethereum_row(block.substrate_hash@, row) <==> row == Some(
            block.ethereum_hash@,
        ));
    }
}

/// The query for a transaction of a block that is mapped finds its place, whatever blocks arrived
/// and in whatever order. (Where a block holds a transaction twice, the last of the two counts.)
pub proof fn a_transaction_of_a_mapped_block_is_found(
    keep_latest_n_blocks: Option<usize>,
    arrivals: Seq<consistency::Arrival>,
    i: int,
    j: int,
    hash: H256,
    answer: database::Answer,
)
    requires
        consistency::hashes_name_blocks(arrivals),
        blocks_have_their_receipts(arrivals),
        transactions_stay_apart(keep_latest_n_blocks, arrivals),
        0 <= i < arrivals.len(),
        is_mapped(
            consistency::Index::empty().after_all(keep_latest_n_blocks, arrivals).tables,
            arrivals[i].block,
        ),
        0 <= j < arrivals[i].receipts.len(),
        is_last(arrivals[i].receipts, j),
        hash@ == arrivals[i].receipts[j].transaction_hash,
        arrivals[i].receipts[j].transaction_index <= i32::MAX,
    ensures
        ({
            let tables = consistency::Index::empty().after_all(
                keep_latest_n_blocks,
                arrivals,
            ).tables;
            let (block_hash, index) = (
                arrivals[i].block.substrate_hash@,
                arrivals[i].receipts[j].transaction_index,
            );
            &&& Query::FindTransaction(hash).may_answer(tables, answer) <==> answer
                == database::Answer::Transaction(Some((block_hash, index as int)))
            &&& receipt_provider::place_of(Some((block_hash, index as int))) == Some(
                (block_hash, index),
            )
        }),
{
    let tables = consistency::Index::empty().after_all(keep_latest_n_blocks, arrivals).tables;
    blocks_that_are_mapped_keep_their_transactions(keep_latest_n_blocks, arrivals);
    assert(transactions_are_recorded(tables, arrivals[i]));
    assert(tables.transaction_row(arrivals[i].receipts[j].transaction_hash) is Some);
}

/// The rows for the transactions of a block that is mapped are those of its receipts: for each
/// receipt its index and its hash. So there are as many as receipts.
pub proof fn the_transactions_of_a_mapped_block_are_those_of_its_receipts(
    keep_latest_n_blocks: Option<usize>,
    arrivals: Seq<consistency::Arrival>,
    i: int,
)
    requires
        consistency::hashes_name_blocks(arrivals),
        blocks_have_their_receipts(arrivals),
        transactions_stay_apart(keep_latest_n_blocks, arrivals),
        0 <= i < arrivals.len(),
        is_mapped(
            consistency::Index::empty().after_all(keep_latest_n_blocks, arrivals).tables,
            arrivals[i].block,
        ),
        transactions_are_distinct(arrivals[i].receipts),
    ensures
        ({
            let tables = consistency::Index::empty().after_all(
                keep_latest_n_blocks,
                arrivals,
            ).tables;
            let receipts = arrivals[i].receipts;
            let block_hash = arrivals[i].block.substrate_hash;
            &&& tables.transactions_of(block_hash@).finite()
            &&& forall|answer: database::Answer| #[trigger]
                Query::ReceiptsCount(block_hash).may_answer(tables, answer) <==> answer
                    == database::Answer::Count(receipts.len())
            &&& forall|hash: Seq<u8>, index: int| #[trigger]
                is_transaction_of(receipts, hash, index) <==> tables.transaction_row(hash) == Some(
                    (block_hash@, index),
                )
        }),
{
    let tables = consistency::Index::empty().after_all(keep_latest_n_blocks, arrivals).tables;
    let receipts = arrivals[i].receipts;
    let block_hash = arrivals[i].block.substrate_hash@;
    let hashes = Seq::new(receipts.len(), |j: int| receipts[j].transaction_hash);
    blocks_that_are_mapped_keep_their_transactions(keep_latest_n_blocks, arrivals);
    recorded_transactions_are_of_blocks_that_arrived(keep_latest_n_blocks, arrivals);
    assert(transactions_are_recorded(tables, arrivals[i]));
    assert forall|hash: Seq<u8>, index: int|
        tables.transaction_row(hash) == Some(
            (block_hash, index),
        ) implies #[trigger] is_transaction_of(receipts, hash, index) by {
        assert(tables.transactions.contains_key(hash));
        let (k, j) = choose|k: int, j: int|
            0 <= k < arrivals.len() && 0 <= j < arrivals[k].receipts.len() && (
            #[trigger] arrivals[k].receipts[j]).transaction_hash == hash
                && tables.transactions[hash] == (
                arrivals[k].block.substrate_hash@,
                receipt_provider::as_i32(arrivals[k].receipts[j].transaction_index),
            );
        lemma_same_block(arrivals, k, i);
        assert(arrivals[k].receipts == receipts);
        assert(receipts[j].transaction_hash == hash);
    }
    assert forall|j: int| 0 <= j < receipts.len() implies tables.transaction_row(
        (#[trigger] receipts[j]).transaction_hash,
    ) == Some((block_hash, receipt_provider::as_i32(receipts[j].transaction_index))) by {
        assert(is_last(receipts, j));
    }
    assert(tables.transactions_of(block_hash) =~= hashes.to_set()) by {
        assert forall|hash: Seq<u8>| #[trigger]
            tables.transactions_of(block_hash).contains(hash) <==> hashes.contains(hash) by {
            if tables.transactions_of(block_hash).contains(hash) {
                assert(is_transaction_of(receipts, hash, tables.transactions[hash].1));
                let j = choose|j: int|
                    0 <= j < receipts.len() && (#[trigger] receipts[j]).transaction_hash == hash;
                assert(hashes[j] == hash);
            }
            if hashes.contains(hash) {
                let j = choose|j: int| 0 <= j < hashes.len() && hashes[j] == hash;
                assert(tables.transaction_row(receipts[j].transaction_hash) is Some);
            }
        }
    }
    hashes.unique_seq_to_set();
    vstd::seq_lib::seq_to_set_is_finite(hashes);
}

/// Where no two rows have the same index and every index is one of a machine, each row is found by
/// its index, and nothing else is.
proof fn lemma_hashes_by_index(rows: Seq<(int, Seq<u8>)>)
    requires
        forall|i: int| 0 <= i < rows.len() ==> 0 <= (#[trigger] rows[i]).0 <= i32::MAX,
        forall|i: int, j: int|
            0 <= i < j < rows.len() ==> (#[trigger] rows[i]).0 != (#[trigger] rows[j]).0,
    ensures
        forall|i: int|
            0 <= i < rows.len() ==> receipt_provider::hashes_by_index(rows).contains_key(
                (#[trigger] rows[i]).0 as usize,
            ) && receipt_provider::hashes_by_index(rows)[rows[i].0 as usize] == rows[i].1,
        forall|index: usize| #[trigger]
            receipt_provider::hashes_by_index(rows).contains_key(index) ==> exists|i: int|
                0 <= i < rows.len() && (#[trigger] rows[i]).0 == index,
    decreases rows.len(),
{
    if rows.len() > 0 {
        let before = rows.drop_last();
        let end = rows.len() - 1;
        lemma_hashes_by_index(before);
        assert forall|i: int| 0 <= i < rows.len() implies receipt_provider::hashes_by_index(
            rows,
        ).contains_key((#[trigger] rows[i]).0 as usize) && receipt_provider::hashes_by_index(
            rows,
        )[rows[i].0 as usize] == rows[i].1 by {
            if i < end {
                assert(before[i] == rows[i]);
                assert(rows[i].0 != rows[end].0);
            }
        }
        assert forall|index: usize| #[trigger]
            receipt_provider::hashes_by_index(rows).contains_key(index) implies exists|i: int|
            0 <= i < rows.len() && (#[trigger] rows[i]).0 == index by {
            if index == rows[end].0 as usize {
                assert(rows[end].0 == index);
            } else {
                assert(receipt_provider::hashes_by_index(before).contains_key(index));
                let i = choose|i: int| 0 <= i < before.len() && (#[trigger] before[i]).0 == index;
                assert(rows[i].0 == index);
            }
        }
    }
}

/// Whatever rows the query for the transactions of a block that is mapped returns, and in whatever
/// order, each transaction of the block is found in them by its index, and nothing else is.
pub proof fn the_transactions_of_a_mapped_block_are_found_by_index(
    keep_latest_n_blocks: Option<usize>,
    arrivals: Seq<consistency::Arrival>,
    i: int,
    rows: Seq<(int, Seq<u8>)>,
)
    requires
        consistency::hashes_name_blocks(arrivals),
        blocks_have_their_receipts(arrivals),
        transactions_stay_apart(keep_latest_n_blocks, arrivals),
        0 <= i < arrivals.len(),
        is_mapped(
            consistency::Index::empty().after_all(keep_latest_n_blocks, arrivals).tables,
            arrivals[i].block,
        ),
        transactions_are_distinct(arrivals[i].receipts),
        indices_are_distinct(arrivals[i].receipts),
        Query::BlockTransactions(arrivals[i].block.substrate_hash).may_answer(
            consistency::Index::empty().after_all(keep_latest_n_blocks, arrivals).tables,
            database::Answer::Transactions(rows),
        ),
    ensures
        ({
            let receipts = arrivals[i].receipts;
            let hashes = receipt_provider::hashes_by_index(rows);
            &&& forall|j: int|
                0 <= j < receipts.len() ==> hashes.contains_key(
                    (#[trigger] receipts[j]).transaction_index as usize,
                ) && hashes[receipts[j].transaction_index as usize] == receipts[j].transaction_hash
            &&& forall|index: usize| #[trigger]
                hashes.contains_key(index) ==> exists|j: int|
                    0 <= j < receipts.len() && (#[trigger] receipts[j]).transaction_index == index
        }),
{
    let tables = consistency::Index::empty().after_all(keep_latest_n_blocks, arrivals).tables;
    let receipts = arrivals[i].receipts;
    let block_hash = arrivals[i].block.substrate_hash@;
    let hashes = receipt_provider::hashes_by_index(rows);
    the_transactions_of_a_mapped_block_are_those_of_its_receipts(
        keep_latest_n_blocks,
        arrivals,
        i,
    );
    assert forall|m: int| 0 <= m < rows.len() implies exists|j: int|
        0 <= j < receipts.len() && (#[trigger] receipts[j]).transaction_hash == rows[m].1
            && receipts[j].transaction_index == (#[trigger] rows[m]).0 by {
        assert(rows.contains(rows[m]));
        assert(is_transaction_of(receipts, rows[m].1, rows[m].0));
    }
    assert forall|m: int, n: int| 0 <= m < n < rows.len() implies (#[trigger] rows[m]).0 != (
    #[trigger] rows[n]).0 by {
        let a = choose|a: int|
            0 <= a < receipts.len() && (#[trigger] receipts[a]).transaction_hash == rows[m].1
                && receipts[a].transaction_index == rows[m].0;
        let b = choose|b: int|
            0 <= b < receipts.len() && (#[trigger] receipts[b]).transaction_hash == rows[n].1
                && receipts[b].transaction_index == rows[n].0;
        assert(rows[m] != rows[n]);
    }
    lemma_hashes_by_index(rows);
    assert forall|j: int| 0 <= j < receipts.len() implies hashes.contains_key(
        (#[trigger] receipts[j]).transaction_index as usize,
    ) && hashes[receipts[j].transaction_index as usize] == receipts[j].transaction_hash by {
        let row = (receipts[j].transaction_index as int, receipts[j].transaction_hash);
        assert(is_transaction_of(receipts, row.1, row.0));
        assert(rows.contains(row));
        let m = choose|m: int| 0 <= m < rows.len() && rows[m] == row;
        assert(rows[m].0 == receipts[j].transaction_index);
    }
}

/// What two filters keep is the same where they agree.
pub(crate) proof fn lemma_filters_agree(
    rows: Seq<database::LogRowView>,
    a: spec_fn(database::LogRowView) -> bool,
    b: spec_fn(database::LogRowView) -> bool,
)
    requires
        forall|row: database::LogRowView| #[trigger] a(row) <==> b(row),
    ensures
        rows.filter(a) == rows.filter(b),
    decreases rows.len(),
{
    reveal(Seq::filter);
    if rows.len() > 0 {
        lemma_filters_agree(rows.drop_last(), a, b);
    }
}

/// The query for the logs of a block that is mapped, by the hash of its Ethereum block, returns
/// exactly the logs of its receipts, as long as they are no more than the limit.
pub proof fn the_logs_of_a_mapped_block_are_returned(
    keep_latest_n_blocks: Option<usize>,
    arrivals: Seq<consistency::Arrival>,
    i: int,
    latest: u32,
    query: log_filter::LogQuery,
    rows: Seq<database::LogRowView>,
)
    requires
        consistency::hashes_name_blocks(arrivals),
        blocks_have_their_receipts(arrivals),
        0 <= i < arrivals.len(),
        is_mapped(
            consistency::Index::empty().after_all(keep_latest_n_blocks, arrivals).tables,
            arrivals[i].block,
        ),
        log_filter::conditions(
            (log_filter::FilterView {
                block_hash: Some(arrivals[i].block.ethereum_hash@),
                ..log_filter::FilterView::nothing()
            }),
            latest,
        ) == Ok::<Seq<log_filter::ConditionView>, log_filter::LogFilterError>(
            log_filter::condition_views(query.conditions@),
        ),
        consistency::log_rows(
            arrivals[i].receipts,
            arrivals[i].block,
            arrivals[i].number,
        ).len() <= log_filter::MAX_LOGS,
        query.may_return(
            consistency::Index::empty().after_all(keep_latest_n_blocks, arrivals).tables,
            rows,
        ),
    ensures
        rows.to_multiset() == consistency::log_rows(
            arrivals[i].receipts,
            arrivals[i].block,
            arrivals[i].number,
        ).to_multiset(),
{
    let tables = consistency::Index::empty().after_all(keep_latest_n_blocks, arrivals).tables;
    let hash = arrivals[i].block.ethereum_hash@;
    let filter = log_filter::FilterView {
        block_hash: Some(hash),
        ..log_filter::FilterView::nothing()
    };
    let asked = log_filter::condition_views(query.conditions@);
    let by_conditions = |row: database::LogRowView| log_filter::selects(asked, row);
    let of_block = |row: database::LogRowView| row.block_hash == hash;
    the_logs_of_a_mapped_block_are_those_of_its_receipts(keep_latest_n_blocks, arrivals);
    assert forall|row: database::LogRowView| #[trigger] by_conditions(row) <==> of_block(row) by {
        log_filter::the_query_selects_what_the_filter_asks_for(filter, latest, row);
        assert(log_filter::matches_filter(filter, latest, row) <==> row.block_hash == hash);
    }
    lemma_filters_agree(tables.logs, by_conditions, of_block);
    assert(log_filter::selected(asked, tables) == logs_of(tables, hash));
    log_filter::up_to_the_limit_all_logs_are_returned(query, tables, rows);
}

/// A log of a block that is mapped is returned by every query whose filter asks for it, as long as
/// the logs that the filter asks for are no more than the limit.
pub proof fn a_log_of_a_mapped_block_is_returned(
    keep_latest_n_blocks: Option<usize>,
    arrivals: Seq<consistency::Arrival>,
    i: int,
    j: int,
    k: int,
    filter: log_filter::FilterView,
    latest: u32,
    query: log_filter::LogQuery,
    rows: Seq<database::LogRowView>,
)
    requires
        consistency::hashes_name_blocks(arrivals),
        blocks_have_their_receipts(arrivals),
        0 <= i < arrivals.len(),
        is_mapped(
            consistency::Index::empty().after_all(keep_latest_n_blocks, arrivals).tables,
            arrivals[i].block,
        ),
        0 <= j < arrivals[i].receipts.len(),
        0 <= k < arrivals[i].receipts[j].logs.len(),
        log_filter::conditions(filter, latest) == Ok::<
            Seq<log_filter::ConditionView>,
            log_filter::LogFilterError,
        >(log_filter::condition_views(query.conditions@)),
        log_filter::selected(
            log_filter::condition_views(query.conditions@),
            consistency::Index::empty().after_all(keep_latest_n_blocks, arrivals).tables,
        ).len() <= log_filter::MAX_LOGS,
        query.may_return(
            consistency::Index::empty().after_all(keep_latest_n_blocks, arrivals).tables,
            rows,
        ),
    ensures
        ({
            let row = receipt_provider::log_row(
                arrivals[i].receipts[j].logs[k],
                arrivals[i].receipts[j],
                arrivals[i].block,
                arrivals[i].number,
            );
            rows.contains(row) <==> log_filter::matches_filter(filter, latest, row)
        }),
{
    let tables = consistency::Index::empty().after_all(keep_latest_n_blocks, arrivals).tables;
    blocks_that_are_mapped_keep_their_logs(keep_latest_n_blocks, arrivals);
    log_filter::a_filter_is_answered_with_what_it_asks_for(filter, latest, query, tables, rows);
    assert(logs_are_recorded(tables, arrivals[i]));
    assert(tables.logs.contains(
        receipt_provider::log_row(
            arrivals[i].receipts[j].logs[k],
            arrivals[i].receipts[j],
            arrivals[i].block,
            arrivals[i].number,
        ),
    ));
}

/// Whether a row says what a log of a receipt says, in the block with this Ethereum hash and number.
pub open spec fn is_row_of_log(
    row: database::LogRowView,
    log: evm::Log,
    receipt: evm::ReceiptInfo,
    ethereum_hash: H256,
    number: u32,
) -> bool {
    let topics = log.topics@;
    &&& row.block_hash == ethereum_hash@
    &&& row.block_number == number
    &&& row.transaction_hash == receipt.transaction_hash@
    &&& receipt.transaction_index@ <= i32::MAX ==> row.transaction_index
        == receipt.transaction_index@
    &&& log.log_index@ <= i32::MAX ==> row.log_index == log.log_index@
    &&& row.address == log.address@
    &&& row.topic_0 is Some <==> topics.len() > 0
    &&& topics.len() > 0 ==> row.topic_0->0 == topics[0]@
    &&& row.topic_1 is Some <==> topics.len() > 1
    &&& topics.len() > 1 ==> row.topic_1->0 == topics[1]@
    &&& row.topic_2 is Some <==> topics.len() > 2
    &&& topics.len() > 2 ==> row.topic_2->0 == topics[2]@
    &&& row.topic_3 is Some <==> topics.len() > 3
    &&& topics.len() > 3 ==> row.topic_3->0 == topics[3]@
    &&& row.data is Some <==> log.data is Some
    &&& log.data matches Some(data) ==> row.data->0 == data@
}

proof fn lemma_row_of_log(
    log: evm::Log,
    receipt: evm::ReceiptInfo,
    block: BlockHashMap,
    number: u32,
)
    ensures
        is_row_of_log(
            receipt_provider::log_row(log@, receipt@, block, number),
            log,
            receipt,
            block.ethereum_hash,
            number,
        ),
{
    let topics = log@.topics;
    assert(topics.len() == log.topics@.len());
    assert(topics.len() > 0 ==> topics[0] == log.topics@[0]@);
    assert(topics.len() > 1 ==> topics[1] == log.topics@[1]@);
    assert(topics.len() > 2 ==> topics[2] == log.topics@[2]@);
    assert(topics.len() > 3 ==> topics[3] == log.topics@[3]@);
}

/// Each row for the logs of receipts is that of one of their logs.
proof fn lemma_log_rows_are_of_logs(
    receipts: Seq<evm::ReceiptView>,
    block: BlockHashMap,
    number: u32,
    k: int,
) -> (place: (int, int))
    requires
        0 <= k < consistency::log_rows(receipts, block, number).len(),
    ensures
        0 <= place.0 < receipts.len(),
        0 <= place.1 < receipts[place.0].logs.len(),
        consistency::log_rows(receipts, block, number)[k] == receipt_provider::log_row(
            receipts[place.0].logs[place.1],
            receipts[place.0],
            block,
            number,
        ),
    decreases receipts.len(),
{
    let before = receipts.drop_last();
    let earlier = consistency::log_rows(before, block, number);
    if k < earlier.len() {
        let place = lemma_log_rows_are_of_logs(before, block, number, k);
        assert(before[place.0] == receipts[place.0]);
        place
    } else {
        (receipts.len() - 1, k - earlier.len())
    }
}

/// How many logs the first of these receipts have, up to this one.
pub open spec fn logs_before(receipts: Seq<(evm::TransactionSigned, evm::ReceiptInfo)>, i: int) -> nat
    decreases i,
{
    if i <= 0 {
        0
    } else {
        logs_before(receipts, i - 1) + receipts[i - 1].1.logs@.len()
    }
}

proof fn lemma_place_of_a_log_row(
    receipts: Seq<(evm::TransactionSigned, evm::ReceiptInfo)>,
    block: BlockHashMap,
    number: u32,
    n: int,
)
    requires
        0 <= n <= receipts.len(),
    ensures
        ({
            let rows = consistency::log_rows(
                receipt_provider::receipt_views(receipts).take(n),
                block,
                number,
            );
            &&& rows.len() == logs_before(receipts, n)
            &&& forall|i: int, j: int|
                0 <= i < n && 0 <= j < receipts[i].1.logs@.len() ==> {
                    let at = logs_before(receipts, i) + j;
                    &&& at < rows.len()
                    &&& rows[at] == receipt_provider::log_row(
                        (#[trigger] receipts[i].1.logs@[j])@,
                        receipts[i].1@,
                        block,
                        number,
                    )
                }
        }),
    decreases n,
{
    let views = receipt_provider::receipt_views(receipts);
    let rows = consistency::log_rows(views.take(n), block, number);
    if n > 0 {
        lemma_place_of_a_log_row(receipts, block, number, n - 1);
        let earlier = consistency::log_rows(views.take(n - 1), block, number);
        assert(views.take(n).drop_last() =~= views.take(n - 1));
        assert(views.take(n).last() == receipts[n - 1].1@);
        assert(receipts[n - 1].1@.logs.len() == receipts[n - 1].1.logs@.len());
        assert(rows.len() == earlier.len() + receipts[n - 1].1.logs@.len());
        assert forall|i: int, j: int|
            0 <= i < n && 0 <= j < receipts[i].1.logs@.len() implies ({
            let at = logs_before(receipts, i) + j;
            &&& at < rows.len()
            &&& rows[at] == receipt_provider::log_row(
                (#[trigger] receipts[i].1.logs@[j])@,
                receipts[i].1@,
                block,
                number,
            )
        }) by {
            let at = logs_before(receipts, i) + j;
            if i < n - 1 {
                assert(rows[at] == earlier[at]);
            } else {
                assert(receipts[i].1@.logs[j] == receipts[i].1.logs@[j]@);
            }
        }
    }
}

/// The logs of a block that is inserted come behind those that are there, each once, in the order of
/// its receipts and within a receipt in their own.
pub proof fn the_logs_of_an_inserted_block_come_in_order(
    provider: receipt_provider::ReceiptProvider,
    substrate_hash: H256,
    number: u32,
    receipts: &[(evm::TransactionSigned, evm::ReceiptInfo)],
    ethereum_hash: H256,
    is_mapped: bool,
    statements: Vec<database::Statement>,
    tables: database::Tables,
)
    requires
        call_ensures(
            receipt_provider::ReceiptProvider::insert_with_hashes,
            (&provider, substrate_hash, number, receipts, &ethereum_hash, is_mapped),
            statements,
        ),
        !is_mapped,
        provider@.keeps is None || (provider@.blocks.contains_key(number)
            && provider@.blocks[number] == (BlockHashMap { substrate_hash, ethereum_hash })),
    ensures
        ({
            let after = tables.after_all(database::statement_views(statements@));
            &&& after.logs.len() == tables.logs.len() + logs_before(
                receipts@,
                receipts@.len() as int,
            )
            &&& forall|i: int, j: int|
                0 <= i < receipts@.len() && 0 <= j < receipts@[i].1.logs@.len() ==> is_row_of_log(
                    after.logs[tables.logs.len() + logs_before(receipts@, i) + j],
                    #[trigger] receipts@[i].1.logs@[j],
                    receipts@[i].1,
                    ethereum_hash,
                    number,
                )
        }),
{
    let block = BlockHashMap { substrate_hash, ethereum_hash };
    let views = receipt_provider::receipt_views(receipts@);
    let after = tables.after_all(database::statement_views(statements@));
    let rows = consistency::log_rows(views, block, number);
    consistency::inserting_receipts_adds_transactions_and_logs(tables, views, block, number);
    consistency::lemma_insertion(tables, views, block, number);
    assert(after.logs == tables.logs + rows);
    lemma_place_of_a_log_row(receipts@, block, number, receipts@.len() as int);
    assert(views.take(receipts@.len() as int) =~= views);
    assert forall|i: int, j: int|
        0 <= i < receipts@.len() && 0 <= j < receipts@[i].1.logs@.len() implies is_row_of_log(
        after.logs[tables.logs.len() + logs_before(receipts@, i) + j],
        #[trigger] receipts@[i].1.logs@[j],
        receipts@[i].1,
        ethereum_hash,
        number,
    ) by {
        lemma_row_of_log(receipts@[i].1.logs@[j], receipts@[i].1, block, number);
        assert(after.logs[tables.logs.len() + logs_before(receipts@, i) + j] == rows[logs_before(
            receipts@,
            i,
        ) + j]);
    }
}

/// Inserting a block that belongs into the database records it: its Ethereum hash leads to its
/// Substrate hash, the hash of each of its transactions leads to its index in the block, and each of
/// its logs has a row that says what it says. Other mappings and transactions stay, the logs that
/// were there stay, and no other log is added. A block that is mapped already, or that does not
/// belong into the database, changes nothing.
pub proof fn an_inserted_block_is_recorded(
    provider: receipt_provider::ReceiptProvider,
    substrate_hash: H256,
    number: u32,
    receipts: &[(evm::TransactionSigned, evm::ReceiptInfo)],
    ethereum_hash: H256,
    is_mapped: bool,
    statements: Vec<database::Statement>,
    tables: database::Tables,
)
    requires
        call_ensures(
            receipt_provider::ReceiptProvider::insert_with_hashes,
            (&provider, substrate_hash, number, receipts, &ethereum_hash, is_mapped),
            statements,
        ),
    ensures
        ({
            let block = BlockHashMap { substrate_hash, ethereum_hash };
            let belongs = provider@.keeps is None || (provider@.blocks.contains_key(number)
                && provider@.blocks[number] == block);
            let after = tables.after_all(database::statement_views(statements@));
            if is_mapped || !belongs {
                statements@.len() == 0 && after == tables
            } else {
                &&& after.mappings == tables.mappings.insert(ethereum_hash@, substrate_hash@)
                &&& forall|i: int|
                    0 <= i < receipts@.len() && (forall|j: int|
                        i < j < receipts@.len() ==> (#[trigger] receipts@[j]).1.transaction_hash@
                            != receipts@[i].1.transaction_hash@) ==> {
                        let receipt = (#[trigger] receipts@[i]).1;
                        let hash = receipt.transaction_hash@;
                        &&& after.transactions.contains_key(hash)
                        &&& after.transactions[hash].0 == substrate_hash@
                        &&& receipt.transaction_index@ <= i32::MAX ==> after.transactions[hash].1
                            == receipt.transaction_index@
                    }
                &&& forall|hash: Seq<u8>|
                    (forall|i: int|
                        0 <= i < receipts@.len() ==> (#[trigger] receipts@[i]).1.transaction_hash@
                            != hash) ==> #[trigger] after.transaction_row(hash)
                        == tables.transaction_row(hash)
                &&& forall|i: int, j: int|
                    0 <= i < receipts@.len() && 0 <= j < receipts@[i].1.logs@.len() ==> exists|
                        row: database::LogRowView,
                    | #[trigger]
                        after.logs.contains(row) && is_row_of_log(
                            row,
                            #[trigger] receipts@[i].1.logs@[j],
                            receipts@[i].1,
                            ethereum_hash,
                            number,
                        )
                &&& after.logs.len() >= tables.logs.len()
                &&& after.logs.take(tables.logs.len() as int) == tables.logs
                &&& forall|k: int|
                    tables.logs.len() <= k < after.logs.len() ==> exists|i: int, j: int|
                        0 <= i < receipts@.len() && 0 <= j < receipts@[i].1.logs@.len()
                            && is_row_of_log(
                            #[trigger] after.logs[k],
                            #[trigger] receipts@[i].1.logs@[j],
                            receipts@[i].1,
                            ethereum_hash,
                            number,
                        )
            }
        }),
{
    let block = BlockHashMap { substrate_hash, ethereum_hash };
    let views = receipt_provider::receipt_views(receipts@);
    let after = tables.after_all(database::statement_views(statements@));
    let belongs = provider@.keeps is None || (provider@.blocks.contains_key(number)
        && provider@.blocks[number] == block);
    assert(database::statement_views(statements@).len() == statements@.len());
    if !is_mapped && belongs {
        let rows = consistency::log_rows(views, block, number);
        consistency::inserting_receipts_adds_transactions_and_logs(tables, views, block, number);
        consistency::lemma_insertion(tables, views, block, number);
        assert(after.logs == tables.logs + rows);
        assert forall|i: int| 0 <= i < receipts@.len() implies #[trigger] views[i]
            == receipts@[i].1@ by {}
        assert forall|i: int|
            0 <= i < receipts@.len() && (forall|j: int|
                i < j < receipts@.len() ==> (#[trigger] receipts@[j]).1.transaction_hash@
                    != receipts@[i].1.transaction_hash@) implies ({
            let receipt = (#[trigger] receipts@[i]).1;
            let hash = receipt.transaction_hash@;
            &&& after.transactions.contains_key(hash)
            &&& after.transactions[hash].0 == substrate_hash@
            &&& receipt.transaction_index@ <= i32::MAX ==> after.transactions[hash].1
                == receipt.transaction_index@
        }) by {
            assert(views[i] == receipts@[i].1@);
            assert forall|j: int| i < j < views.len() implies views[j].transaction_hash
                != views[i].transaction_hash by {
                assert(views[j] == receipts@[j].1@);
                assert(receipts@[j].1.transaction_hash@ != receipts@[i].1.transaction_hash@);
            }
            assert(views[i].transaction_hash == receipts@[i].1.transaction_hash@);
            assert(after.transactions.contains_key(views[i].transaction_hash));
        }
        assert forall|hash: Seq<u8>|
            (forall|i: int|
                0 <= i < receipts@.len() ==> (#[trigger] receipts@[i]).1.transaction_hash@
                    != hash) implies #[trigger] after.transaction_row(hash)
            == tables.transaction_row(hash) by {
            if exists|i: int| 0 <= i < views.len() && views[i].transaction_hash == hash {
                let i = choose|i: int| 0 <= i < views.len() && views[i].transaction_hash == hash;
                assert(receipts@[i].1.transaction_hash@ == hash);
            }
            assert(after.transactions.contains_key(hash) <==> tables.transactions.contains_key(
                hash,
            ));
            assert(after.transactions[hash] == tables.transactions[hash]);
        }
        assert forall|i: int, j: int|
            0 <= i < receipts@.len() && 0 <= j < receipts@[i].1.logs@.len() implies exists|
            row: database::LogRowView,
        | #[trigger]
            after.logs.contains(row) && is_row_of_log(
                row,
                #[trigger] receipts@[i].1.logs@[j],
                receipts@[i].1,
                ethereum_hash,
                number,
            ) by {
            let receipt = receipts@[i].1;
            let row = receipt_provider::log_row(receipt.logs@[j]@, receipt@, block, number);
            assert(views[i] == receipt@);
            assert(views[i].logs[j] == receipt.logs@[j]@);
            consistency::lemma_log_rows_hold_each_log(views, block, number, i, j);
            let k = choose|k: int| 0 <= k < rows.len() && rows[k] == row;
            assert(after.logs[tables.logs.len() + k] == row);
            assert(after.logs.contains(row));
            lemma_row_of_log(receipt.logs@[j], receipt, block, number);
        }
        assert(after.logs.take(tables.logs.len() as int) =~= tables.logs);
        assert forall|k: int| tables.logs.len() <= k < after.logs.len() implies exists|
            i: int,
            j: int,
        |
            0 <= i < receipts@.len() && 0 <= j < receipts@[i].1.logs@.len() && is_row_of_log(
                #[trigger] after.logs[k],
                #[trigger] receipts@[i].1.logs@[j],
                receipts@[i].1,
                ethereum_hash,
                number,
            ) by {
            let (i, j) = lemma_log_rows_are_of_logs(views, block, number, k - tables.logs.len());
            let receipt = receipts@[i].1;
            assert(views[i] == receipt@);
            assert(views[i].logs[j] == receipt.logs@[j]@);
            assert(after.logs[k] == rows[k - tables.logs.len()]);
            lemma_row_of_log(receipt.logs@[j], receipt, block, number);
        }
    }
}

/// Removing blocks deletes the transactions and the mappings of their Substrate hashes and the logs
/// of their Ethereum hashes, and leaves everything else.
pub proof fn removed_blocks_leave_no_record(
    blocks: &[BlockHashMap],
    statements: Vec<database::Statement>,
    tables: database::Tables,
)
    requires
        call_ensures(receipt_provider::ReceiptProvider::remove, (blocks,), statements),
    ensures
        ({
            let after = tables.after_all(database::statement_views(statements@));
            let removes_substrate = |hash: Seq<u8>|
                exists|i: int| 0 <= i < blocks@.len() && (#[trigger] blocks@[i]).substrate_hash@ == hash;
            let removes_ethereum = |hash: Seq<u8>|
                exists|i: int| 0 <= i < blocks@.len() && (#[trigger] blocks@[i]).ethereum_hash@ == hash;
            &&& forall|hash: Seq<u8>| #[trigger]
                after.transactions.contains_key(hash) <==> tables.transactions.contains_key(hash)
                    && !removes_substrate(tables.transactions[hash].0)
            &&& forall|hash: Seq<u8>| #[trigger]
                after.transactions.contains_key(hash) ==> after.transactions[hash]
                    == tables.transactions[hash]
            &&& forall|hash: Seq<u8>| #[trigger]
                after.mappings.contains_key(hash) <==> tables.mappings.contains_key(hash)
                    && !removes_substrate(tables.mappings[hash])
            &&& forall|hash: Seq<u8>| #[trigger]
                after.mappings.contains_key(hash) ==> after.mappings[hash] == tables.mappings[hash]
            &&& forall|row: database::LogRowView| #[trigger]
                after.logs.contains(row) <==> tables.logs.contains(row) && !removes_ethereum(
                    row.block_hash,
                )
        }),
{
    let substrate = receipt_provider::substrate_hashes(blocks@);
    let ethereum = receipt_provider::ethereum_hashes(blocks@);
    consistency::removing_blocks_deletes_their_records_alone(tables, blocks@);
    assert forall|hash: Seq<u8>| #[trigger] substrate.contains(hash) <==> exists|i: int|
        0 <= i < blocks@.len() && (#[trigger] blocks@[i]).substrate_hash@ == hash by {
        if substrate.contains(hash) {
            let i = choose|i: int| 0 <= i < substrate.len() && substrate[i] == hash;
            assert(blocks@[i].substrate_hash@ == hash);
        }
        if exists|i: int| 0 <= i < blocks@.len() && (#[trigger] blocks@[i]).substrate_hash@ == hash {
            let i = choose|i: int|
                0 <= i < blocks@.len() && (#[trigger] blocks@[i]).substrate_hash@ == hash;
            assert(substrate[i] == hash);
        }
    }
    assert forall|hash: Seq<u8>| #[trigger] ethereum.contains(hash) <==> exists|i: int|
        0 <= i < blocks@.len() && (#[trigger] blocks@[i]).ethereum_hash@ == hash by {
        if ethereum.contains(hash) {
            let i = choose|i: int| 0 <= i < ethereum.len() && ethereum[i] == hash;
            assert(blocks@[i].ethereum_hash@ == hash);
        }
        if exists|i: int| 0 <= i < blocks@.len() && (#[trigger] blocks@[i]).ethereum_hash@ == hash {
            let i = choose|i: int|
                0 <= i < blocks@.len() && (#[trigger] blocks@[i]).ethereum_hash@ == hash;
            assert(ethereum[i] == hash);
        }
    }
}

/// Whether a number is taken once a block was put at its own: by the block itself, or by one that was
/// there and is not cut off. Where another block stood at the number, those that follow it without a
/// gap are cut off.
pub open spec fn survives(
    blocks: block_cache::Blocks,
    number: u32,
    block: BlockHashMap,
    k: u32,
) -> bool {
    k == number || (blocks.contains_key(k) && (!(blocks.contains_key(number) && blocks[number]
        != block) || k < number || exists|gap: u32|
        number < gap < k && !(#[trigger] blocks.contains_key(gap))))
}

/// Whether the records of a block have to go: another block took its number or cut it off, or only
/// the latest blocks are kept and it is none of them.
pub open spec fn has_to_go(
    before: block_cache::Blocks,
    after: block_cache::Blocks,
    keeps: Option<usize>,
    number: u32,
    block: BlockHashMap,
    gone: BlockHashMap,
) -> bool {
    ||| exists|k: u32| #[trigger]
        before.contains_key(k) && before[k] == gone && (k == number && before[k] != block || !survives(
            before,
            number,
            block,
            k,
        ))
    ||| keeps is Some && exists|k: u32| #[trigger]
        survives(before, number, block, k) && (if k == number {
            block
        } else {
            before[k]
        }) == gone && !after.contains_key(k)
}

/// Pruning for a block puts it at its number, cuts off what follows the block that stood there, and
/// leaves as many of the latest blocks as the limit allows. The statements delete the records of
/// exactly those blocks that have to go.
pub proof fn pruning_deletes_the_records_of_blocks_that_go(
    provider: &mut receipt_provider::ReceiptProvider,
    number: u32,
    block: BlockHashMap,
    statements: Vec<database::Statement>,
    tables: database::Tables,
)
    requires
        old(provider).wf(),
        call_ensures(
            receipt_provider::ReceiptProvider::prune_blocks,
            (provider, number, &block),
            statements,
        ),
    ensures
        ({
            let before = old(provider)@.blocks;
            let after = final(provider)@.blocks;
            let keeps = old(provider)@.keeps;
            let limit: nat = match keeps {
                Some(n) => n as nat,
                None => 256,
            };
            let then = tables.after_all(database::statement_views(statements@));
            let goes_by_substrate = |hash: Seq<u8>|
                exists|gone: BlockHashMap| #[trigger]
                    has_to_go(before, after, keeps, number, block, gone)
                        && gone.substrate_hash@ == hash;
            let goes_by_ethereum = |hash: Seq<u8>|
                exists|gone: BlockHashMap| #[trigger]
                    has_to_go(before, after, keeps, number, block, gone) && gone.ethereum_hash@
                        == hash;
            &&& final(provider)@.keeps == keeps
            &&& final(provider)@.extractor == old(provider)@.extractor
            &&& after.len() <= limit
            &&& forall|k: u32| #[trigger]
                after.contains_key(k) ==> survives(before, number, block, k) && after[k] == (if k
                    == number {
                    block
                } else {
                    before[k]
                })
            &&& forall|k: u32|
                #![trigger survives(before, number, block, k)]
                survives(before, number, block, k) && !after.contains_key(k) ==> after.len()
                    == limit && forall|stays: u32| #[trigger] after.contains_key(stays) ==> k < stays
            &&& forall|hash: Seq<u8>| #[trigger]
                then.transactions.contains_key(hash) <==> tables.transactions.contains_key(hash)
                    && !goes_by_substrate(tables.transactions[hash].0)
            &&& forall|hash: Seq<u8>| #[trigger]
                then.transactions.contains_key(hash) ==> then.transactions[hash]
                    == tables.transactions[hash]
            &&& forall|hash: Seq<u8>| #[trigger]
                then.mappings.contains_key(hash) <==> tables.mappings.contains_key(hash)
                    && !goes_by_substrate(tables.mappings[hash])
            &&& forall|hash: Seq<u8>| #[trigger]
                then.mappings.contains_key(hash) ==> then.mappings[hash] == tables.mappings[hash]
            &&& forall|row: database::LogRowView| #[trigger]
                then.logs.contains(row) <==> tables.logs.contains(row) && !goes_by_ethereum(
                    row.block_hash,
                )
        }),
{
    lemma_pruning(
        old(provider)@.blocks,
        old(provider)@.keeps,
        number,
        block,
        tables,
    );
}

proof fn lemma_pruning(
    before: block_cache::Blocks,
    keeps: Option<usize>,
    number: u32,
    block: BlockHashMap,
    tables: database::Tables,
)
    requires
        before.dom().finite(),
    ensures
        ({
            let after = block_cache::blocks_after(before, keeps, number, block);
            let removed = block_cache::blocks_to_remove(before, keeps, number, block);
            let limit: nat = match keeps {
                Some(n) => n as nat,
                None => 256,
            };
            let then = tables.after_all(receipt_provider::removal(removed));
            let goes_by_substrate = |hash: Seq<u8>|
                exists|gone: BlockHashMap| #[trigger]
                    has_to_go(before, after, keeps, number, block, gone)
                        && gone.substrate_hash@ == hash;
            let goes_by_ethereum = |hash: Seq<u8>|
                exists|gone: BlockHashMap| #[trigger]
                    has_to_go(before, after, keeps, number, block, gone) && gone.ethereum_hash@
                        == hash;
            &&& after.len() <= limit
            &&& forall|k: u32| #[trigger]
                after.contains_key(k) ==> survives(before, number, block, k) && after[k] == (if k
                    == number {
                    block
                } else {
                    before[k]
                })
            &&& forall|k: u32|
                #![trigger survives(before, number, block, k)]
                survives(before, number, block, k) && !after.contains_key(k) ==> after.len()
                    == limit && forall|stays: u32| #[trigger] after.contains_key(stays) ==> k < stays
            &&& forall|hash: Seq<u8>| #[trigger]
                then.transactions.contains_key(hash) <==> tables.transactions.contains_key(hash)
                    && !goes_by_substrate(tables.transactions[hash].0)
            &&& forall|hash: Seq<u8>| #[trigger]
                then.transactions.contains_key(hash) ==> then.transactions[hash]
                    == tables.transactions[hash]
            &&& forall|hash: Seq<u8>| #[trigger]
                then.mappings.contains_key(hash) <==> tables.mappings.contains_key(hash)
                    && !goes_by_substrate(tables.mappings[hash])
            &&& forall|hash: Seq<u8>| #[trigger]
                then.mappings.contains_key(hash) ==> then.mappings[hash] == tables.mappings[hash]
            &&& forall|row: database::LogRowView| #[trigger]
                then.logs.contains(row) <==> tables.logs.contains(row) && !goes_by_ethereum(
                    row.block_hash,
                )
        }),
{
    let after = block_cache::blocks_after(before, keeps, number, block);
    let held = block_cache::with_block(before, number, block);
    let removed = block_cache::blocks_to_remove(before, keeps, number, block);
    let substrate = receipt_provider::substrate_hashes(removed);
    let ethereum = receipt_provider::ethereum_hashes(removed);
    lemma_survivors(before, number, block);
    block_cache::the_latest_blocks_stay(before, keeps, number, block);
    consistency::removing_blocks_deletes_their_records_alone(tables, removed);
    assert forall|k: u32| #[trigger] after.contains_key(k) implies held.contains_key(k) && after[k]
        == held[k] by {
        assert(after.dom().contains(k));
        assert(held.dom().contains(k));
    }
    assert forall|k: u32|
        #![trigger survives(before, number, block, k)]
        survives(before, number, block, k) && !after.contains_key(k) implies after.len() == (
    match keeps {
        Some(n) => n as nat,
        None => 256,
    }) by {
        assert(held.contains_key(k));
        if held.len() == after.len() {
            assert(after.dom().subset_of(held.dom()));
            vstd::set_lib::lemma_subset_equality(after.dom(), held.dom());
            assert(after.dom().contains(k));
        }
    }
    assert forall|gone: BlockHashMap| #[trigger]
        has_to_go(before, after, keeps, number, block, gone) <==> removed.contains(gone) by {
        lemma_has_to_go(before, keeps, number, block, gone);
    }
    assert forall|hash: Seq<u8>| #[trigger] substrate.contains(hash) <==> exists|gone: BlockHashMap|
        #[trigger] has_to_go(before, after, keeps, number, block, gone) && gone.substrate_hash@
            == hash by {
        if substrate.contains(hash) {
            let i = choose|i: int| 0 <= i < substrate.len() && substrate[i] == hash;
            assert(removed.contains(removed[i]));
            assert(has_to_go(before, after, keeps, number, block, removed[i]));
        }
        if exists|gone: BlockHashMap| #[trigger]
            has_to_go(before, after, keeps, number, block, gone) && gone.substrate_hash@ == hash {
            let gone = choose|gone: BlockHashMap| #[trigger]
                has_to_go(before, after, keeps, number, block, gone) && gone.substrate_hash@
                    == hash;
            let i = choose|i: int| 0 <= i < removed.len() && removed[i] == gone;
            assert(substrate[i] == hash);
        }
    }
    assert forall|hash: Seq<u8>| #[trigger] ethereum.contains(hash) <==> exists|gone: BlockHashMap|
        #[trigger] has_to_go(before, after, keeps, number, block, gone) && gone.ethereum_hash@
            == hash by {
        if ethereum.contains(hash) {
            let i = choose|i: int| 0 <= i < ethereum.len() && ethereum[i] == hash;
            assert(removed.contains(removed[i]));
            assert(has_to_go(before, after, keeps, number, block, removed[i]));
        }
        if exists|gone: BlockHashMap| #[trigger]
            has_to_go(before, after, keeps, number, block, gone) && gone.ethereum_hash@ == hash {
            let gone = choose|gone: BlockHashMap| #[trigger]
                has_to_go(before, after, keeps, number, block, gone) && gone.ethereum_hash@ == hash;
            let i = choose|i: int| 0 <= i < removed.len() && removed[i] == gone;
            assert(ethereum[i] == hash);
        }
    }
}

proof fn lemma_survivors(before: block_cache::Blocks, number: u32, block: BlockHashMap)
    ensures
        ({
            let held = block_cache::with_block(before, number, block);
            &&& forall|k: u32| #[trigger]
                held.contains_key(k) <==> survives(before, number, block, k)
            &&& forall|k: u32| #[trigger]
                held.contains_key(k) ==> held[k] == (if k == number {
                    block
                } else {
                    before[k]
                })
        }),
{
    block_cache::a_block_is_put_at_its_number(before, number, block);
}

proof fn lemma_has_to_go(
    before: block_cache::Blocks,
    keeps: Option<usize>,
    number: u32,
    block: BlockHashMap,
    gone: BlockHashMap,
)
    requires
        before.dom().finite(),
    ensures
        has_to_go(
            before,
            block_cache::blocks_after(before, keeps, number, block),
            keeps,
            number,
            block,
            gone,
        ) <==> block_cache::blocks_to_remove(before, keeps, number, block).contains(gone),
{
    let after = block_cache::blocks_after(before, keeps, number, block);
    let held = block_cache::with_block(before, number, block);
    lemma_survivors(before, number, block);
    block_cache::the_blocks_that_leave_are_removed(before, keeps, number, block, gone);
    if exists|k: u32| #[trigger]
        before.contains_key(k) && before[k] == gone && !(held.contains_key(k) && held[k]
            == before[k]) {
        let k = choose|k: u32| #[trigger]
            before.contains_key(k) && before[k] == gone && !(held.contains_key(k) && held[k]
                == before[k]);
        assert(before.contains_key(k) && before[k] == gone && (k == number && before[k] != block
            || !survives(before, number, block, k)));
    }
    if exists|k: u32| #[trigger]
        before.contains_key(k) && before[k] == gone && (k == number && before[k] != block || !survives(
            before,
            number,
            block,
            k,
        )) {
        let k = choose|k: u32| #[trigger]
            before.contains_key(k) && before[k] == gone && (k == number && before[k] != block
                || !survives(before, number, block, k));
        assert(before.contains_key(k) && before[k] == gone && !(held.contains_key(k) && held[k]
            == before[k]));
    }
    if exists|k: u32| #[trigger]
        held.contains_key(k) && held[k] == gone && !after.contains_key(k) {
        let k = choose|k: u32| #[trigger]
            held.contains_key(k) && held[k] == gone && !after.contains_key(k);
        assert(survives(before, number, block, k));
    }
    if exists|k: u32| #[trigger]
        survives(before, number, block, k) && (if k == number {
            block
        } else {
            before[k]
        }) == gone && !after.contains_key(k) {
        let k = choose|k: u32| #[trigger]
            survives(before, number, block, k) && (if k == number {
                block
            } else {
                before[k]
            }) == gone && !after.contains_key(k);
        assert(held.contains_key(k) && held[k] == gone && !after.contains_key(k));
    }
}

/// A block that arrives is pruned for and then inserted. Executing the statements of both, in this
/// order, is one step of the index: what holds of the index after any arrivals holds of the provider
/// and of its database.
pub proof fn an_arrival_is_one_step_of_the_index(
    provider: &mut receipt_provider::ReceiptProvider,
    pruned: receipt_provider::ReceiptProvider,
    number: u32,
    block: BlockHashMap,
    receipts: &[(evm::TransactionSigned, evm::ReceiptInfo)],
    deletions: Vec<database::Statement>,
    insertions: Vec<database::Statement>,
    tables: database::Tables,
)
    requires
        call_ensures(
            receipt_provider::ReceiptProvider::prune_blocks,
            (provider, number, &block),
            deletions,
        ),
        pruned == *final(provider),
        call_ensures(
            receipt_provider::ReceiptProvider::insert_with_hashes,
            (
                &pruned,
                block.substrate_hash,
                number,
                receipts,
                &block.ethereum_hash,
                tables.after_all(database::statement_views(deletions@)).has_block(
                    block.substrate_hash@,
                ),
            ),
            insertions,
        ),
    ensures
        (consistency::Index {
            blocks: pruned@.blocks,
            tables: tables.after_all(database::statement_views(deletions@)).after_all(
                database::statement_views(insertions@),
            ),
        }) == (consistency::Index { blocks: old(provider)@.blocks, tables }).after(
            old(provider)@.keeps,
            consistency::Arrival {
                number,
                block,
                receipts: receipt_provider::receipt_views(receipts@),
            },
        ),
{
}

} // verus!

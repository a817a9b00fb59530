//! What the client decides between two calls of the node: which block is meant, which block comes
//! next, what a reply means.

use crate::error::{ClientError, SubmitError};
use crate::evm::{
    BlockNumberOrTag, BlockNumberOrTagOrHash, BlockTag, ReceiptInfo, TransactionSigned,
};
use crate::primitives::{H160, H256, U256};
use crate::substrate_client::{NodeHealth, SubmitResult, SyncState, TransactionStatus};
use std::collections::HashMap;
use vstd::prelude::*;

verus! {

broadcast use vstd::std_specs::hash::group_hash_axioms;

/// The substrate block hash type.
pub type SubstrateBlockHash = H256;

/// The runtime balance type.
pub type Balance = u128;

/// The capacity of the channel that announces new blocks.
pub const NOTIFIER_CAPACITY: usize = 16;

/// The subscription type used to listen to new blocks.
#[derive(Clone, Copy, Debug, PartialEq, Eq, Structural)]
pub enum SubscriptionType {
    /// Subscribe to best blocks.
    BestBlocks,
    /// Subscribe to finalized blocks.
    FinalizedBlocks,
}

impl From<SubmitResult> for SubmitError {
    fn from(status: SubmitResult) -> (error: SubmitError) {
        match status {
            TransactionStatus::Usurped(_) => SubmitError::Usurped,
            TransactionStatus::Dropped => SubmitError::Dropped,
            TransactionStatus::Invalid => SubmitError::Invalid,
            _ => SubmitError::Unknown,
        }
    }
}

impl vstd::std_specs::convert::FromSpecImpl<SubmitResult> for SubmitError {
    open spec fn obeys_from_spec() -> bool {
        true
    }

    open spec fn from_spec(status: SubmitResult) -> SubmitError {
        match status {
            TransactionStatus::Usurped(_) => SubmitError::Usurped,
            TransactionStatus::Dropped => SubmitError::Dropped,
            TransactionStatus::Invalid => SubmitError::Invalid,
            _ => SubmitError::Unknown,
        }
    }
}

/// How a block is to be looked up.
#[derive(Clone, Copy, Debug)]
pub enum BlockLookup {
    /// By the Ethereum hash that is mapped to it.
    EthereumHash(H256),
    /// By its number.
    Number(u32),
    /// It is the latest finalized block.
    LatestFinalized,
    /// It is the latest block.
    Latest,
}

/// How the block with a tag is looked up: a safe block is a finalized one, and every other tag
/// stands for the latest block.
pub open spec fn lookup_tag(tag: BlockTag) -> BlockLookup {
    match tag {
        BlockTag::Finalized => BlockLookup::LatestFinalized,
        BlockTag::Safe => BlockLookup::LatestFinalized,
        _ => BlockLookup::Latest,
    }
}

/// How the block with a number is looked up. The number has to fit into that of a Substrate block.
pub open spec fn lookup_number(number: nat) -> Result<BlockLookup, ClientError> {
    if number <= u32::MAX {
        Ok(BlockLookup::Number(number as u32))
    } else {
        Err(ClientError::ConversionFailed)
    }
}

fn find_tag(tag: BlockTag) -> (lookup: BlockLookup)
    ensures
        lookup == lookup_tag(tag),
{
    match tag {
        BlockTag::Finalized => BlockLookup::LatestFinalized,
        BlockTag::Safe => BlockLookup::LatestFinalized,
        _ => BlockLookup::Latest,
    }
}

fn find_number(number: &U256) -> (lookup: Result<BlockLookup, ClientError>)
    ensures
        lookup == lookup_number(number@),
{
    match number.to_u32() {
        Some(number) => Ok(BlockLookup::Number(number)),
        None => Err(ClientError::ConversionFailed),
    }
}

/// The range of the past blocks that are indexed when the last `n` blocks are asked for, from the
/// first number up to the one behind the last. The latest block itself is left out: it comes by
/// subscription. Where there are fewer past blocks, all of them are indexed.
pub open spec fn past_range(latest: u32, n: u32) -> (u32, u32) {
    (
        if latest >= n {
            (latest - n) as u32
        } else {
            0
        },
        latest,
    )
}

/// The number of the block that the walk through a range of past blocks begins with: the last one,
/// or none where the range is empty.
pub open spec fn first_past_block(start: u32, end: u32) -> Option<u32> {
    if start < end {
        Some((end - 1) as u32)
    } else {
        None
    }
}

/// Whether the walk goes on to the parent of a block: it does until the start of the range is
/// reached.
pub open spec fn walks_on(start: u32, number: u32) -> bool {
    start < number
}

/// The numbers of the blocks that are processed from a block on, where each block has the number
/// after that of its parent.
pub open spec fn walk(start: u32, number: u32) -> Seq<u32>
    decreases number,
{
    if walks_on(start, number) {
        seq![number] + walk(start, (number - 1) as u32)
    } else {
        seq![number]
    }
}

/// The numbers of the blocks that are processed for a range of past blocks.
pub open spec fn processed(start: u32, end: u32) -> Seq<u32> {
    match first_past_block(start, end) {
        Some(number) => walk(start, number),
        None => seq![],
    }
}

proof fn lemma_walk(start: u32, number: u32)
    requires
        start <= number,
    ensures
        walk(start, number) == Seq::new((number - start + 1) as nat, |i: int| (number - i) as u32),
    decreases number,
{
    if start < number {
        lemma_walk(start, (number - 1) as u32);
    }
    assert(walk(start, number) =~= Seq::new(
        (number - start + 1) as nat,
        |i: int| (number - i) as u32,
    ));
}

/// Every block of the range is processed once, from the last one down to the first, and no other
/// block is.
pub proof fn the_whole_range_is_processed(start: u32, end: u32)
    requires
        start <= end,
    ensures
        processed(start, end) == Seq::new((end - start) as nat, |i: int| (end - 1 - i) as u32),
        processed(start, end).no_duplicates(),
        forall|number: u32| #[trigger]
            processed(start, end).contains(number) <==> start <= number < end,
{
    if start < end {
        lemma_walk(start, (end - 1) as u32);
    }
    let numbers = processed(start, end);
    assert(numbers =~= Seq::new((end - start) as nat, |i: int| (end - 1 - i) as u32));
    assert forall|number: u32| start <= number < end implies #[trigger] numbers.contains(number) by {
        assert(numbers[end - 1 - number] == number);
    }
}

/// Asking for the last `n` blocks processes exactly `n` blocks, those right before the latest one,
/// or all past blocks where there are fewer.
pub proof fn indexing_covers_the_last_blocks(latest: u32, n: u32)
    ensures
        ({
            let (start, end) = past_range(latest, n);
            &&& processed(start, end).len() == (if latest < n {
                latest
            } else {
                n
            })
            &&& processed(start, end).no_duplicates()
            &&& forall|number: u32| #[trigger]
                processed(start, end).contains(number) <==> latest - n <= number < latest
        }),
{
    let (start, end) = past_range(latest, n);
    the_whole_range_is_processed(start, end);
}

/// How far syncing has come.
#[derive(Clone, Copy, Debug, PartialEq, Eq, Structural)]
pub struct SyncingProgress {
    /// The block that syncing has come to.
    pub current_block: Option<U256>,
    /// The highest block that is known.
    pub highest_block: Option<U256>,
    /// The block that syncing began with.
    pub starting_block: Option<U256>,
}

/// Whether the node is syncing, and how far it has come.
#[derive(Clone, Copy, Debug, PartialEq, Eq, Structural)]
pub enum SyncingStatus {
    /// The node is syncing.
    SyncingProgress(SyncingProgress),
    /// The node is not syncing: always false.
    Bool(bool),
}

/// A transaction with its place in the chain.
#[derive(Debug)]
pub struct TransactionInfo {
    /// The hash of the Ethereum block.
    pub block_hash: H256,
    /// The number of the block.
    pub block_number: U256,
    /// The sender.
    pub from: H160,
    /// The hash of the transaction.
    pub hash: H256,
    /// The index of the transaction in its block.
    pub transaction_index: U256,
    /// The transaction itself.
    pub transaction_signed: TransactionSigned,
}

/// What a transaction with its place says.
#[verifier::ext_equal]
pub ghost struct TransactionInfoView {
    pub block_hash: Seq<u8>,
    pub block_number: nat,
    pub from: Seq<u8>,
    pub hash: Seq<u8>,
    pub transaction_index: nat,
    pub payload: Seq<u8>,
}

impl View for TransactionInfo {
    type V = TransactionInfoView;

    open spec fn view(&self) -> TransactionInfoView {
        TransactionInfoView {
            block_hash: self.block_hash@,
            block_number: self.block_number@,
            from: self.from@,
            hash: self.hash@,
            transaction_index: self.transaction_index@,
            payload: self.transaction_signed@,
        }
    }
}

/// A transaction with the place that its receipt gives it.
pub open spec fn placed(payload: Seq<u8>, receipt: crate::evm::ReceiptView) -> TransactionInfoView {
    TransactionInfoView {
        block_hash: receipt.block_hash,
        block_number: receipt.block_number,
        from: receipt.from,
        hash: receipt.transaction_hash,
        transaction_index: receipt.transaction_index,
        payload,
    }
}

impl TransactionInfo {
    /// A transaction with the place that its receipt gives it.
    pub fn new(receipt: &ReceiptInfo, transaction_signed: TransactionSigned) -> (info: Self)
        ensures
            info@ == placed(transaction_signed@, receipt@),
    {
        TransactionInfo {
            block_hash: receipt.block_hash,
            block_number: receipt.block_number,
            from: receipt.from,
            hash: receipt.transaction_hash,
            transaction_index: receipt.transaction_index,
            transaction_signed,
        }
    }
}

/// The transactions of a block.
#[derive(Debug)]
pub enum HashesOrTransactionInfos {
    /// Their hashes.
    Hashes(Vec<H256>),
    /// The transactions themselves.
    TransactionInfos(Vec<TransactionInfo>),
}

/// An Ethereum block: its transactions, and its other fields as they came from the node.
#[derive(Debug)]
pub struct EthBlock<H> {
    /// Everything but the transactions.
    pub header: H,
    /// The transactions.
    pub transactions: HashesOrTransactionInfos,
}

/// The transactions of a block with their places, in order. Where the receipts could not be had,
/// there are none.
pub fn hydrate(
    receipts: Result<Vec<(TransactionSigned, ReceiptInfo)>, ClientError>,
) -> (infos: Vec<TransactionInfo>)
    ensures
        infos@.map_values(|info: TransactionInfo| info@) == (match receipts {
            Ok(receipts) => receipts@.map_values(
                |pair: (TransactionSigned, ReceiptInfo)| placed(pair.0@, pair.1@),
            ),
            Err(_) => seq![],
        }),
{
    let mut infos: Vec<TransactionInfo> = Vec::new();
    let receipts = match receipts {
        Ok(receipts) => receipts,
        Err(_) => {
            assert(infos@.map_values(|info: TransactionInfo| info@) =~= seq![]);
            return infos;
        },
    };
    let mut i: usize = 0;
    while i < receipts.len()
        invariant
            i <= receipts@.len(),
            infos@.len() == i,
            forall|j: int|
                0 <= j < i ==> (#[trigger] infos@[j])@ == placed(
                    receipts@[j].0@,
                    receipts@[j].1@,
                ),
        decreases receipts@.len() - i,
    {
        let pair = &receipts[i];
        infos.push(TransactionInfo::new(&pair.1, pair.0.clone()));
        i += 1;
    }
    assert(infos@.map_values(|info: TransactionInfo| info@) =~= receipts@.map_values(
        |pair: (TransactionSigned, ReceiptInfo)| placed(pair.0@, pair.1@),
    ));
    infos
}

/// A trace with the hash of its transaction.
#[derive(Debug)]
pub struct TransactionTrace<T> {
    /// The hash of the transaction.
    pub tx_hash: H256,
    /// The trace.
    pub trace: T,
}

/// The traces of a block with the hashes of their transactions, and the hashes that are left over.
/// A trace whose index has no hash, or none any more, is passed over.
pub open spec fn paired<T>(traces: Seq<(u32, T)>, hashes: Map<usize, H256>) -> (
    Seq<TransactionTrace<T>>,
    Map<usize, H256>,
)
    decreases traces.len(),
{
    if traces.len() == 0 {
        (seq![], hashes)
    } else {
        let (done, left) = paired(traces.drop_last(), hashes);
        let (index, trace) = traces.last();
        if left.contains_key(index as usize) {
            (
                done.push(TransactionTrace { tx_hash: left[index as usize], trace }),
                left.remove(index as usize),
            )
        } else {
            (done, left)
        }
    }
}

/// The client: what it knows of itself, and what it decides.
#[derive(Clone, Copy, Debug)]
pub struct Client {
    /// Whether the node has automine enabled.
    automine: bool,
}

impl Client {
    /// Whether the node has automine enabled.
    pub closed spec fn automines(self) -> bool {
        self.automine
    }

    /// A client of a node.
    pub fn from_backend(automine: bool) -> (client: Client)
        ensures
            client.automines() == automine,
    {
        Client { automine }
    }

    /// Check if automine is enabled.
    pub fn is_automine(&self) -> (automine: bool)
        ensures
            automine == self.automines(),
    {
        self.automine
    }

    /// The capacity of the channel that announces new blocks: there is one only where blocks are
    /// mined on demand.
    pub fn notifier_capacity(&self) -> (capacity: Option<usize>)
        ensures
            capacity == (if self.automines() {
                Some(NOTIFIER_CAPACITY)
            } else {
                None
            }),
    {
        if self.automine {
            Some(NOTIFIER_CAPACITY)
        } else {
            None
        }
    }

    /// How the hash of the given block is looked up.
    pub fn block_hash_for_tag(at: BlockNumberOrTagOrHash) -> (lookup: Result<BlockLookup, ClientError>)
        ensures
            lookup == (match at {
                BlockNumberOrTagOrHash::BlockHash(hash) => Ok(BlockLookup::EthereumHash(hash)),
                BlockNumberOrTagOrHash::BlockNumber(number) => lookup_number(number@),
                BlockNumberOrTagOrHash::BlockTag(tag) => Ok(lookup_tag(tag)),
            }),
    {
        match at {
            BlockNumberOrTagOrHash::BlockHash(hash) => Ok(BlockLookup::EthereumHash(hash)),
            BlockNumberOrTagOrHash::BlockNumber(number) => find_number(&number),
            BlockNumberOrTagOrHash::BlockTag(tag) => Ok(find_tag(tag)),
        }
    }

    /// How the given block is looked up.
    pub fn block_by_number_or_tag(block: &BlockNumberOrTag) -> (lookup: Result<
        BlockLookup,
        ClientError,
    >)
        ensures
            lookup == (match *block {
                BlockNumberOrTag::U256(number) => lookup_number(number@),
                BlockNumberOrTag::BlockTag(tag) => Ok(lookup_tag(tag)),
            }),
    {
        match block {
            BlockNumberOrTag::U256(number) => find_number(number),
            BlockNumberOrTag::BlockTag(tag) => Ok(find_tag(*tag)),
        }
    }

    /// What a lookup found, or the error that tells that it found nothing: which one depends on what
    /// the block was looked up by.
    pub fn found_block<B>(lookup: &BlockLookup, found: Option<B>) -> (block: Result<B, ClientError>)
        ensures
            block == (match found {
                Some(found) => Ok(found),
                None => Err(
                    match *lookup {
                        BlockLookup::EthereumHash(_) => ClientError::EthereumBlockNotFound,
                        _ => ClientError::BlockNotFound,
                    },
                ),
            }),
    {
        match found {
            Some(found) => Ok(found),
            None => match lookup {
                BlockLookup::EthereumHash(_) => Err(ClientError::EthereumBlockNotFound),
                _ => Err(ClientError::BlockNotFound),
            },
        }
    }

    /// The hash to look a block up by, given the Substrate hash that an Ethereum hash is mapped to, if
    /// any: an Ethereum hash that is not mapped is taken for a Substrate hash.
    pub fn block_by_ethereum_hash(ethereum_hash: &H256, substrate_hash: Option<H256>) -> (hash: H256)
        ensures
            hash == (match substrate_hash {
                Some(hash) => hash,
                None => *ethereum_hash,
            }),
    {
        match substrate_hash {
            Some(hash) => hash,
            None => *ethereum_hash,
        }
    }

    /// The range of the past blocks to index: the first number and the one behind the last.
    pub fn subscribe_and_cache_blocks(
        latest_block: u32,
        index_last_n_blocks: u32,
    ) -> (range: (u32, u32))
        ensures
            range == past_range(latest_block, index_last_n_blocks),
    {
        (latest_block.saturating_sub(index_last_n_blocks), latest_block)
    }

    /// The number of the block that the walk through a range of past blocks begins with, or nothing
    /// where the range is empty.
    pub fn first_past_block(start: u32, end: u32) -> (first: Option<u32>)
        ensures
            first == first_past_block(start, end),
    {
        if start < end {
            Some(end - 1)
        } else {
            None
        }
    }

    /// The block to go on with after a past block was processed: its parent, until the start of the
    /// range is reached.
    pub fn subscribe_past_blocks(start: u32, block_number: u32, parent_hash: H256) -> (next: Option<
        H256,
    >)
        ensures
            next == (if walks_on(start, block_number) {
                Some(parent_hash)
            } else {
                None
            }),
    {
        if start < block_number {
            Some(parent_hash)
        } else {
            None
        }
    }

    /// Whether a new block is announced, given how many listen, where there is a channel at all. Only
    /// best blocks are.
    pub fn should_notify(
        subscription_type: SubscriptionType,
        receivers: Option<usize>,
    ) -> (notify: bool)
        ensures
            notify == (subscription_type == SubscriptionType::BestBlocks && receivers is Some
                && receivers->0 > 0),
    {
        match (subscription_type, receivers) {
            (SubscriptionType::BestBlocks, Some(count)) => count > 0,
            _ => false,
        }
    }

    /// The syncing status of the chain, from the health of the node and, where it is syncing, its sync
    /// state.
    pub fn syncing(
        health: &NodeHealth,
        sync_state: Option<Result<SyncState, ClientError>>,
    ) -> (status: Result<SyncingStatus, ClientError>)
        requires
            health.is_syncing ==> sync_state is Some,
        ensures
            status == (if health.is_syncing {
                match sync_state->0 {
                    Ok(state) => Ok(
                        SyncingStatus::SyncingProgress(
                            SyncingProgress {
                                current_block: Some(U256::of(state.current_block as nat)),
                                highest_block: Some(U256::of(state.highest_block as nat)),
                                starting_block: Some(U256::of(state.starting_block as nat)),
                            },
                        ),
                    ),
                    Err(error) => Err(error),
                }
            } else {
                Ok(SyncingStatus::Bool(false))
            }),
    {
        if health.is_syncing {
            match sync_state {
                Some(Ok(state)) => Ok(
                    SyncingStatus::SyncingProgress(
                        SyncingProgress {
                            current_block: Some(U256::from_u64(state.current_block as u64)),
                            highest_block: Some(U256::from_u64(state.highest_block as u64)),
                            starting_block: Some(U256::from_u64(state.starting_block as u64)),
                        },
                    ),
                ),
                Some(Err(error)) => Err(error),
                None => Ok(SyncingStatus::Bool(false)),
            }
        } else {
            Ok(SyncingStatus::Bool(false))
        }
    }

    /// The EVM block, from what the node gave for it. Where full transactions are asked for, they are
    /// filled in from the receipts.
    pub fn evm_block<H>(
        eth_block: Result<EthBlock<H>, ClientError>,
        hydrated: Option<Result<Vec<(TransactionSigned, ReceiptInfo)>, ClientError>>,
    ) -> (block: Option<EthBlock<H>>)
        ensures
            block is Some <==> eth_block is Ok,
            block matches Some(block) ==> {
                &&& block.header == eth_block->Ok_0.header
                &&& hydrated is None ==> block.transactions == eth_block->Ok_0.transactions
                &&& hydrated matches Some(receipts) ==> block.transactions matches
                    HashesOrTransactionInfos::TransactionInfos(infos) && infos@.map_values(
                    |info: TransactionInfo| info@,
                ) == (match receipts {
                    Ok(receipts) => receipts@.map_values(
                        |pair: (TransactionSigned, ReceiptInfo)| placed(pair.0@, pair.1@),
                    ),
                    Err(_) => seq![],
                })
            },
    {
        match eth_block {
            Ok(eth_block) => match hydrated {
                Some(receipts) => Some(
                    EthBlock {
                        header: eth_block.header,
                        transactions: HashesOrTransactionInfos::TransactionInfos(hydrate(receipts)),
                    },
                ),
                None => Some(eth_block),
            },
            Err(_) => None,
        }
    }

    /// How the block to trace is looked up, or nothing where it is before the earliest indexed block:
    /// then the answer is empty and nothing is traced.
    pub fn traced_block(before_earliest_block: bool, at: BlockNumberOrTag) -> (lookup: Result<
        Option<BlockLookup>,
        ClientError,
    >)
        ensures
            lookup == (if before_earliest_block {
                Ok(None)
            } else {
                match at {
                    BlockNumberOrTag::U256(number) => match lookup_number(number@) {
                        Ok(lookup) => Ok(Some(lookup)),
                        Err(error) => Err(error),
                    },
                    BlockNumberOrTag::BlockTag(tag) => Ok(Some(lookup_tag(tag))),
                }
            }),
    {
        if before_earliest_block {
            return Ok(None);
        }
        match Self::block_hash_for_tag(at.or_hash()) {
            Ok(lookup) => Ok(Some(lookup)),
            Err(error) => Err(error),
        }
    }

    /// Pairs the traces of a block with the hashes of its transactions. It fails where the hashes could
    /// not be had.
    pub fn trace_block_by_number<T>(
        traces: Vec<(u32, T)>,
        hashes: Option<HashMap<usize, H256>>,
    ) -> (result: Result<Vec<TransactionTrace<T>>, ClientError>)
        ensures
            match (hashes, result) {
                (Some(hashes), Ok(pairs)) => pairs@ == paired(traces@, hashes@).0,
                (None, Err(error)) => error == ClientError::EthExtrinsicNotFound,
                _ => false,
            },
    {
        let mut left = match hashes {
            Some(hashes) => hashes,
            None => return Err(ClientError::EthExtrinsicNotFound),
        };
        let ghost hashes = left@;
        let ghost given = traces@;
        let mut pairs: Vec<TransactionTrace<T>> = Vec::new();
        assert(given.take(0) =~= seq![]);
        for entry in iter: traces
            invariant
                iter.seq() == given,
                (pairs@, left@) == paired(given.take(iter.index() as int), hashes),
        {
            let (index, trace) = entry;
            proof {
                let upto = given.take(iter.index() + 1);
                assert(upto.drop_last() =~= given.take(iter.index() as int));
                assert(upto.last() == entry);
            }
            match left.remove(&(index as usize)) {
                Some(tx_hash) => {
                    pairs.push(TransactionTrace { tx_hash, trace });
                },
                None => {},
            }
        }
        assert(given.take(given.len() as int) =~= given);
        Ok(pairs)
    }

    /// The block of a transaction to trace and its index in it, from where the transaction was found.
    pub fn trace_transaction(place: Option<(H256, usize)>) -> (target: Result<(H256, u32), ClientError>)
        ensures
            target == (match place {
                Some((block_hash, index)) => Ok((block_hash, index as u32)),
                None => Err(ClientError::EthExtrinsicNotFound),
            }),
    {
        match place {
            Some((block_hash, transaction_index)) => Ok((block_hash, transaction_index as u32)),
            None => Err(ClientError::EthExtrinsicNotFound),
        }
    }
}

/// A trace that is paired carries the hash that the transaction with its index has.
pub proof fn paired_traces_carry_their_own_hash<T>(
    traces: Seq<(u32, T)>,
    hashes: Map<usize, H256>,
)
    ensures
        forall|index: usize| #[trigger]
            paired(traces, hashes).1.contains_key(index) ==> hashes.contains_key(index) && paired(
                traces,
                hashes,
            ).1[index] == hashes[index],
        forall|k: int|
            0 <= k < paired(traces, hashes).0.len() ==> exists|i: int|
                0 <= i < traces.len() && (#[trigger] traces[i]).1 == (#[trigger] paired(
                    traces,
                    hashes,
                ).0[k]).trace && hashes.contains_key(traces[i].0 as usize)
                    && hashes[traces[i].0 as usize] == paired(traces, hashes).0[k].tx_hash,
    decreases traces.len(),
{
    if traces.len() > 0 {
        let before = traces.drop_last();
        let (done, left) = paired(before, hashes);
        let now = paired(traces, hashes).0;
        paired_traces_carry_their_own_hash(before, hashes);
        assert forall|k: int| 0 <= k < now.len() implies exists|i: int|
            0 <= i < traces.len() && (#[trigger] traces[i]).1 == (#[trigger] now[k]).trace
                && hashes.contains_key(traces[i].0 as usize) && hashes[traces[i].0 as usize]
                == now[k].tx_hash by {
            if k < done.len() {
                assert(now[k] == done[k]);
                let i = choose|i: int|
                    0 <= i < before.len() && (#[trigger] before[i]).1 == done[k].trace
                        && hashes.contains_key(before[i].0 as usize)
                        && hashes[before[i].0 as usize] == done[k].tx_hash;
                assert(traces[i] == before[i]);
            } else {
                let i = traces.len() - 1;
                assert(left.contains_key(traces[i].0 as usize));
                assert(traces[i].1 == now[k].trace);
            }
        }
    }
}

/// Where the indices of the traces differ and each has a hash, every trace is paired, in order.
pub proof fn every_trace_with_a_hash_is_paired<T>(traces: Seq<(u32, T)>, hashes: Map<usize, H256>)
    requires
        forall|i: int, j: int|
            0 <= i < j < traces.len() ==> (#[trigger] traces[i]).0 != (#[trigger] traces[j]).0,
        forall|i: int|
            0 <= i < traces.len() ==> hashes.contains_key((#[trigger] traces[i]).0 as usize),
    ensures
        paired(traces, hashes).0 == Seq::new(
            traces.len(),
            |i: int|
                TransactionTrace {
                    tx_hash: hashes[traces[i].0 as usize],
                    trace: traces[i].1,
                },
        ),
        forall|index: usize| #[trigger]
            paired(traces, hashes).1.contains_key(index) <==> hashes.contains_key(index) && !exists|
                i: int,
            |
                0 <= i < traces.len() && (#[trigger] traces[i]).0 as usize == index,
        forall|index: usize| #[trigger]
            paired(traces, hashes).1.contains_key(index) ==> paired(traces, hashes).1[index]
                == hashes[index],
    decreases traces.len(),
{
    if traces.len() == 0 {
        assert(paired(traces, hashes).0 =~= seq![]);
    } else {
        let before = traces.drop_last();
        let last = traces.last();
        let (done, left) = paired(before, hashes);
        assert forall|i: int| 0 <= i < before.len() implies hashes.contains_key(
            (#[trigger] before[i]).0 as usize,
        ) by {
            assert(before[i] == traces[i]);
        }
        assert forall|i: int, j: int| 0 <= i < j < before.len() implies (#[trigger] before[i]).0
            != (#[trigger] before[j]).0 by {
            assert(before[i] == traces[i] && before[j] == traces[j]);
        }
        every_trace_with_a_hash_is_paired(before, hashes);
        assert(traces[traces.len() - 1] == last);
        assert(!exists|i: int|
            0 <= i < before.len() && (#[trigger] before[i]).0 as usize == last.0 as usize) by {
            if exists|i: int|
                0 <= i < before.len() && (#[trigger] before[i]).0 as usize == last.0 as usize {
                let i = choose|i: int|
                    0 <= i < before.len() && (#[trigger] before[i]).0 as usize == last.0 as usize;
                assert(before[i] == traces[i]);
            }
        }
        assert(left.contains_key(last.0 as usize));
        let now = paired(traces, hashes);
        assert(now.0 =~= Seq::new(
            traces.len(),
            |i: int|
                TransactionTrace { tx_hash: hashes[traces[i].0 as usize], trace: traces[i].1 },
        ));
        assert forall|index: usize| #[trigger]
            now.1.contains_key(index) <==> hashes.contains_key(index) && !exists|i: int|
                0 <= i < traces.len() && (#[trigger] traces[i]).0 as usize == index by {
            if index == last.0 as usize {
                assert(traces[traces.len() - 1].0 as usize == index);
            } else {
                if exists|i: int| 0 <= i < traces.len() && (#[trigger] traces[i]).0 as usize == index {
                    let i = choose|i: int|
                        0 <= i < traces.len() && (#[trigger] traces[i]).0 as usize == index;
                    assert(before[i] == traces[i]);
                }
                if exists|i: int| 0 <= i < before.len() && (#[trigger] before[i]).0 as usize == index {
                    let i = choose|i: int|
                        0 <= i < before.len() && (#[trigger] before[i]).0 as usize == index;
                    assert(before[i] == traces[i]);
                }
            }
        }
    }
}

/// A block that is given by its number is looked up by this number, and one that is given by its hash
/// by this hash; a number that no block of the chain can have is refused. A finalized or a safe block
/// is the latest finalized one, and any other tag stands for the latest block.
pub proof fn a_block_is_looked_up_as_it_is_given(
    at: BlockNumberOrTagOrHash,
    lookup: Result<BlockLookup, ClientError>,
)
    requires
        call_ensures(Client::block_hash_for_tag, (at,), lookup),
    ensures
        at matches BlockNumberOrTagOrHash::BlockHash(hash) ==> lookup == Ok::<
            BlockLookup,
            ClientError,
        >(BlockLookup::EthereumHash(hash)),
        at matches BlockNumberOrTagOrHash::BlockNumber(number) ==> match lookup {
            Ok(BlockLookup::Number(found)) => found == number@,
            Ok(_) => false,
            Err(error) => number@ > u32::MAX && error == ClientError::ConversionFailed,
        },
        at matches BlockNumberOrTagOrHash::BlockTag(tag) ==> match lookup {
            Ok(BlockLookup::LatestFinalized) => tag is Finalized || tag is Safe,
            Ok(BlockLookup::Latest) => tag is Latest || tag is Earliest || tag is Pending,
            _ => false,
        },
{
}

/// A block is looked up by its number or tag the same way, whether a hash would have done as well or
/// not, and the block to trace is too, unless it is before the earliest one: then nothing is traced.
pub proof fn the_lookups_of_a_block_agree(
    at: BlockNumberOrTag,
    converted: BlockNumberOrTagOrHash,
    by_hash: Result<BlockLookup, ClientError>,
    by_number: Result<BlockLookup, ClientError>,
    is_before: bool,
    traced: Result<Option<BlockLookup>, ClientError>,
)
    requires
        call_ensures(BlockNumberOrTag::or_hash, (at,), converted),
        call_ensures(Client::block_hash_for_tag, (converted,), by_hash),
        call_ensures(Client::block_by_number_or_tag, (&at,), by_number),
        call_ensures(Client::traced_block, (is_before, at), traced),
    ensures
        by_number == by_hash,
        is_before ==> traced == Ok::<Option<BlockLookup>, ClientError>(None),
        !is_before ==> match by_number {
            Ok(lookup) => traced == Ok::<Option<BlockLookup>, ClientError>(Some(lookup)),
            Err(error) => traced == Err::<Option<BlockLookup>, ClientError>(error),
        },
        at matches BlockNumberOrTag::U256(number) ==> converted
            == BlockNumberOrTagOrHash::BlockNumber(number),
        at matches BlockNumberOrTag::BlockTag(tag) ==> converted
            == BlockNumberOrTagOrHash::BlockTag(tag),
{
}

/// What is found is handed back, and where nothing is, the error tells what the block was looked up
/// by.
pub proof fn a_found_block_is_handed_back<B>(
    lookup: BlockLookup,
    found: Option<B>,
    block: Result<B, ClientError>,
)
    requires
        call_ensures(Client::found_block::<B>, (&lookup, found), block),
    ensures
        found matches Some(value) ==> block == Ok::<B, ClientError>(value),
        found is None && lookup is EthereumHash ==> block == Err::<B, ClientError>(
            ClientError::EthereumBlockNotFound,
        ),
        found is None && !(lookup is EthereumHash) ==> block == Err::<B, ClientError>(
            ClientError::BlockNotFound,
        ),
{
}

/// An Ethereum hash stands for the Substrate hash that it is mapped to, and for itself where it is
/// not mapped.
pub proof fn a_mapped_hash_is_followed(
    ethereum_hash: H256,
    substrate_hash: Option<H256>,
    hash: H256,
)
    requires
        call_ensures(Client::block_by_ethereum_hash, (&ethereum_hash, substrate_hash), hash),
    ensures
        substrate_hash is Some ==> hash == substrate_hash->0,
        substrate_hash is None ==> hash == ethereum_hash,
{
}

/// Indexing the last `n` blocks processes the `n` blocks right before the latest one, or all past
/// blocks where there are fewer: the range begins where it has to, the walk begins with the last
/// block of the range, goes on to the parent of every block but the first, and ends there.
pub proof fn the_last_blocks_are_walked(
    latest_block: u32,
    n: u32,
    range: (u32, u32),
    first: Option<u32>,
    block_number: u32,
    parent_hash: H256,
    next: Option<H256>,
)
    requires
        call_ensures(Client::subscribe_and_cache_blocks, (latest_block, n), range),
        call_ensures(Client::first_past_block, (range.0, range.1), first),
        call_ensures(
            Client::subscribe_past_blocks,
            (range.0, block_number, parent_hash),
            next,
        ),
    ensures
        range.1 == latest_block,
        range.1 - range.0 == (if latest_block < n {
            latest_block
        } else {
            n
        }),
        first is Some <==> n > 0 && latest_block > 0,
        first matches Some(number) ==> number == latest_block - 1,
        next is Some <==> block_number > range.0,
        next is Some ==> next->0 == parent_hash,
{
}

/// Only best blocks are announced, and only where somebody listens.
pub proof fn best_blocks_are_announced_to_listeners(
    subscription_type: SubscriptionType,
    receivers: Option<usize>,
    notify: bool,
)
    requires
        call_ensures(Client::should_notify, (subscription_type, receivers), notify),
    ensures
        subscription_type is FinalizedBlocks ==> !notify,
        receivers is None || receivers->0 == 0 ==> !notify,
        subscription_type is BestBlocks && receivers is Some && receivers->0 > 0 ==> notify,
{
}

/// A node that is not syncing says so, and one that is tells its blocks.
pub proof fn a_syncing_node_tells_its_blocks(
    health: NodeHealth,
    sync_state: Option<Result<SyncState, ClientError>>,
    status: Result<SyncingStatus, ClientError>,
)
    requires
        health.is_syncing ==> sync_state is Some,
        call_ensures(Client::syncing, (&health, sync_state), status),
    ensures
        !health.is_syncing ==> status == Ok::<SyncingStatus, ClientError>(
            SyncingStatus::Bool(false),
        ),
        health.is_syncing ==> match sync_state->0 {
            Ok(state) => match status {
                Ok(SyncingStatus::SyncingProgress(progress)) => {
                    &&& progress.current_block matches Some(block) && block@ == state.current_block
                    &&& progress.highest_block matches Some(block) && block@ == state.highest_block
                    &&& progress.starting_block matches Some(block) && block@
                        == state.starting_block
                },
                _ => false,
            },
            Err(error) => status == Err::<SyncingStatus, ClientError>(error),
        },
{
}

/// Whether a transaction has the place that its receipt gives it.
pub open spec fn is_placed(
    info: TransactionInfo,
    tx: TransactionSigned,
    receipt: ReceiptInfo,
) -> bool {
    &&& info.block_hash@ == receipt.block_hash@
    &&& info.block_number@ == receipt.block_number@
    &&& info.from@ == receipt.from@
    &&& info.hash@ == receipt.transaction_hash@
    &&& info.transaction_index@ == receipt.transaction_index@
    &&& info.transaction_signed@ == tx@
}

/// A transaction is told with the place that its receipt gives it.
pub proof fn a_transaction_is_told_with_its_place(
    receipt: ReceiptInfo,
    tx: TransactionSigned,
    info: TransactionInfo,
)
    requires
        call_ensures(TransactionInfo::new, (&receipt, tx), info),
    ensures
        is_placed(info, tx, receipt),
{
}

/// The block that is told is the one that the node gave, with its transactions as the node gave them
/// or, where full transactions are asked for, with one for each receipt, in order, and none where the
/// receipts could not be had. Where the node gave none, none is told.
pub proof fn the_block_of_the_node_is_told<H>(
    eth_block: Result<EthBlock<H>, ClientError>,
    hydrated: Option<Result<Vec<(TransactionSigned, ReceiptInfo)>, ClientError>>,
    block: Option<EthBlock<H>>,
)
    requires
        call_ensures(Client::evm_block::<H>, (eth_block, hydrated), block),
    ensures
        eth_block is Err ==> block is None,
        eth_block matches Ok(given) ==> block is Some && block->0.header == given.header,
        eth_block is Ok && hydrated is None ==> block->0.transactions
            == eth_block->Ok_0.transactions,
        eth_block is Ok && hydrated is Some ==> match block->0.transactions {
            HashesOrTransactionInfos::TransactionInfos(infos) => match hydrated->0 {
                Ok(receipts) => infos@.len() == receipts@.len() && forall|i: int|
                    0 <= i < infos@.len() ==> is_placed(
                        #[trigger] infos@[i],
                        receipts@[i].0,
                        receipts@[i].1,
                    ),
                Err(_) => infos@.len() == 0,
            },
            HashesOrTransactionInfos::Hashes(_) => false,
        },
{
    if eth_block is Ok && hydrated is Some {
        if let HashesOrTransactionInfos::TransactionInfos(infos) = block->0.transactions {
            lemma_placed(hydrated->0, infos);
        }
    }
}

/// Each transaction of a block is told with its place, in order, and none where the receipts could
/// not be had.
pub proof fn each_transaction_is_told_with_its_place(
    receipts: Result<Vec<(TransactionSigned, ReceiptInfo)>, ClientError>,
    infos: Vec<TransactionInfo>,
)
    requires
        call_ensures(hydrate, (receipts,), infos),
    ensures
        receipts is Err ==> infos@.len() == 0,
        receipts matches Ok(receipts) ==> infos@.len() == receipts@.len() && forall|i: int|
            0 <= i < infos@.len() ==> is_placed(
                #[trigger] infos@[i],
                receipts@[i].0,
                receipts@[i].1,
            ),
{
    lemma_placed(receipts, infos);
}

proof fn lemma_placed(
    receipts: Result<Vec<(TransactionSigned, ReceiptInfo)>, ClientError>,
    infos: Vec<TransactionInfo>,
)
    requires
        infos@.map_values(|info: TransactionInfo| info@) == (match receipts {
            Ok(receipts) => receipts@.map_values(
                |pair: (TransactionSigned, ReceiptInfo)| placed(pair.0@, pair.1@),
            ),
            Err(_) => seq![],
        }),
    ensures
        receipts is Err ==> infos@.len() == 0,
        receipts matches Ok(receipts) ==> infos@.len() == receipts@.len() && forall|i: int|
            0 <= i < infos@.len() ==> is_placed(
                #[trigger] infos@[i],
                receipts@[i].0,
                receipts@[i].1,
            ),
{
    let views = infos@.map_values(|info: TransactionInfo| info@);
    assert(views.len() == infos@.len());
    if let Ok(receipts) = receipts {
        let expected = receipts@.map_values(
            |pair: (TransactionSigned, ReceiptInfo)| placed(pair.0@, pair.1@),
        );
        assert(expected.len() == receipts@.len());
        assert forall|i: int| 0 <= i < infos@.len() implies is_placed(
            #[trigger] infos@[i],
            receipts@[i].0,
            receipts@[i].1,
        ) by {
            assert(views[i] == infos@[i]@);
            assert(expected[i] == placed(receipts@[i].0@, receipts@[i].1@));
        }
    }
}

/// Every trace that is told is one of those given, with the hash that is given for its index. Where
/// the indices differ and each has a hash, each trace is told, in order. Without hashes it fails.
pub proof fn each_trace_is_told_with_its_own_hash<T>(
    traces: Vec<(u32, T)>,
    hashes: Option<HashMap<usize, H256>>,
    result: Result<Vec<TransactionTrace<T>>, ClientError>,
)
    requires
        call_ensures(Client::trace_block_by_number::<T>, (traces, hashes), result),
    ensures
        hashes is None ==> result == Err::<Vec<TransactionTrace<T>>, ClientError>(
            ClientError::EthExtrinsicNotFound,
        ),
        hashes is Some ==> result is Ok,
        hashes is Some ==> forall|k: int|
            0 <= k < result->Ok_0@.len() ==> exists|i: int|
                0 <= i < traces@.len() && (#[trigger] traces@[i]).1 == (
                #[trigger] result->Ok_0@[k]).trace && hashes->0@.contains_key(
                    traces@[i].0 as usize,
                ) && hashes->0@[traces@[i].0 as usize] == result->Ok_0@[k].tx_hash,
        hashes is Some && (forall|i: int, j: int|
            0 <= i < j < traces@.len() ==> (#[trigger] traces@[i]).0 != (#[trigger] traces@[j]).0)
            && (forall|i: int|
            0 <= i < traces@.len() ==> hashes->0@.contains_key((#[trigger] traces@[i]).0 as usize))
            ==> result->Ok_0@.len() == traces@.len() && forall|i: int|
            0 <= i < traces@.len() ==> (#[trigger] result->Ok_0@[i]).trace == traces@[i].1
                && result->Ok_0@[i].tx_hash == hashes->0@[traces@[i].0 as usize],
{
    if let Some(hashes) = hashes {
        paired_traces_carry_their_own_hash(traces@, hashes@);
        if (forall|i: int, j: int|
            0 <= i < j < traces@.len() ==> (#[trigger] traces@[i]).0 != (#[trigger] traces@[j]).0)
            && (forall|i: int|
            0 <= i < traces@.len() ==> hashes@.contains_key((#[trigger] traces@[i]).0 as usize)) {
            every_trace_with_a_hash_is_paired(traces@, hashes@);
        }
    }
}

/// Whether a trace is told: its index has a hash, and no trace before it has the same index.
pub open spec fn is_told<T>(traces: Seq<(u32, T)>, hashes: Map<usize, H256>, i: int) -> bool {
    &&& hashes.contains_key(traces[i].0 as usize)
    &&& forall|j: int| 0 <= j < i ==> (#[trigger] traces[j]).0 != traces[i].0
}

/// Whether these are the places of the traces that are told, in order.
pub open spec fn are_told_places<T>(
    traces: Seq<(u32, T)>,
    hashes: Map<usize, H256>,
    places: Seq<int>,
) -> bool {
    &&& forall|k: int|
        0 <= k < places.len() ==> 0 <= #[trigger] places[k] < traces.len() && is_told(
            traces,
            hashes,
            places[k],
        )
    &&& forall|k: int, l: int|
        0 <= k < l < places.len() ==> #[trigger] places[k] < #[trigger] places[l]
    &&& forall|i: int| 0 <= i < traces.len() && #[trigger] is_told(traces, hashes, i)
        ==> places.contains(i)
}

proof fn lemma_told_places<T>(traces: Seq<(u32, T)>, hashes: Map<usize, H256>) -> (places: Seq<int>)
    ensures
        are_told_places(traces, hashes, places),
        places.len() == paired(traces, hashes).0.len(),
        forall|k: int|
            0 <= k < places.len() ==> (#[trigger] paired(traces, hashes).0[k]).trace
                == traces[places[k]].1 && paired(traces, hashes).0[k].tx_hash
                == hashes[traces[places[k]].0 as usize],
        forall|index: usize| #[trigger]
            paired(traces, hashes).1.contains_key(index) <==> hashes.contains_key(index) && forall|
                j: int,
            |
                0 <= j < traces.len() ==> (#[trigger] traces[j]).0 as usize != index,
        forall|index: usize| #[trigger]
            paired(traces, hashes).1.contains_key(index) ==> paired(traces, hashes).1[index]
                == hashes[index],
    decreases traces.len(),
{
    if traces.len() == 0 {
        seq![]
    } else {
        let before = traces.drop_last();
        let n = before.len() as int;
        let earlier = lemma_told_places(before, hashes);
        let (done, left) = paired(before, hashes);
        let now = paired(traces, hashes);
        let index = traces[n].0 as usize;
        assert forall|i: int| 0 <= i < n implies #[trigger] before[i] == traces[i] by {}
        assert forall|i: int| 0 <= i < n implies #[trigger] is_told(traces, hashes, i) == is_told(
            before,
            hashes,
            i,
        ) by {
            assert(before[i] == traces[i]);
            if is_told(traces, hashes, i) {
                assert forall|j: int| 0 <= j < i implies (#[trigger] before[j]).0 != before[i].0 by {
                    assert(before[j] == traces[j]);
                }
            }
            if is_told(before, hashes, i) {
                assert forall|j: int| 0 <= j < i implies (#[trigger] traces[j]).0 != traces[i].0 by {
                    assert(before[j] == traces[j]);
                }
            }
        }
        assert(left.contains_key(index) == is_told(traces, hashes, n)) by {
            if is_told(traces, hashes, n) {
                assert forall|j: int| 0 <= j < n implies (#[trigger] before[j]).0 as usize
                    != index by {
                    assert(before[j] == traces[j]);
                }
            }
            if left.contains_key(index) {
                assert forall|j: int| 0 <= j < n implies (#[trigger] traces[j]).0
                    != traces[n].0 by {
                    assert(before[j] == traces[j]);
                }
            }
        }
        assert forall|other: usize| #[trigger]
            now.1.contains_key(other) <==> hashes.contains_key(other) && forall|j: int|
                0 <= j < traces.len() ==> (#[trigger] traces[j]).0 as usize != other by {
            if left.contains_key(other) && other != index {
                assert forall|j: int| 0 <= j < traces.len() implies (#[trigger] traces[j]).0 as usize
                    != other by {
                    if j < n {
                        assert(before[j] == traces[j]);
                    }
                }
            }
            if forall|j: int| 0 <= j < traces.len() ==> (#[trigger] traces[j]).0 as usize != other {
                assert(traces[n].0 as usize != other);
                assert forall|j: int| 0 <= j < n implies (#[trigger] before[j]).0 as usize
                    != other by {
                    assert(before[j] == traces[j]);
                }
            }
            if now.1.contains_key(other) && other == index {
                assert(!left.contains_key(index));
            }
        }
        let places = if left.contains_key(index) {
            earlier.push(n)
        } else {
            earlier
        };
        assert forall|i: int| 0 <= i < traces.len() && #[trigger] is_told(
            traces,
            hashes,
            i,
        ) implies places.contains(i) by {
            if i < n {
                assert(is_told(before, hashes, i));
                let k = choose|k: int| 0 <= k < earlier.len() && earlier[k] == i;
                assert(places[k] == i);
            } else {
                assert(places[places.len() - 1] == n);
            }
        }
        assert forall|k: int| 0 <= k < places.len() implies 0 <= #[trigger] places[k]
            < traces.len() && is_told(traces, hashes, places[k]) by {
            if k < earlier.len() {
                assert(places[k] == earlier[k]);
                assert(is_told(before, hashes, earlier[k]));
            }
        }
        assert forall|k: int| 0 <= k < places.len() implies (#[trigger] now.0[k]).trace
            == traces[places[k]].1 && now.0[k].tx_hash == hashes[traces[places[k]].0 as usize] by {
            if k < earlier.len() {
                assert(places[k] == earlier[k]);
                assert(now.0[k] == done[k]);
                assert(before[earlier[k]] == traces[places[k]]);
            }
        }
        places
    }
}

/// What is told are the traces whose index has a hash, each index once and in the order in which
/// they are given, each with the hash of its index.
pub proof fn the_traces_with_a_hash_are_told_once<T>(
    traces: Vec<(u32, T)>,
    hashes: HashMap<usize, H256>,
    result: Result<Vec<TransactionTrace<T>>, ClientError>,
) -> (places: Seq<int>)
    requires
        call_ensures(Client::trace_block_by_number::<T>, (traces, Some(hashes)), result),
    ensures
        are_told_places(traces@, hashes@, places),
        result is Ok,
        result->Ok_0@.len() == places.len(),
        forall|k: int|
            0 <= k < places.len() ==> (#[trigger] result->Ok_0@[k]).trace == traces@[places[k]].1
                && result->Ok_0@[k].tx_hash == hashes@[traces@[places[k]].0 as usize],
{
    lemma_told_places(traces@, hashes@)
}

/// A transaction is traced in the block and at the index where it was found, and one that was not
/// found is not traced.
pub proof fn a_transaction_is_traced_where_it_was_found(
    place: Option<(H256, usize)>,
    target: Result<(H256, u32), ClientError>,
)
    requires
        call_ensures(Client::trace_transaction, (place,), target),
    ensures
        place is None ==> target == Err::<(H256, u32), ClientError>(
            ClientError::EthExtrinsicNotFound,
        ),
        place matches Some((hash, index)) ==> (target matches Ok((block, at)) && block == hash && (
        index <= u32::MAX ==> at == index)),
{
}

/// There is a channel for sixteen announcements exactly where blocks are mined on demand.
pub proof fn only_automine_announces_blocks(
    automine: bool,
    client: Client,
    told: bool,
    capacity: Option<usize>,
)
    requires
        call_ensures(Client::from_backend, (automine,), client),
        call_ensures(Client::is_automine, (&client,), told),
        call_ensures(Client::notifier_capacity, (&client,), capacity),
    ensures
        told == automine,
        automine ==> capacity == Some(16usize),
        !automine ==> capacity is None,
{
}

/// A status that tells that a transaction is out of the pool is the error of the same name.
pub proof fn a_lost_transaction_is_told_by_its_status(status: SubmitResult, error: SubmitError)
    requires
        call_ensures(
            <SubmitError as From<SubmitResult>>::from,
            (status,),
            error,
        ),
    ensures
        status is Usurped <==> error is Usurped,
        status is Dropped <==> error is Dropped,
        status is Invalid <==> error is Invalid,
        !(error is StreamEnded),
{
}

} // verus!

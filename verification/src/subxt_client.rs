//! The decisions of a client that talks to a node over a connection.

use crate::error::{ClientError, SubmitError};
use crate::primitives::H256;
use crate::substrate_client::{BlockInfo, SubmitResult, TransactionStatus, Weight};
use vstd::prelude::*;

verus! {

/// The status of a transaction as the node reports it. It does not tell the index in a block.
#[derive(Debug)]
pub enum SubxtTxStatus {
    /// The transaction waits for others before it.
    Future,
    /// The transaction is ready.
    Ready,
    /// The transaction was broadcast to these peers.
    Broadcast(Vec<String>),
    /// The transaction is in a block.
    InBlock(H256),
    /// The block that held the transaction was retracted.
    Retracted(H256),
    /// The block that holds the transaction was not finalized in time.
    FinalityTimeout(H256),
    /// The transaction is in a finalized block.
    Finalized(H256),
    /// The transaction was replaced by another.
    Usurped(H256),
    /// The transaction was dropped from the pool.
    Dropped,
    /// The transaction is no longer valid.
    Invalid,
}

/// The pool status that a reported status stands for. The index in a block, which is not told, is
/// zero.
pub open spec fn pool_status(status: SubxtTxStatus) -> SubmitResult {
    match status {
        SubxtTxStatus::Future => TransactionStatus::Future,
        SubxtTxStatus::Ready => TransactionStatus::Ready,
        SubxtTxStatus::Broadcast(peers) => TransactionStatus::Broadcast(peers),
        SubxtTxStatus::InBlock(hash) => TransactionStatus::InBlock(hash, 0),
        SubxtTxStatus::Retracted(hash) => TransactionStatus::Retracted(hash),
        SubxtTxStatus::FinalityTimeout(hash) => TransactionStatus::FinalityTimeout(hash),
        SubxtTxStatus::Finalized(hash) => TransactionStatus::Finalized(hash, 0),
        SubxtTxStatus::Usurped(hash) => TransactionStatus::Usurped(hash),
        SubxtTxStatus::Dropped => TransactionStatus::Dropped,
        SubxtTxStatus::Invalid => TransactionStatus::Invalid,
    }
}

/// The pool status that a reported status stands for.
pub fn subxt_tx_status_to_submit_result(status: SubxtTxStatus) -> (result: SubmitResult)
    ensures
        result == pool_status(status),
{
    match status {
        SubxtTxStatus::Future => TransactionStatus::Future,
        SubxtTxStatus::Ready => TransactionStatus::Ready,
        SubxtTxStatus::Broadcast(peers) => TransactionStatus::Broadcast(peers),
        SubxtTxStatus::InBlock(hash) => TransactionStatus::InBlock(hash, 0),
        SubxtTxStatus::Retracted(hash) => TransactionStatus::Retracted(hash),
        SubxtTxStatus::FinalityTimeout(hash) => TransactionStatus::FinalityTimeout(hash),
        SubxtTxStatus::Finalized(hash) => TransactionStatus::Finalized(hash, 0),
        SubxtTxStatus::Usurped(hash) => TransactionStatus::Usurped(hash),
        SubxtTxStatus::Dropped => TransactionStatus::Dropped,
        SubxtTxStatus::Invalid => TransactionStatus::Invalid,
    }
}

/// What is first heard of a transaction that was submitted.
#[derive(Debug)]
pub enum SubmitEvent {
    /// The node reported a status.
    Status(SubxtTxStatus),
    /// The connection failed.
    Failed(ClientError),
    /// The node reported nothing.
    Ended,
    /// Nothing was heard in time.
    TimedOut,
}

/// What came of a submission. A status that tells that the transaction is out of the pool is an
/// error, any other one is the result.
pub open spec fn submission(event: SubmitEvent) -> Result<SubmitResult, ClientError> {
    match event {
        SubmitEvent::Status(SubxtTxStatus::Usurped(_)) => Err(
            ClientError::SubmitError(SubmitError::Usurped),
        ),
        SubmitEvent::Status(SubxtTxStatus::Dropped) => Err(
            ClientError::SubmitError(SubmitError::Dropped),
        ),
        SubmitEvent::Status(SubxtTxStatus::Invalid) => Err(
            ClientError::SubmitError(SubmitError::Invalid),
        ),
        SubmitEvent::Status(status) => Ok(pool_status(status)),
        SubmitEvent::Failed(error) => Err(error),
        SubmitEvent::Ended => Err(ClientError::SubmitError(SubmitError::StreamEnded)),
        SubmitEvent::TimedOut => Err(ClientError::Timeout),
    }
}

/// How long the first report on a submission is waited for, in seconds.
pub const SUBMISSION_TIMEOUT_SECS: u64 = 5;

/// An item of a subscription to blocks.
#[derive(Debug)]
pub enum StreamItem<B> {
    /// A block.
    Block(B),
    /// The connection was lost and is being restored.
    Reconnecting,
    /// The subscription failed.
    Failed(ClientError),
}

/// What to do with an item of a subscription to blocks.
#[derive(Debug)]
pub enum StreamStep<B> {
    /// Call the callback with the block and go on, whatever comes of it.
    Deliver(B),
    /// Go on.
    Skip,
    /// Give up.
    Fail(ClientError),
}

/// Why a block could not be fetched.
#[derive(Debug)]
pub enum FetchError {
    /// There is no such block.
    NotFound,
    /// The request failed.
    Failed(ClientError),
}

/// A client that talks to a node over a connection: what it knows of itself.
#[derive(Clone, Copy, Debug, PartialEq, Eq, Structural)]
pub struct SubxtClient {
    /// The EVM chain id.
    pub chain_id: u64,
    /// The maximum weight of a block.
    pub max_block_weight: Weight,
}

impl SubxtClient {
    /// Create a new client from the constants of the runtime: the weight of a block that counts is
    /// the most that a normal extrinsic may take, or that of a whole block where there is no such
    /// limit.
    pub fn new(
        chain_id: u64,
        max_normal_extrinsic: Option<Weight>,
        max_block: Weight,
    ) -> (client: SubxtClient)
        ensures
            client == (SubxtClient {
                chain_id,
                max_block_weight: match max_normal_extrinsic {
                    Some(weight) => weight,
                    None => max_block,
                },
            }),
    {
        SubxtClient { chain_id, max_block_weight: max_normal_extrinsic.unwrap_or(max_block) }
    }

    /// Return the EVM chain-id constant.
    pub fn chain_id(&self) -> (chain_id: u64)
        ensures
            chain_id == self.chain_id,
    {
        self.chain_id
    }

    /// Return the maximum block weight.
    pub fn max_block_weight(&self) -> (weight: Weight)
        ensures
            weight == self.max_block_weight,
    {
        self.max_block_weight
    }

    /// A block that was fetched by its hash. That there is none is no error.
    pub fn block_by_hash(fetched: Result<BlockInfo, FetchError>) -> (block: Result<
        Option<BlockInfo>,
        ClientError,
    >)
        ensures
            block == (match fetched {
                Ok(block) => Ok(Some(block)),
                Err(FetchError::NotFound) => Ok(None),
                Err(FetchError::Failed(error)) => Err(error),
            }),
    {
        match fetched {
            Ok(block) => Ok(Some(block)),
            Err(FetchError::NotFound) => Ok(None),
            Err(FetchError::Failed(error)) => Err(error),
        }
    }

    /// What came of a submission, from what was first heard of it.
    pub fn submit_extrinsic(event: SubmitEvent) -> (result: Result<SubmitResult, ClientError>)
        ensures
            result == submission(event),
    {
        match event {
            SubmitEvent::Status(status) => {
                let pool_status = subxt_tx_status_to_submit_result(status);
                match pool_status {
                    TransactionStatus::Usurped(_)
                    | TransactionStatus::Dropped
                    | TransactionStatus::Invalid => Err(
                        ClientError::SubmitError(SubmitError::from(pool_status)),
                    ),
                    other => Ok(other),
                }
            },
            SubmitEvent::Failed(error) => Err(error),
            SubmitEvent::Ended => Err(ClientError::SubmitError(SubmitError::StreamEnded)),
            SubmitEvent::TimedOut => Err(ClientError::Timeout),
        }
    }

    /// What to do with an item of a subscription to blocks.
    pub fn subscribe_blocks<B>(item: StreamItem<B>) -> (step: StreamStep<B>)
        ensures
            step == (match item {
                StreamItem::Block(block) => StreamStep::Deliver(block),
                StreamItem::Reconnecting => StreamStep::Skip,
                StreamItem::Failed(error) => StreamStep::Fail(error),
            }),
    {
        match item {
            StreamItem::Block(block) => StreamStep::Deliver(block),
            StreamItem::Reconnecting => StreamStep::Skip,
            StreamItem::Failed(error) => StreamStep::Fail(error),
        }
    }

    /// Whether automine is enabled: a node that does not know the question has none.
    pub fn get_automine(reply: Option<bool>) -> (automine: bool)
        ensures
            automine == (reply == Some(true)),
    {
        reply.unwrap_or(false)
    }
}

/// A submission succeeds only with a status that leaves the transaction in the pool or in a block,
/// and no status is reported as unknown.
pub proof fn a_submission_never_succeeds_with_a_lost_transaction(event: SubmitEvent)
    ensures
        submission(event) matches Ok(status) ==> !(status is Usurped) && !(status is Dropped) && !(
        status is Invalid),
        submission(event) != Err::<SubmitResult, ClientError>(
            ClientError::SubmitError(SubmitError::Unknown),
        ) || event is Failed,
{
}

/// A reported status becomes the pool status of the same name, with the same block or peers.
pub proof fn a_status_keeps_its_name(status: SubxtTxStatus, result: SubmitResult)
    requires
        call_ensures(subxt_tx_status_to_submit_result, (status,), result),
    ensures
        status is Future <==> result is Future,
        status is Ready <==> result is Ready,
        status is Broadcast <==> result is Broadcast,
        status matches SubxtTxStatus::Broadcast(peers) ==> result
            == TransactionStatus::Broadcast(peers),
        status is InBlock <==> result is InBlock,
        status matches SubxtTxStatus::InBlock(hash) ==> result == TransactionStatus::InBlock(
            hash,
            0,
        ),
        status is Retracted <==> result is Retracted,
        status matches SubxtTxStatus::Retracted(hash) ==> result == TransactionStatus::Retracted(
            hash,
        ),
        status is FinalityTimeout <==> result is FinalityTimeout,
        status matches SubxtTxStatus::FinalityTimeout(hash) ==> result
            == TransactionStatus::FinalityTimeout(hash),
        status is Finalized <==> result is Finalized,
        status matches SubxtTxStatus::Finalized(hash) ==> result == TransactionStatus::Finalized(
            hash,
            0,
        ),
        status is Usurped <==> result is Usurped,
        status matches SubxtTxStatus::Usurped(hash) ==> result == TransactionStatus::Usurped(hash),
        status is Dropped <==> result is Dropped,
        status is Invalid <==> result is Invalid,
{
}

/// A submission fails with the connection, where nothing is heard, and where the first status tells
/// that the transaction is out of the pool; else it succeeds with that status.
pub proof fn a_submission_ends_with_what_was_heard(
    event: SubmitEvent,
    result: Result<SubmitResult, ClientError>,
)
    requires
        call_ensures(SubxtClient::submit_extrinsic, (event,), result),
    ensures
        event matches SubmitEvent::Failed(error) ==> result == Err::<SubmitResult, ClientError>(
            error,
        ),
        event is Ended ==> result == Err::<SubmitResult, ClientError>(
            ClientError::SubmitError(SubmitError::StreamEnded),
        ),
        event is TimedOut ==> result == Err::<SubmitResult, ClientError>(ClientError::Timeout),
        event matches SubmitEvent::Status(status) ==> {
            &&& result is Err <==> status is Usurped || status is Dropped || status is Invalid
            &&& status is Usurped ==> result->Err_0 == ClientError::SubmitError(
                SubmitError::Usurped,
            )
            &&& status is Dropped ==> result->Err_0 == ClientError::SubmitError(
                SubmitError::Dropped,
            )
            &&& status is Invalid ==> result->Err_0 == ClientError::SubmitError(
                SubmitError::Invalid,
            )
            &&& result is Ok ==> call_status(status, result->Ok_0)
        },
{
}

/// Whether a pool status has the name of a reported one and speaks of the same block or peers.
pub open spec fn call_status(status: SubxtTxStatus, result: SubmitResult) -> bool {
    match (status, result) {
        (SubxtTxStatus::Future, TransactionStatus::Future) => true,
        (SubxtTxStatus::Ready, TransactionStatus::Ready) => true,
        (SubxtTxStatus::Broadcast(peers), TransactionStatus::Broadcast(others)) => peers == others,
        (SubxtTxStatus::InBlock(hash), TransactionStatus::InBlock(block, _)) => hash == block,
        (SubxtTxStatus::Retracted(hash), TransactionStatus::Retracted(block)) => hash == block,
        (SubxtTxStatus::FinalityTimeout(hash), TransactionStatus::FinalityTimeout(block)) => hash
            == block,
        (SubxtTxStatus::Finalized(hash), TransactionStatus::Finalized(block, _)) => hash == block,
        _ => false,
    }
}

/// A client knows what it was made from: the weight of a block that counts is the most that a normal
/// extrinsic may take, or that of a whole block where there is no such limit.
pub proof fn a_connected_client_knows_what_it_was_made_from(
    chain_id: u64,
    max_normal_extrinsic: Option<Weight>,
    max_block: Weight,
    client: SubxtClient,
    told_id: u64,
    told_weight: Weight,
)
    requires
        call_ensures(SubxtClient::new, (chain_id, max_normal_extrinsic, max_block), client),
        call_ensures(SubxtClient::chain_id, (&client,), told_id),
        call_ensures(SubxtClient::max_block_weight, (&client,), told_weight),
    ensures
        told_id == chain_id,
        max_normal_extrinsic is Some ==> told_weight == max_normal_extrinsic->0,
        max_normal_extrinsic is None ==> told_weight == max_block,
{
}

/// A block that is not there is no error, a request that failed is; a block of a subscription is
/// delivered, a lost connection is passed over, and a failure ends the subscription; automine is
/// enabled only where the node says so.
pub proof fn what_the_node_sends_is_handed_on<B>(
    fetched: Result<BlockInfo, FetchError>,
    block: Result<Option<BlockInfo>, ClientError>,
    item: StreamItem<B>,
    step: StreamStep<B>,
    reply: Option<bool>,
    automine: bool,
)
    requires
        call_ensures(SubxtClient::block_by_hash, (fetched,), block),
        call_ensures(SubxtClient::subscribe_blocks::<B>, (item,), step),
        call_ensures(SubxtClient::get_automine, (reply,), automine),
    ensures
        fetched matches Ok(found) ==> block == Ok::<Option<BlockInfo>, ClientError>(Some(found)),
        fetched matches Err(FetchError::NotFound) ==> block == Ok::<
            Option<BlockInfo>,
            ClientError,
        >(None),
        fetched matches Err(FetchError::Failed(error)) ==> block == Err::<
            Option<BlockInfo>,
            ClientError,
        >(error),
        item matches StreamItem::Block(found) ==> step == StreamStep::Deliver(found),
        item is Reconnecting ==> step is Skip,
        item matches StreamItem::Failed(error) ==> step == StreamStep::<B>::Fail(error),
        automine <==> reply is Some && reply->0,
{
}

} // verus!

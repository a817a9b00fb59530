//! The decisions of a client that runs inside the node.

use crate::client::SubscriptionType;
use crate::error::{ClientError, EthTransactError};
use crate::primitives::U256;
use crate::receipt_extractor::{ETH_TRANSACT_CALL_INDEX, PALLET_REVIVE_INDEX};
use crate::scale::encode_byte_string;
use crate::substrate_client::{index_extrinsics, NodeHealth, RawExtrinsic, SubmitResult, SyncState,
    TransactionStatus, Weight};
use vstd::prelude::*;

verus! {

/// An error of the node, as its text.
pub fn native_err(text: String) -> (error: ClientError)
    ensures
        error == ClientError::NativeClientError(text),
{
    ClientError::NativeClientError(text)
}

/// Calls `OpaqueExtrinsic::try_from_encoded_extrinsic` of the `sp-runtime` crate and hands back the
/// bytes of the extrinsic: it reads a compact length and then that many bytes from the front of the
/// payload, and fails where the length is not in its shortest form or the payload is too short.
#[verifier::external_body]
fn decode_opaque_extrinsic(payload: &[u8]) -> (extrinsic: Option<Vec<u8>>)
    ensures
        match extrinsic {
            Some(extrinsic) => crate::scale::byte_string(payload@) == Some(extrinsic@),
            None => crate::scale::byte_string(payload@) is None,
        },
{
    let extrinsic = sp_runtime::OpaqueExtrinsic::try_from_encoded_extrinsic(payload);
    extrinsic.ok().map(|extrinsic| extrinsic.inner().to_vec())
}

/// The version byte of an unsigned extrinsic.
pub const EXTRINSIC_FORMAT_VERSION: u8 = 5;

/// The greatest length that a length prefix can hold.
pub const MAX_EXTRINSIC_LENGTH: usize = 0xffff_ffff;

/// The greatest length of an extrinsic that is recognised again: beyond it the length prefix is of a
/// form that the search for Ethereum transactions passes over.
pub const MAX_RECOGNISED_LENGTH: usize = 0x3fff_ffff;

/// The unsigned `eth_transact` extrinsic with this payload, without its length prefix: a version
/// byte, the indices of the pallet and of the call, and the payload as a byte string.
pub open spec fn unsigned_extrinsic(payload: Seq<u8>) -> Seq<u8> {
    seq![EXTRINSIC_FORMAT_VERSION, PALLET_REVIVE_INDEX, ETH_TRANSACT_CALL_INDEX]
        + crate::scale::compact_form(payload.len()) + payload
}

/// The payload of an extrinsic that is given without its length prefix.
pub open spec fn eth_transact_payload_of(extrinsic: Seq<u8>) -> Option<Seq<u8>> {
    crate::receipt_extractor::eth_transact_payload(
        crate::scale::compact_form(extrinsic.len()) + extrinsic,
    )
}

/// The first byte of the compact form of a length tells how wide the form is.
proof fn lemma_prefix_width(length: nat)
    requires
        length <= MAX_RECOGNISED_LENGTH,
    ensures
        crate::scale::compact_form(length).len() > 0,
        crate::receipt_extractor::prefix_width(crate::scale::compact_form(length)[0]) == Some(
            crate::scale::compact_form(length).len() as int,
        ),
{
    let form = crate::scale::compact_form(length);
    let low = length % 0x40;
    assert(length == 0x40 * (length / 0x40) + low);
    if length <= 0x3f {
        assert(form[0] == 4 * length);
    } else if length <= 0x3fff {
        assert(form[0] == 4 * low + 1);
    } else {
        assert(form[0] == 4 * low + 2);
    }
}

/// The payload of an extrinsic that was submitted is found again when receipts are extracted from
/// the block that holds it, as long as the extrinsic is not too long to be recognised.
pub proof fn a_submitted_payload_is_found_again(payload: Seq<u8>)
    requires
        unsigned_extrinsic(payload).len() <= MAX_RECOGNISED_LENGTH,
    ensures
        eth_transact_payload_of(unsigned_extrinsic(payload)) == Some(payload),
{
    let extrinsic = unsigned_extrinsic(payload);
    let length = extrinsic.len();
    let prefix = crate::scale::compact_form(length);
    let head = seq![EXTRINSIC_FORMAT_VERSION, PALLET_REVIVE_INDEX, ETH_TRANSACT_CALL_INDEX];
    let argument = crate::scale::compact_form(payload.len());
    lemma_prefix_width(length);
    crate::receipt_extractor::an_eth_transact_call_gives_its_payload(
        prefix,
        EXTRINSIC_FORMAT_VERSION,
        payload,
        seq![],
    );
    lemma_regrouped(prefix, head, argument, payload);
}

/// How the parts of an extrinsic are put together does not matter.
proof fn lemma_regrouped(prefix: Seq<u8>, head: Seq<u8>, argument: Seq<u8>, payload: Seq<u8>)
    ensures
        prefix + (head + argument + payload) == prefix + head + argument + payload
            + Seq::<u8>::empty(),
{
    assert(prefix + (head + argument + payload) =~= prefix + head + argument + payload
        + Seq::<u8>::empty());
}

/// The weight of a block with this gas limit: as much time as the limit says, as far as it fits, and
/// no bound on the proof. Where the limit is not known, there is no bound on the time either.
pub open spec fn weight_of_limit(block_gas_limit: Option<nat>) -> Weight {
    Weight {
        ref_time: match block_gas_limit {
            Some(limit) => if limit <= u64::MAX {
                limit as u64
            } else {
                u64::MAX
            },
            None => u64::MAX,
        },
        proof_size: u64::MAX,
    }
}

/// A client backed by the node's native in-process Substrate client: what it knows of itself.
#[derive(Clone, Copy, Debug, PartialEq, Eq, Structural)]
pub struct NativeSubstrateClient {
    /// The EVM chain id.
    pub chain_id: u64,
    /// The maximum weight of a block.
    pub max_block_weight: Weight,
    /// Whether the node mines blocks on demand.
    pub automine: bool,
}

impl NativeSubstrateClient {
    /// Create a new native client, from the gas limit of the best block where the runtime told it.
    pub fn new(
        chain_id: u64,
        automine: bool,
        block_gas_limit: Option<U256>,
    ) -> (client: NativeSubstrateClient)
        ensures
            client == (NativeSubstrateClient {
                chain_id,
                max_block_weight: weight_of_limit(crate::evm::integer_value(block_gas_limit)),
                automine,
            }),
    {
        let ref_time: u64 = match block_gas_limit {
            Some(limit) => match limit.to_u64() {
                Some(limit) => limit,
                None => u64::MAX,
            },
            None => u64::MAX,
        };
        NativeSubstrateClient {
            chain_id,
            max_block_weight: Weight { ref_time, proof_size: u64::MAX },
            automine,
        }
    }

    /// Return the EVM chain-id constant.
    pub fn chain_id(&self) -> (chain_id: u64)
        ensures
            chain_id == self.chain_id,
    {
        self.chain_id
    }

    /// Return the maximum block weight.
    pub fn max_block_weight(&self) -> (weight: Weight)
        ensures
            weight == self.max_block_weight,
    {
        self.max_block_weight
    }

    /// Return whether the node has automine enabled.
    pub fn get_automine(&self) -> (automine: bool)
        ensures
            automine == self.automine,
    {
        self.automine
    }

    /// The account nonce, from the nonce that the runtime told.
    pub fn nonce(nonce: Result<u32, String>) -> (result: Result<U256, ClientError>)
        ensures
            result == (match nonce {
                Ok(nonce) => Ok(U256::of(nonce as nat)),
                Err(text) => Err(ClientError::NativeClientError(text)),
            }),
    {
        match nonce {
            Ok(nonce) => Ok(U256::from_u64(nonce as u64)),
            Err(text) => Err(native_err(text)),
        }
    }

    /// What the runtime told, or its error.
    pub fn reply<T>(reply: Result<T, String>) -> (result: Result<T, ClientError>)
        ensures
            result == (match reply {
                Ok(value) => Ok(value),
                Err(text) => Err(ClientError::NativeClientError(text)),
            }),
    {
        match reply {
            Ok(value) => Ok(value),
            Err(text) => Err(native_err(text)),
        }
    }

    /// What a call of a contract gave: an error of the runtime and an error of the call are told
    /// apart.
    pub fn transact_reply<T>(reply: Result<Result<T, EthTransactError>, String>) -> (result: Result<
        T,
        ClientError,
    >)
        ensures
            result == (match reply {
                Ok(Ok(value)) => Ok(value),
                Ok(Err(error)) => Err(ClientError::TransactError(error)),
                Err(text) => Err(ClientError::NativeClientError(text)),
            }),
    {
        match reply {
            Ok(Ok(value)) => Ok(value),
            Ok(Err(error)) => Err(ClientError::TransactError(error)),
            Err(text) => Err(native_err(text)),
        }
    }

    /// What the storage of a contract holds. A refused request means that there is no such contract.
    pub fn get_storage(reply: Result<Result<Option<Vec<u8>>, ()>, String>) -> (result: Result<
        Option<Vec<u8>>,
        ClientError,
    >)
        ensures
            result == (match reply {
                Ok(Ok(value)) => Ok(value),
                Ok(Err(_)) => Err(ClientError::ContractNotFound),
                Err(text) => Err(ClientError::NativeClientError(text)),
            }),
    {
        match reply {
            Ok(Ok(value)) => Ok(value),
            Ok(Err(_)) => Err(ClientError::ContractNotFound),
            Err(text) => Err(native_err(text)),
        }
    }

    /// The trace of a transaction. Where there is none, the block has no such transaction.
    pub fn trace_tx<T>(reply: Result<Option<T>, String>) -> (result: Result<T, ClientError>)
        ensures
            result == (match reply {
                Ok(Some(trace)) => Ok(trace),
                Ok(None) => Err(ClientError::EthExtrinsicNotFound),
                Err(text) => Err(ClientError::NativeClientError(text)),
            }),
    {
        match reply {
            Ok(Some(trace)) => Ok(trace),
            Ok(None) => Err(ClientError::EthExtrinsicNotFound),
            Err(text) => Err(native_err(text)),
        }
    }

    /// A block that has to be there.
    pub fn required_block<B>(reply: Result<Option<B>, String>) -> (result: Result<B, ClientError>)
        ensures
            result == (match reply {
                Ok(Some(block)) => Ok(block),
                Ok(None) => Err(ClientError::BlockNotFound),
                Err(text) => Err(ClientError::NativeClientError(text)),
            }),
    {
        match reply {
            Ok(Some(block)) => Ok(block),
            Ok(None) => Err(ClientError::BlockNotFound),
            Err(text) => Err(native_err(text)),
        }
    }

    /// The bytes of the unsigned `eth_transact` extrinsic that submits a transaction payload. A
    /// payload is refused only where no length prefix can hold the length of its extrinsic.
    pub fn submit_extrinsic(payload: &[u8]) -> (extrinsic: Result<Vec<u8>, ClientError>)
        ensures
            match extrinsic {
                Ok(extrinsic) => {
                    &&& extrinsic@ == unsigned_extrinsic(payload@)
                    &&& extrinsic@.len() <= MAX_EXTRINSIC_LENGTH
                    &&& extrinsic@.len() <= MAX_RECOGNISED_LENGTH ==> eth_transact_payload_of(
                        extrinsic@,
                    ) == Some(payload@)
                },
                Err(error) => {
                    &&& error == ClientError::TxDecodingFailed
                    &&& unsigned_extrinsic(payload@).len() > MAX_EXTRINSIC_LENGTH
                },
            },
    {
        if payload.len() > MAX_EXTRINSIC_LENGTH {
            return Err(ClientError::TxDecodingFailed);
        }
        let mut argument = encode_byte_string(payload);
        let mut call: Vec<u8> = vec![
            EXTRINSIC_FORMAT_VERSION,
            PALLET_REVIVE_INDEX,
            ETH_TRANSACT_CALL_INDEX,
        ];
        call.append(&mut argument);
        assert(call@ =~= unsigned_extrinsic(payload@));
        if call.len() > MAX_EXTRINSIC_LENGTH {
            return Err(ClientError::TxDecodingFailed);
        }
        let encoded = encode_byte_string(call.as_slice());
        proof {
            if call@.len() <= MAX_RECOGNISED_LENGTH {
                a_submitted_payload_is_found_again(payload@);
            }
            crate::scale::a_byte_string_is_read_back(call@, seq![]);
            assert(encoded@ =~= crate::scale::compact_form(call@.len()) + call@ + seq![]);
        }
        match decode_opaque_extrinsic(encoded.as_slice()) {
            Some(extrinsic) => Ok(extrinsic),
            None => Err(ClientError::TxDecodingFailed),
        }
    }

    /// What came of a submission: an extrinsic that the pool took is ready.
    pub fn submitted(reply: Result<(), String>) -> (result: Result<SubmitResult, ClientError>)
        ensures
            result == (match reply {
                Ok(_) => Ok(TransactionStatus::Ready),
                Err(text) => Err(ClientError::NativeClientError(text)),
            }),
    {
        match reply {
            Ok(_) => Ok(TransactionStatus::Ready),
            Err(text) => Err(native_err(text)),
        }
    }

    /// The sync state: a node that serves requests is at its best block.
    pub fn sync_state(best_number: u32) -> (state: SyncState)
        ensures
            state == (SyncState {
                starting_block: 0,
                current_block: best_number,
                highest_block: best_number,
            }),
    {
        SyncState { starting_block: 0, current_block: best_number, highest_block: best_number }
    }

    /// The health of the node.
    pub fn system_health() -> (health: NodeHealth)
        ensures
            health == (NodeHealth { peers: 0, is_syncing: false, should_have_peers: false }),
    {
        NodeHealth { peers: 0, is_syncing: false, should_have_peers: false }
    }

    /// Whether a notification concerns a subscription: an imported block has to be the new best one,
    /// a finalized block always does.
    pub fn concerns(subscription_type: SubscriptionType, is_new_best: bool) -> (concerns: bool)
        ensures
            concerns == (subscription_type == SubscriptionType::FinalizedBlocks || is_new_best),
    {
        match subscription_type {
            SubscriptionType::BestBlocks => is_new_best,
            SubscriptionType::FinalizedBlocks => true,
        }
    }

    /// The block that the callback of a subscription is called with after a notification, or
    /// nothing: a notification that does not concern the subscription, a block that is not known
    /// and a failed lookup are passed over.
    pub fn subscribe_blocks<B>(
        subscription_type: SubscriptionType,
        is_new_best: bool,
        lookup: Result<Option<B>, ClientError>,
    ) -> (block: Option<B>)
        ensures
            block == (if subscription_type == SubscriptionType::BestBlocks && !is_new_best {
                None
            } else {
                match lookup {
                    Ok(found) => found,
                    Err(_) => None,
                }
            }),
    {
        if !Self::concerns(subscription_type, is_new_best) {
            return None;
        }
        match lookup {
            Ok(Some(block)) => Some(block),
            Ok(None) => None,
            Err(_) => None,
        }
    }

    /// The extrinsics of a block by their position, from the encoded body. The block has to be
    /// there.
    pub fn block_extrinsics(body: Result<Option<Vec<Vec<u8>>>, String>) -> (result: Result<
        Vec<RawExtrinsic>,
        ClientError,
    >)
        ensures
            match (body, result) {
                (Ok(Some(body)), Ok(raws)) => {
                    &&& raws@.len() == body@.len()
                    &&& forall|i: int|
                        0 <= i < raws@.len() ==> (#[trigger] raws@[i])@ == (body@[i]@, i as nat)
                },
                (Ok(None), Err(error)) => error == ClientError::BlockNotFound,
                (Err(text), Err(error)) => error == ClientError::NativeClientError(text),
                _ => false,
            },
    {
        match body {
            Ok(Some(body)) => Ok(index_extrinsics(body.as_slice())),
            Ok(None) => Err(ClientError::BlockNotFound),
            Err(text) => Err(native_err(text)),
        }
    }
}

/// What is submitted for a payload is an extrinsic of version 5 with the call 0 of the pallet 253 on
/// the payload, in which the payload is found again; a payload is refused only where the extrinsic
/// does not fit.
pub proof fn what_is_submitted_holds_the_payload(
    payload: &[u8],
    extrinsic: Result<Vec<u8>, ClientError>,
)
    requires
        call_ensures(NativeSubstrateClient::submit_extrinsic, (payload,), extrinsic),
    ensures
        extrinsic matches Ok(bytes) ==> {
            &&& bytes@.len() > 3 && bytes@[0] == 5 && bytes@[1] == 253 && bytes@[2] == 0
            &&& crate::scale::byte_string(bytes@.skip(3)) == Some(payload@)
            &&& bytes@.len() >= payload@.len() && bytes@.skip(
                bytes@.len() - payload@.len(),
            ) == payload@
            &&& bytes@.len() <= 0x3fff_ffff ==> crate::receipt_extractor::eth_transact_payload(
                crate::scale::compact_form(bytes@.len()) + bytes@,
            ) == Some(payload@)
        },
        extrinsic matches Err(error) ==> error == ClientError::TxDecodingFailed && payload@.len()
            + 8 > u32::MAX,
{
    lemma_compact_width(payload@.len());
    if let Ok(bytes) = extrinsic {
        lemma_parts(payload@, bytes@);
        if bytes@.len() <= MAX_RECOGNISED_LENGTH {
            assert(eth_transact_payload_of(bytes@) == Some(payload@));
        }
    }
}

proof fn lemma_compact_width(length: nat)
    ensures
        1 <= crate::scale::compact_form(length).len() <= 5,
{
}

proof fn lemma_parts(payload: Seq<u8>, bytes: Seq<u8>)
    requires
        bytes == unsigned_extrinsic(payload),
        bytes.len() <= u32::MAX,
    ensures
        bytes.len() > 3 && bytes[0] == 5 && bytes[1] == 253 && bytes[2] == 0,
        crate::scale::byte_string(bytes.skip(3)) == Some(payload),
        bytes.len() >= payload.len(),
        bytes.skip(bytes.len() - payload.len()) == payload,
{
    let head = seq![EXTRINSIC_FORMAT_VERSION, PALLET_REVIVE_INDEX, ETH_TRANSACT_CALL_INDEX];
    let form = crate::scale::compact_form(payload.len());
    lemma_compact_width(payload.len());
    lemma_argument(head, form, payload, bytes);
    crate::scale::a_byte_string_is_read_back(payload, seq![]);
}

/// The parts of an extrinsic stand where they were put.
proof fn lemma_argument(head: Seq<u8>, form: Seq<u8>, payload: Seq<u8>, bytes: Seq<u8>)
    requires
        head.len() == 3,
        bytes == head + form + payload,
    ensures
        bytes[0] == head[0] && bytes[1] == head[1] && bytes[2] == head[2],
        bytes.skip(3) == form + payload + Seq::<u8>::empty(),
        bytes.skip(bytes.len() - payload.len()) == payload,
{
    assert(bytes.skip(3) =~= form + payload + Seq::<u8>::empty());
    assert(bytes.skip(bytes.len() - payload.len()) =~= payload);
}

/// A client knows what it was made from: as much time as the gas limit of a block says, as far as it
/// fits, and no bound on the proof; where no limit is known, there is no bound.
pub proof fn a_client_knows_what_it_was_made_from(
    chain_id: u64,
    automine: bool,
    block_gas_limit: Option<U256>,
    client: NativeSubstrateClient,
    told_id: u64,
    told_weight: Weight,
    told_automine: bool,
)
    requires
        call_ensures(NativeSubstrateClient::new, (chain_id, automine, block_gas_limit), client),
        call_ensures(NativeSubstrateClient::chain_id, (&client,), told_id),
        call_ensures(NativeSubstrateClient::max_block_weight, (&client,), told_weight),
        call_ensures(NativeSubstrateClient::get_automine, (&client,), told_automine),
    ensures
        told_id == chain_id,
        told_automine == automine,
        told_weight.proof_size == 0xffff_ffff_ffff_ffff,
        block_gas_limit is None ==> told_weight.ref_time == 0xffff_ffff_ffff_ffff,
        block_gas_limit matches Some(limit) ==> (if limit@ < 0xffff_ffff_ffff_ffff {
            told_weight.ref_time == limit@
        } else {
            told_weight.ref_time == 0xffff_ffff_ffff_ffff
        }),
{
}

/// A reply of the runtime is handed on, and its error is one of the native client, with its text.
pub proof fn replies_are_handed_on<T>(
    nonce: Result<u32, String>,
    told_nonce: Result<U256, ClientError>,
    reply: Result<T, String>,
    told: Result<T, ClientError>,
    called: Result<Result<T, EthTransactError>, String>,
    result: Result<T, ClientError>,
)
    requires
        call_ensures(NativeSubstrateClient::nonce, (nonce,), told_nonce),
        call_ensures(NativeSubstrateClient::reply::<T>, (reply,), told),
        call_ensures(NativeSubstrateClient::transact_reply::<T>, (called,), result),
    ensures
        nonce matches Ok(number) ==> (told_nonce matches Ok(value) && value@ == number),
        nonce matches Err(text) ==> told_nonce == Err::<U256, ClientError>(
            ClientError::NativeClientError(text),
        ),
        reply matches Ok(value) ==> told == Ok::<T, ClientError>(value),
        reply matches Err(text) ==> told == Err::<T, ClientError>(
            ClientError::NativeClientError(text),
        ),
        called matches Ok(Ok(value)) ==> result == Ok::<T, ClientError>(value),
        called matches Ok(Err(error)) ==> result == Err::<T, ClientError>(
            ClientError::TransactError(error),
        ),
        called matches Err(text) ==> result == Err::<T, ClientError>(
            ClientError::NativeClientError(text),
        ),
{
}

/// What is not there is told by what was asked for: a contract, a transaction or a block.
pub proof fn what_is_not_there_is_told<T>(
    stored: Result<Result<Option<Vec<u8>>, ()>, String>,
    value: Result<Option<Vec<u8>>, ClientError>,
    traced: Result<Option<T>, String>,
    trace: Result<T, ClientError>,
    block: Result<T, ClientError>,
)
    requires
        call_ensures(NativeSubstrateClient::get_storage, (stored,), value),
        call_ensures(NativeSubstrateClient::trace_tx::<T>, (traced,), trace),
        call_ensures(NativeSubstrateClient::required_block::<T>, (traced,), block),
    ensures
        stored matches Ok(Ok(bytes)) ==> value == Ok::<Option<Vec<u8>>, ClientError>(bytes),
        stored matches Ok(Err(_)) ==> value == Err::<Option<Vec<u8>>, ClientError>(
            ClientError::ContractNotFound,
        ),
        stored matches Err(text) ==> value == Err::<Option<Vec<u8>>, ClientError>(
            ClientError::NativeClientError(text),
        ),
        traced matches Ok(Some(found)) ==> trace == Ok::<T, ClientError>(found) && block == Ok::<
            T,
            ClientError,
        >(found),
        traced matches Ok(None) ==> trace == Err::<T, ClientError>(
            ClientError::EthExtrinsicNotFound,
        ) && block == Err::<T, ClientError>(ClientError::BlockNotFound),
        traced matches Err(text) ==> trace == Err::<T, ClientError>(
            ClientError::NativeClientError(text),
        ) && block == trace,
{
}

/// A node that runs in the same process is never syncing and stands at its best block, a submission
/// that it takes is ready, and one that it refuses fails with its text.
pub proof fn the_node_in_the_process_is_up_to_date(
    best_number: u32,
    state: SyncState,
    health: NodeHealth,
    reply: Result<(), String>,
    result: Result<SubmitResult, ClientError>,
)
    requires
        call_ensures(NativeSubstrateClient::sync_state, (best_number,), state),
        call_ensures(NativeSubstrateClient::system_health, (), health),
        call_ensures(NativeSubstrateClient::submitted, (reply,), result),
    ensures
        state.current_block == best_number && state.highest_block == best_number
            && state.starting_block == 0,
        !health.is_syncing && health.peers == 0 && !health.should_have_peers,
        reply is Ok ==> (result matches Ok(status) && status is Ready),
        reply matches Err(text) ==> result == Err::<SubmitResult, ClientError>(
            ClientError::NativeClientError(text),
        ),
{
}

/// A block that is found is delivered for every finalized block and for every new best one; nothing
/// else is delivered.
pub proof fn new_best_and_finalized_blocks_are_delivered<B>(
    subscription_type: SubscriptionType,
    is_new_best: bool,
    concerns: bool,
    lookup: Result<Option<B>, ClientError>,
    block: Option<B>,
)
    requires
        call_ensures(
            NativeSubstrateClient::concerns,
            (subscription_type, is_new_best),
            concerns,
        ),
        call_ensures(
            NativeSubstrateClient::subscribe_blocks::<B>,
            (subscription_type, is_new_best, lookup),
            block,
        ),
    ensures
        subscription_type is FinalizedBlocks ==> concerns,
        subscription_type is BestBlocks ==> concerns == is_new_best,
        lookup matches Ok(found) ==> (concerns ==> block == found),
        !concerns || lookup is Err ==> block is None,
{
}

/// The extrinsics of a block come in order, each with its position.
pub proof fn extrinsics_come_with_their_position(
    body: Result<Option<Vec<Vec<u8>>>, String>,
    result: Result<Vec<RawExtrinsic>, ClientError>,
)
    requires
        call_ensures(NativeSubstrateClient::block_extrinsics, (body,), result),
    ensures
        body matches Ok(Some(payloads)) ==> (result matches Ok(raws) && raws@.len()
            == payloads@.len() && forall|i: int|
            0 <= i < raws@.len() ==> (#[trigger] raws@[i]).payload@ == payloads@[i]@
                && raws@[i].index == i),
        body matches Ok(None) ==> result == Err::<Vec<RawExtrinsic>, ClientError>(
            ClientError::BlockNotFound,
        ),
        body matches Err(text) ==> result == Err::<Vec<RawExtrinsic>, ClientError>(
            ClientError::NativeClientError(text),
        ),
{
    if body is Ok && body->Ok_0 is Some && result is Ok {
        let raws = result->Ok_0@;
        let payloads = body->Ok_0->0@;
        assert forall|i: int| 0 <= i < raws.len() implies (#[trigger] raws[i]).payload@
            == payloads[i]@ && raws[i].index == i by {
            assert(raws[i]@ == (payloads[i]@, i as nat));
        }
    }
}

} // verus!

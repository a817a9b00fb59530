//! Receipts out of the extrinsics of a block.

use crate::crypto::keccak_256;
use crate::error::ClientError;
use crate::evm::{
    create1, logs_bloom, GenericTransaction, Log, ReceiptGasInfo, ReceiptInfo, TransactionSigned,
};
use crate::primitives::{H160, H256, U256};
use crate::scale::decode_byte_string;
use crate::substrate_client::{index_extrinsics, RawExtrinsic};
use vstd::prelude::*;

verus! {

/// The index of the revive pallet in the runtime.
pub const PALLET_REVIVE_INDEX: u8 = 253;

/// The index of the `eth_transact` call in the pallet.
pub const ETH_TRANSACT_CALL_INDEX: u8 = 0;

/// How many bytes the length prefix takes that an extrinsic begins with, told from its first byte.
pub open spec fn prefix_width(first: u8) -> Option<int> {
    if first % 4 == 0 {
        Some(1)
    } else if first % 4 == 1 {
        Some(2)
    } else if first % 4 == 2 {
        Some(4)
    } else {
        None
    }
}

/// The transaction payload of an extrinsic that is an `eth_transact` call. Behind the length prefix
/// follow a version byte, the indices of the pallet and of the call, and the payload.
pub open spec fn eth_transact_payload(extrinsic: Seq<u8>) -> Option<Seq<u8>> {
    if extrinsic.len() == 0 {
        None
    } else {
        match prefix_width(extrinsic[0]) {
            Some(width) => if extrinsic.len() >= width + 3 && extrinsic[width + 1]
                == PALLET_REVIVE_INDEX && extrinsic[width + 2] == ETH_TRANSACT_CALL_INDEX {
                crate::scale::byte_string(extrinsic.skip(width + 3))
            } else {
                None
            },
            None => None,
        }
    }
}

/// What an extrinsic did: whether it succeeded, and the address, topics and data of each log.
#[derive(Debug)]
pub struct ExtrinsicEvents {
    /// Whether the extrinsic succeeded.
    pub success: bool,
    /// The logs that contracts emitted.
    pub logs: Vec<(H160, Vec<H256>, Option<Vec<u8>>)>,
}

/// The address, the topics and the data of an emitted log.
pub type EmittedView = (Seq<u8>, Seq<Seq<u8>>, Option<Seq<u8>>);

/// What the events of an extrinsic say.
#[verifier::ext_equal]
pub ghost struct EventsView {
    pub success: bool,
    pub logs: Seq<EmittedView>,
}

/// What an emitted log says.
pub open spec fn emitted_view(log: (H160, Vec<H256>, Option<Vec<u8>>)) -> EmittedView {
    (log.0@, crate::evm::hash_bytes(log.1@), crate::evm::data_bytes(log.2))
}

impl View for ExtrinsicEvents {
    type V = EventsView;

    open spec fn view(&self) -> EventsView {
        EventsView {
            success: self.success,
            logs: self.logs@.map_values(
                |log: (H160, Vec<H256>, Option<Vec<u8>>)| emitted_view(log),
            ),
        }
    }
}

impl Default for ExtrinsicEvents {
    fn default() -> (events: Self)
        ensures
            events@ == (EventsView { success: false, logs: seq![] }),
            !events.success && events.logs@.len() == 0,
    {
        let events = ExtrinsicEvents { success: false, logs: Vec::new() };
        assert(events@.logs =~= seq![]);
        events
    }
}

/// An event of an extrinsic, as far as receipts are concerned.
#[derive(Debug)]
pub enum RuntimeEvent {
    /// A contract emitted a log.
    ContractEmitted {
        /// The contract.
        contract: H160,
        /// The topics of the log.
        topics: Vec<H256>,
        /// The data of the log.
        data: Vec<u8>,
    },
    /// Some other event.
    Other,
    /// An event that could not be decoded.
    Undecodable,
}

/// The logs that contracts emitted, in order. Other events and undecodable ones are passed over.
pub open spec fn emitted_logs(events: Seq<RuntimeEvent>) -> Seq<EmittedView>
    decreases events.len(),
{
    if events.len() == 0 {
        seq![]
    } else {
        let before = emitted_logs(events.drop_last());
        match events.last() {
            RuntimeEvent::ContractEmitted { contract, topics, data } => before.push(
                (contract@, crate::evm::hash_bytes(topics@), Some(data@)),
            ),
            _ => before,
        }
    }
}

impl ExtrinsicEvents {
    /// What an extrinsic did, from its events. It failed only where the search for a revert found
    /// one; a search that failed itself counts as none found.
    pub fn from_events(reverted: Option<bool>, events: &[RuntimeEvent]) -> (result: Self)
        ensures
            result@ == (EventsView {
                success: reverted != Some(true),
                logs: emitted_logs(events@),
            }),
    {
        let ghost as_view = |log: (H160, Vec<H256>, Option<Vec<u8>>)| emitted_view(log);
        let mut logs: Vec<(H160, Vec<H256>, Option<Vec<u8>>)> = Vec::new();
        let mut i: usize = 0;
        assert(events@.take(0) =~= seq![]);
        assert(logs@.map_values(as_view) =~= emitted_logs(events@.take(0)));
        while i < events.len()
            invariant
                i <= events@.len(),
                as_view == |log: (H160, Vec<H256>, Option<Vec<u8>>)| emitted_view(log),
                logs@.map_values(as_view) == emitted_logs(events@.take(i as int)),
            decreases events@.len() - i,
        {
            let ghost upto = events@.take(i + 1);
            let ghost before = logs@;
            assert(upto.drop_last() =~= events@.take(i as int));
            match &events[i] {
                RuntimeEvent::ContractEmitted { contract, topics, data } => {
                    let log = (*contract, topics.clone(), Some(data.clone()));
                    assert(log.1@ =~= topics@);
                    logs.push(log);
                    assert(logs@.map_values(as_view) =~= before.map_values(as_view).push(
                        emitted_view(log),
                    ));
                },
                _ => {},
            }
            i += 1;
        }
        assert(events@.take(i as int) =~= events@);
        ExtrinsicEvents { success: !reverted.unwrap_or(false), logs }
    }
}

/// The logs of a receipt: the emitted ones in order, numbered from zero.
pub open spec fn receipt_logs(
    emitted: Seq<EmittedView>,
    block_number: nat,
    block_hash: Seq<u8>,
    transaction_hash: Seq<u8>,
    transaction_index: nat,
) -> Seq<crate::evm::LogView> {
    Seq::new(
        emitted.len(),
        |i: int|
            crate::evm::LogView {
                address: emitted[i].0,
                block_hash,
                block_number,
                data: emitted[i].2,
                log_index: i as nat,
                removed: false,
                topics: emitted[i].1,
                transaction_hash,
                transaction_index,
            },
    )
}

/// Copies the data of a log.
fn copy_data(data: &Option<Vec<u8>>) -> (copy: Option<Vec<u8>>)
    ensures
        crate::evm::data_bytes(copy) == crate::evm::data_bytes(*data),
{
    match data {
        Some(data) => Some(data.clone()),
        None => None,
    }
}

/// Builds the logs of a receipt from what the extrinsic emitted.
pub fn build_logs(
    events: &ExtrinsicEvents,
    block_number: U256,
    block_hash: H256,
    transaction_hash: H256,
    transaction_index: usize,
) -> (logs: Vec<Log>)
    ensures
        crate::evm::log_views(logs@) == receipt_logs(
            events@.logs,
            block_number@,
            block_hash@,
            transaction_hash@,
            transaction_index as nat,
        ),
{
    let ghost expected = receipt_logs(
        events@.logs,
        block_number@,
        block_hash@,
        transaction_hash@,
        transaction_index as nat,
    );
    let mut logs: Vec<Log> = Vec::new();
    let mut i: usize = 0;
    while i < events.logs.len()
        invariant
            i <= events.logs@.len(),
            logs@.len() == i,
            expected == receipt_logs(
                events@.logs,
                block_number@,
                block_hash@,
                transaction_hash@,
                transaction_index as nat,
            ),
            forall|j: int| 0 <= j < i ==> (#[trigger] logs@[j])@ == expected[j],
        decreases events.logs@.len() - i,
    {
        let emitted = &events.logs[i];
        let log = Log {
            address: emitted.0,
            block_hash,
            block_number,
            data: copy_data(&emitted.2),
            log_index: U256::from_usize(i),
            removed: false,
            topics: emitted.1.clone(),
            transaction_hash,
            transaction_index: U256::from_usize(transaction_index),
        };
        proof {
            assert(events@.logs[i as int] == emitted_view(events.logs@[i as int]));
            assert(log.topics@ =~= emitted.1@);
            assert(log@ =~= expected[i as int]);
        }
        logs.push(log);
        i += 1;
    }
    assert(crate::evm::log_views(logs@) =~= expected);
    logs
}

/// Whose transaction it is: what the recovery hands back for a transaction with this payload.
pub open spec fn may_recover<F: Fn(&TransactionSigned) -> Result<H160, ()>>(
    recover: F,
    payload: Seq<u8>,
    sender: Option<Seq<u8>>,
) -> bool {
    exists|tx: TransactionSigned, recovered: Result<H160, ()>|
        tx@ == payload && #[trigger] call_ensures(recover, (&tx,), recovered) && sender == (
        match recovered {
            Ok(address) => Some(address@),
            Err(_) => None,
        })
}

/// Recovers the sender of a transaction from its signature.
pub fn recover_eth_address(signed_tx: &TransactionSigned) -> (address: Result<H160, ()>)
    ensures
        match address {
            Ok(address) => crate::evm::recovered_signer(signed_tx@) == Some(address@),
            Err(_) => crate::evm::recovered_signer(signed_tx@) is None,
        },
{
    signed_tx.recover_eth_address()
}

/// Where senders are recovered from signatures, the sender of a transaction is the one that its
/// signature gives.
pub proof fn signature_recovery_gives_the_signer(payload: Seq<u8>, sender: Option<Seq<u8>>)
    requires
        may_recover(recover_eth_address, payload, sender),
    ensures
        sender == crate::evm::recovered_signer(payload),
{
    let (tx, recovered) = choose|tx: TransactionSigned, recovered: Result<H160, ()>|
        tx@ == payload && #[trigger] call_ensures(recover_eth_address, (&tx,), recovered) && sender
            == (match recovered {
            Ok(address) => Some(address@),
            Err(_) => None,
        });
    assert(call_ensures(recover_eth_address, (&tx,), recovered));
}

/// The nonce with which a transaction creates a contract, or nothing where it has a receiver. The
/// nonce has to fit into 64 bits.
pub open spec fn creation_nonce(to: Option<Seq<u8>>, nonce: Option<nat>) -> Result<
    Option<u64>,
    ClientError,
> {
    let nonce = match nonce {
        Some(nonce) => nonce,
        None => 0,
    };
    if to is Some {
        Ok(None)
    } else if nonce <= u64::MAX {
        Ok(Some(nonce as u64))
    } else {
        Err(ClientError::ConversionFailed)
    }
}

/// Decides whether a transaction creates a contract, and with which nonce.
pub fn contract_creation(tx: &GenericTransaction) -> (nonce: Result<Option<u64>, ClientError>)
    ensures
        nonce == creation_nonce(
            crate::evm::address_bytes(tx.to),
            crate::evm::integer_value(tx.nonce),
        ),
{
    if tx.to.is_none() {
        let nonce = match tx.nonce {
            Some(nonce) => nonce,
            None => U256::zero(),
        };
        match nonce.to_u64() {
            Some(nonce) => Ok(Some(nonce)),
            None => Err(ClientError::ConversionFailed),
        }
    } else {
        Ok(None)
    }
}

/// A transaction of a block and where it stands.
#[verifier::ext_equal]
pub ghost struct TransactionSite {
    /// The number of the block.
    pub block_number: u32,
    /// The hash of the Ethereum block.
    pub block_hash: Seq<u8>,
    /// What the extrinsic did.
    pub events: EventsView,
    /// The payload of the transaction.
    pub payload: Seq<u8>,
    /// The gas of the transaction.
    pub gas: ReceiptGasInfo,
    /// The index of the extrinsic.
    pub index: nat,
}

/// The receipt of a transaction that `sender` signed.
pub open spec fn receipt_of(
    site: TransactionSite,
    sender: Seq<u8>,
    created: Option<u64>,
) -> crate::evm::ReceiptView {
    let hash = crate::crypto::keccak_digest(site.payload);
    let logs = receipt_logs(
        site.events.logs,
        site.block_number as nat,
        site.block_hash,
        hash,
        site.index,
    );
    crate::evm::ReceiptView {
        blob_gas_price: None,
        blob_gas_used: None,
        block_hash: site.block_hash,
        block_number: site.block_number as nat,
        contract_address: match created {
            Some(nonce) => Some(crate::evm::contract_created_by(sender, nonce)),
            None => None,
        },
        cumulative_gas_used: 0,
        effective_gas_price: site.gas.effective_gas_price@,
        from: sender,
        gas_used: site.gas.gas_used@,
        logs,
        logs_bloom: crate::evm::bloom_filter(crate::evm::bloom_entries(logs)),
        root: None,
        status: Some(
            U256::of(
                if site.events.success {
                    1
                } else {
                    0
                },
            ),
        ),
        to: crate::evm::transaction_fields(site.payload).0,
        transaction_hash: hash,
        transaction_index: site.index,
        tx_type: Some(
            match crate::evm::transaction_fields(site.payload).2 {
                Some(tx_type) => tx_type,
                None => 0,
            },
        ),
    }
}

/// The receipt of a transaction, or why there is none: the payload is no transaction, no sender
/// could be recovered, or the nonce of a contract creation is out of range.
pub open spec fn receipt_or_error(site: TransactionSite, sender: Option<Seq<u8>>) -> Result<
    crate::evm::ReceiptView,
    ClientError,
> {
    let (to, nonce, _) = crate::evm::transaction_fields(site.payload);
    if !crate::evm::transaction_decodes(site.payload) {
        Err(ClientError::TxDecodingFailed)
    } else {
        match sender {
            None => Err(ClientError::RecoverEthAddressFailed),
            Some(sender) => match creation_nonce(to, nonce) {
                Ok(created) => Ok(receipt_of(site, sender, created)),
                Err(error) => Err(error),
            },
        }
    }
}

/// Whether this is what comes of a transaction whose recovery gave this sender.
pub open spec fn built_from(
    site: TransactionSite,
    sender: Option<Seq<u8>>,
    built: Result<(TransactionSigned, ReceiptInfo), ClientError>,
) -> bool {
    match built {
        Ok((tx, receipt)) => tx@ == site.payload && receipt_or_error(site, sender) == Ok::<
            crate::evm::ReceiptView,
            ClientError,
        >(receipt@),
        Err(error) => receipt_or_error(site, sender) == Err::<crate::evm::ReceiptView, ClientError>(
            error,
        ),
    }
}

/// What the receipts of a block are made from.
#[verifier::ext_equal]
pub ghost struct BlockContents {
    /// The number of the block.
    pub number: u32,
    /// The hash of the Ethereum block.
    pub hash: Seq<u8>,
    /// The bytes and the index of each extrinsic.
    pub extrinsics: Seq<(Seq<u8>, nat)>,
    /// The gas of each Ethereum transaction.
    pub gas: Seq<ReceiptGasInfo>,
    /// What each extrinsic did, by its index, where that is known.
    pub events: Option<Seq<EventsView>>,
}

/// The payload and the index of each extrinsic that is an Ethereum transaction, in order.
pub open spec fn ethereum_calls(extrinsics: Seq<(Seq<u8>, nat)>) -> Seq<(Seq<u8>, nat)>
    decreases extrinsics.len(),
{
    if extrinsics.len() == 0 {
        seq![]
    } else {
        let before = ethereum_calls(extrinsics.drop_last());
        match eth_transact_payload(extrinsics.last().0) {
            Some(payload) => before.push((payload, extrinsics.last().1)),
            None => before,
        }
    }
}

/// What the extrinsic with this index did. Where no events are known, it succeeded; where events
/// are known but none for this index, it did not. Either way it emitted nothing.
pub open spec fn events_of(events: Option<Seq<EventsView>>, index: nat) -> EventsView {
    match events {
        Some(events) => if index < events.len() {
            events[index as int]
        } else {
            EventsView { success: false, logs: seq![] }
        },
        None => EventsView { success: true, logs: seq![] },
    }
}

impl BlockContents {
    /// The i-th Ethereum transaction of the block.
    pub open spec fn transaction(self, i: int) -> TransactionSite {
        let (payload, index) = ethereum_calls(self.extrinsics)[i];
        TransactionSite {
            block_number: self.number,
            block_hash: self.hash,
            events: events_of(self.events, index),
            payload,
            gas: self.gas[i],
            index,
        }
    }

    /// The transactions and receipts of the first `count` Ethereum transactions, given their
    /// senders, or the first error among them.
    pub open spec fn receipts(self, senders: Seq<Option<Seq<u8>>>, count: nat) -> Result<
        Seq<(Seq<u8>, crate::evm::ReceiptView)>,
        ClientError,
    >
        decreases count,
    {
        if count == 0 {
            Ok(seq![])
        } else {
            let last = self.transaction(count - 1);
            match self.receipts(senders, (count - 1) as nat) {
                Ok(before) => match receipt_or_error(last, senders[count - 1]) {
                    Ok(receipt) => Ok(before.push((last.payload, receipt))),
                    Err(error) => Err(error),
                },
                Err(error) => Err(error),
            }
        }
    }

    /// Whether an extraction may come out like this, given how senders are recovered. It fails
    /// where there is not one gas entry for each Ethereum transaction. Else the transactions are
    /// gone through in order up to the first error.
    pub open spec fn may_extract<F: Fn(&TransactionSigned) -> Result<H160, ()>>(
        self,
        recover: F,
        extracted: Result<Seq<(Seq<u8>, crate::evm::ReceiptView)>, ClientError>,
    ) -> bool {
        let calls = ethereum_calls(self.extrinsics);
        if calls.len() != self.gas.len() {
            extracted == Err::<Seq<(Seq<u8>, crate::evm::ReceiptView)>, ClientError>(
                ClientError::ReceiptDataLengthMismatch,
            )
        } else {
            exists|senders: Seq<Option<Seq<u8>>>| #[trigger]
                self.are_senders(recover, senders) && extracted == self.receipts(
                    senders,
                    senders.len(),
                ) && (extracted is Ok ==> senders.len() == calls.len())
        }
    }

    /// Whether these may be the senders of the first transactions of the block.
    pub open spec fn are_senders<F: Fn(&TransactionSigned) -> Result<H160, ()>>(
        self,
        recover: F,
        senders: Seq<Option<Seq<u8>>>,
    ) -> bool {
        let calls = ethereum_calls(self.extrinsics);
        senders.len() <= calls.len() && forall|i: int|
            0 <= i < senders.len() && crate::evm::transaction_decodes(calls[i].0) ==> may_recover(
                recover,
                calls[i].0,
                #[trigger] senders[i],
            )
    }
}

/// What a transaction with its receipt says.
pub open spec fn receipt_pair(pair: (TransactionSigned, ReceiptInfo)) -> (
    Seq<u8>,
    crate::evm::ReceiptView,
) {
    (pair.0@, pair.1@)
}

/// What an extraction says.
pub open spec fn extracted_view(
    extracted: Result<Vec<(TransactionSigned, ReceiptInfo)>, ClientError>,
) -> Result<Seq<(Seq<u8>, crate::evm::ReceiptView)>, ClientError> {
    match extracted {
        Ok(pairs) => Ok(
            pairs@.map_values(|pair: (TransactionSigned, ReceiptInfo)| receipt_pair(pair)),
        ),
        Err(error) => Err(error),
    }
}

/// The bytes and the index of each raw extrinsic.
pub open spec fn raw_views(raws: Seq<RawExtrinsic>) -> Seq<(Seq<u8>, nat)> {
    raws.map_values(|raw: RawExtrinsic| raw@)
}

/// What the events of each extrinsic say.
pub open spec fn events_views(events: Option<Seq<ExtrinsicEvents>>) -> Option<Seq<EventsView>> {
    match events {
        Some(events) => Some(events.map_values(|events: ExtrinsicEvents| events@)),
        None => None,
    }
}

/// What was fetched about a block.
#[derive(Debug)]
pub struct FetchedBlock {
    /// The hash of the block on the Substrate chain.
    pub hash: H256,
    /// The number of the block.
    pub number: u32,
    /// The hash of the Ethereum block, where the chain knows it.
    pub eth_block_hash: Option<H256>,
    /// The gas of each Ethereum transaction, where the chain knows it.
    pub receipt_data: Option<Vec<ReceiptGasInfo>>,
    /// What each extrinsic did, where that was looked up.
    pub events: Option<Vec<ExtrinsicEvents>>,
    /// The bytes of each extrinsic, or why they could not be fetched.
    pub extrinsics: Result<Vec<Vec<u8>>, ClientError>,
}

impl FetchedBlock {
    /// What the receipts of the block are made from, where everything is there.
    pub open spec fn contents(self) -> BlockContents {
        let extrinsics = self.extrinsics->Ok_0@;
        BlockContents {
            number: self.number,
            hash: match self.eth_block_hash {
                Some(hash) => hash@,
                None => self.hash@,
            },
            extrinsics: Seq::new(extrinsics.len(), |i: int| (extrinsics[i]@, i as nat)),
            gas: self.receipt_data->0@,
            events: events_views(
                match self.events {
                    Some(events) => Some(events@),
                    None => None,
                },
            ),
        }
    }
}

/// The first transaction with the given index.
pub open spec fn first_with_index(
    pairs: Seq<(Seq<u8>, crate::evm::ReceiptView)>,
    transaction_index: nat,
) -> Option<(Seq<u8>, crate::evm::ReceiptView)>
    decreases pairs.len(),
{
    if pairs.len() == 0 {
        None
    } else if pairs[0].1.transaction_index == transaction_index {
        Some(pairs[0])
    } else {
        first_with_index(pairs.drop_first(), transaction_index)
    }
}

/// Utility to extract receipts from extrinsics.
#[derive(Clone, Copy, Debug)]
pub struct ReceiptExtractor {
    /// The earliest block that receipts are extracted from.
    pub earliest_receipt_block: Option<u32>,
}

impl ReceiptExtractor {
    /// Whether the block comes before the earliest one.
    pub open spec fn skips(self, block_number: nat) -> bool {
        match self.earliest_receipt_block {
            Some(earliest) => block_number < earliest,
            None => false,
        }
    }

    /// An extractor that leaves out the blocks before the given one.
    pub fn new(earliest_receipt_block: Option<u32>) -> (extractor: ReceiptExtractor)
        ensures
            extractor.earliest_receipt_block == earliest_receipt_block,
    {
        ReceiptExtractor { earliest_receipt_block }
    }

    /// Check if the block is before the earliest block.
    pub fn is_before_earliest_block(&self, block_number: u32) -> (before: bool)
        ensures
            before == self.skips(block_number as nat),
    {
        block_number < self.earliest_receipt_block.unwrap_or(0)
    }

    /// Try to decode a raw extrinsic as an `eth_transact` call.
    pub fn decode_eth_transact(raw: &RawExtrinsic) -> (payload: Option<Vec<u8>>)
        ensures
            match payload {
                Some(payload) => eth_transact_payload(raw.payload@) == Some(payload@),
                None => eth_transact_payload(raw.payload@) is None,
            },
    {
        let bytes = raw.payload.as_slice();
        if bytes.len() == 0 {
            return None;
        }
        let first: u8 = bytes[0];
        assert(first & 0b11 == first % 4) by (bit_vector);
        let width: usize = match first & 0b11 {
            0 => 1,
            1 => 2,
            2 => 4,
            _ => return None,
        };
        if bytes.len() < width + 3 {
            return None;
        }
        if bytes[width + 1] != PALLET_REVIVE_INDEX || bytes[width + 2] != ETH_TRANSACT_CALL_INDEX {
            return None;
        }
        let rest = vstd::slice::slice_subrange(bytes, width + 3, bytes.len());
        assert(rest@ =~= raw.payload@.skip(width + 3));
        decode_byte_string(rest)
    }

    /// Extract a receipt from a decoded call and its associated events.
    pub fn build_receipt<F: Fn(&TransactionSigned) -> Result<H160, ()>>(
        &self,
        substrate_block_number: u32,
        eth_block_hash: H256,
        ext_events: &ExtrinsicEvents,
        eth_payload: &[u8],
        receipt_gas_info: &ReceiptGasInfo,
        transaction_index: usize,
        recover_eth_address: &F,
    ) -> (built: Result<(TransactionSigned, ReceiptInfo), ClientError>)
        requires
            forall|tx: &TransactionSigned| call_requires(*recover_eth_address, (tx,)),
        ensures
            ({
                let site = TransactionSite {
                    block_number: substrate_block_number,
                    block_hash: eth_block_hash@,
                    events: ext_events@,
                    payload: eth_payload@,
                    gas: *receipt_gas_info,
                    index: transaction_index as nat,
                };
                exists|sender: Option<Seq<u8>>|
                    (crate::evm::transaction_decodes(eth_payload@) ==> may_recover(
                        *recover_eth_address,
                        eth_payload@,
                        sender,
                    )) && #[trigger] built_from(site, sender, built)
            }),
    {
        let ghost site = TransactionSite {
            block_number: substrate_block_number,
            block_hash: eth_block_hash@,
            events: ext_events@,
            payload: eth_payload@,
            gas: *receipt_gas_info,
            index: transaction_index as nat,
        };
        let transaction_hash = keccak_256(eth_payload);
        let signed_tx = match TransactionSigned::decode(eth_payload) {
            Ok(tx) => tx,
            Err(_) => {
                let error: ClientError = ClientError::TxDecodingFailed;
                assert(built_from(site, None, Err(error)));
                return Err(error);
            },
        };
        let from = match recover_eth_address(&signed_tx) {
            Ok(address) => address,
            Err(_) => {
                assert(may_recover(*recover_eth_address, eth_payload@, None));
                let error: ClientError = ClientError::RecoverEthAddressFailed;
                assert(built_from(site, None, Err(error)));
                return Err(error);
            },
        };
        assert(may_recover(*recover_eth_address, eth_payload@, Some(from@)));
        let tx_info = GenericTransaction::from_signed(
            &signed_tx,
            &receipt_gas_info.effective_gas_price,
            &from,
        );
        let block_number = U256::from_u64(substrate_block_number as u64);
        let logs = build_logs(
            ext_events,
            block_number,
            eth_block_hash,
            transaction_hash,
            transaction_index,
        );
        let contract_address = match contract_creation(&tx_info) {
            Ok(Some(nonce)) => Some(create1(&from, nonce)),
            Ok(None) => None,
            Err(error) => {
                assert(built_from(site, Some(from@), Err(error)));
                return Err(error);
            },
        };
        let bloom = logs_bloom(&logs);
        let receipt = ReceiptInfo::new(
            eth_block_hash,
            block_number,
            contract_address,
            from,
            logs,
            bloom,
            tx_info.to,
            receipt_gas_info.effective_gas_price,
            receipt_gas_info.gas_used,
            ext_events.success,
            transaction_hash,
            U256::from_usize(transaction_index),
            tx_info.tx_type.unwrap_or(0),
        );
        assert(built_from(site, Some(from@), Ok((signed_tx, receipt))));
        Ok((signed_tx, receipt))
    }

    /// The payload and the index of each extrinsic that is an Ethereum transaction.
    fn filter_eth_extrinsics(raw_extrinsics: &[RawExtrinsic]) -> (calls: Vec<(Vec<u8>, usize)>)
        ensures
            ethereum_calls(raw_views(raw_extrinsics@)) == calls@.map_values(
                |call: (Vec<u8>, usize)| (call.0@, call.1 as nat),
            ),
    {
        let ghost views = raw_views(raw_extrinsics@);
        let ghost as_view = |call: (Vec<u8>, usize)| (call.0@, call.1 as nat);
        let mut calls: Vec<(Vec<u8>, usize)> = Vec::new();
        let mut i: usize = 0;
        assert(views.take(0) =~= seq![]);
        assert(calls@.map_values(as_view) =~= ethereum_calls(views.take(0)));
        while i < raw_extrinsics.len()
            invariant
                i <= raw_extrinsics@.len(),
                views == raw_views(raw_extrinsics@),
                as_view == |call: (Vec<u8>, usize)| (call.0@, call.1 as nat),
                calls@.map_values(as_view) == ethereum_calls(views.take(i as int)),
            decreases raw_extrinsics@.len() - i,
        {
            let raw = &raw_extrinsics[i];
            let ghost upto = views.take(i + 1);
            let ghost before = calls@;
            assert(upto.drop_last() =~= views.take(i as int));
            assert(upto.last() == raw@);
            match Self::decode_eth_transact(raw) {
                Some(payload) => {
                    calls.push((payload, raw.index));
                    assert(calls@.map_values(as_view) =~= before.map_values(as_view).push(
                        (payload@, raw.index as nat),
                    ));
                },
                None => {},
            }
            i += 1;
        }
        assert(views.take(i as int) =~= views);
        calls
    }

    /// Extract receipts from a block using `RawExtrinsic` data.
    pub fn extract_from_block_raw<F: Fn(&TransactionSigned) -> Result<H160, ()>>(
        &self,
        _block_hash: H256,
        block_number: u32,
        eth_block_hash: H256,
        raw_extrinsics: &[RawExtrinsic],
        receipt_data: &[ReceiptGasInfo],
        block_events: Option<&[ExtrinsicEvents]>,
        recover_eth_address: &F,
    ) -> (extracted: Result<Vec<(TransactionSigned, ReceiptInfo)>, ClientError>)
        requires
            forall|tx: &TransactionSigned| call_requires(*recover_eth_address, (tx,)),
        ensures
            (BlockContents {
                number: block_number,
                hash: eth_block_hash@,
                extrinsics: raw_views(raw_extrinsics@),
                gas: receipt_data@,
                events: events_views(
                    match block_events {
                        Some(events) => Some(events@),
                        None => None,
                    },
                ),
            }).may_extract(*recover_eth_address, extracted_view(extracted)),
    {
        let ghost contents = BlockContents {
            number: block_number,
            hash: eth_block_hash@,
            extrinsics: raw_views(raw_extrinsics@),
            gas: receipt_data@,
            events: events_views(
                match block_events {
                    Some(events) => Some(events@),
                    None => None,
                },
            ),
        };
        let ghost calls = ethereum_calls(contents.extrinsics);
        let eth_extrinsics = Self::filter_eth_extrinsics(raw_extrinsics);
        if eth_extrinsics.len() != receipt_data.len() {
            return Err(ClientError::ReceiptDataLengthMismatch);
        }
        let none_known = ExtrinsicEvents { success: true, logs: Vec::new() };
        let none_here: ExtrinsicEvents = Default::default();
        assert(none_known@.logs =~= seq![]);
        let mut results: Vec<(TransactionSigned, ReceiptInfo)> = Vec::new();
        let ghost mut senders: Seq<Option<Seq<u8>>> = seq![];
        let ghost as_pair = |pair: (TransactionSigned, ReceiptInfo)| receipt_pair(pair);
        let mut i: usize = 0;
        assert(results@.map_values(as_pair) =~= seq![]);
        while i < eth_extrinsics.len()
            invariant
                i <= eth_extrinsics@.len(),
                calls == ethereum_calls(contents.extrinsics),
                calls == eth_extrinsics@.map_values(
                    |call: (Vec<u8>, usize)| (call.0@, call.1 as nat),
                ),
                calls.len() == contents.gas.len(),
                contents.extrinsics == raw_views(raw_extrinsics@),
                contents.gas == receipt_data@,
                contents.number == block_number,
                contents.hash == eth_block_hash@,
                contents.events == events_views(
                    match block_events {
                        Some(events) => Some(events@),
                        None => None,
                    },
                ),
                none_known@ == (EventsView { success: true, logs: seq![] }),
                none_here@ == (EventsView { success: false, logs: seq![] }),
                forall|tx: &TransactionSigned| call_requires(*recover_eth_address, (tx,)),
                as_pair == |pair: (TransactionSigned, ReceiptInfo)| receipt_pair(pair),
                senders.len() == i,
                contents.are_senders(*recover_eth_address, senders),
                contents.receipts(senders, i as nat) == Ok::<
                    Seq<(Seq<u8>, crate::evm::ReceiptView)>,
                    ClientError,
                >(results@.map_values(as_pair)),
            decreases eth_extrinsics@.len() - i,
        {
            let (eth_payload, ext_index) = (&eth_extrinsics[i].0, eth_extrinsics[i].1);
            let events = match block_events {
                Some(all_events) => if ext_index < all_events.len() {
                    &all_events[ext_index]
                } else {
                    &none_here
                },
                None => &none_known,
            };
            let built = self.build_receipt(
                block_number,
                eth_block_hash,
                events,
                eth_payload.as_slice(),
                &receipt_data[i],
                ext_index,
                recover_eth_address,
            );
            let ghost site = contents.transaction(i as int);
            let ghost before = results@;
            let ghost earlier = senders;
            proof {
                assert(calls[i as int] == (eth_payload@, ext_index as nat));
                assert(site.events == events@);
                let sender = choose|sender: Option<Seq<u8>>|
                    (crate::evm::transaction_decodes(eth_payload@) ==> may_recover(
                        *recover_eth_address,
                        eth_payload@,
                        sender,
                    )) && #[trigger] built_from(site, sender, built);
                senders = earlier.push(sender);
                lemma_receipts_read_only_their_senders(contents, earlier, senders, i as nat);
                assert(contents.are_senders(*recover_eth_address, senders));
            }
            match built {
                Ok(pair) => {
                    results.push(pair);
                    assert(results@.map_values(as_pair) =~= before.map_values(as_pair).push(
                        receipt_pair(pair),
                    ));
                },
                Err(error) => {
                    assert(contents.receipts(senders, senders.len()) == Err::<
                        Seq<(Seq<u8>, crate::evm::ReceiptView)>,
                        ClientError,
                    >(error));
                    return Err(error);
                },
            }
            i += 1;
        }
        Ok(results)
    }

    /// Extract receipts from a block, given what was fetched about it.
    pub fn extract_from_block<F: Fn(&TransactionSigned) -> Result<H160, ()>>(
        &self,
        block: FetchedBlock,
        recover_eth_address: &F,
    ) -> (extracted: Result<Vec<(TransactionSigned, ReceiptInfo)>, ClientError>)
        requires
            forall|tx: &TransactionSigned| call_requires(*recover_eth_address, (tx,)),
        ensures
            self.may_extract(*recover_eth_address, block, extracted_view(extracted)),
    {
        if self.is_before_earliest_block(block.number) {
            let none: Vec<(TransactionSigned, ReceiptInfo)> = Vec::new();
            assert(extracted_view(Ok(none))->Ok_0 =~= seq![]);
            return Ok(none);
        }
        let eth_block_hash = block.eth_block_hash.unwrap_or(block.hash);
        let receipt_data = match block.receipt_data {
            Some(receipt_data) => receipt_data,
            None => return Err(ClientError::ReceiptDataNotFound),
        };
        let extrinsics = match block.extrinsics {
            Ok(extrinsics) => extrinsics,
            Err(error) => return Err(error),
        };
        let raw = index_extrinsics(extrinsics.as_slice());
        assert(raw_views(raw@) =~= Seq::new(
            extrinsics@.len(),
            |i: int| (extrinsics@[i]@, i as nat),
        ));
        let block_events = match &block.events {
            Some(events) => Some(events.as_slice()),
            None => None,
        };
        self.extract_from_block_raw(
            block.hash,
            block.number,
            eth_block_hash,
            raw.as_slice(),
            receipt_data.as_slice(),
            block_events,
            recover_eth_address,
        )
    }

    /// Whether an extraction from a block may come out like this. A block before the earliest one
    /// has no receipts. Else the gas of the transactions has to be known and the extrinsics have to
    /// be there. Where the Ethereum block hash is not known, the block hash stands in for it.
    pub open spec fn may_extract<F: Fn(&TransactionSigned) -> Result<H160, ()>>(
        self,
        recover: F,
        block: FetchedBlock,
        extracted: Result<Seq<(Seq<u8>, crate::evm::ReceiptView)>, ClientError>,
    ) -> bool {
        if self.skips(block.number as nat) {
            extracted == Ok::<Seq<(Seq<u8>, crate::evm::ReceiptView)>, ClientError>(seq![])
        } else if block.receipt_data is None {
            extracted == Err::<Seq<(Seq<u8>, crate::evm::ReceiptView)>, ClientError>(
                ClientError::ReceiptDataNotFound,
            )
        } else {
            match block.extrinsics {
                Ok(_) => block.contents().may_extract(recover, extracted),
                Err(error) => extracted == Err::<
                    Seq<(Seq<u8>, crate::evm::ReceiptView)>,
                    ClientError,
                >(error),
            }
        }
    }

    /// Picks the first receipt with the given transaction index. The indices up to there have to be
    /// within the range of indices.
    pub fn find_receipt(
        receipts: Vec<(TransactionSigned, ReceiptInfo)>,
        transaction_index: usize,
    ) -> (found: Result<(TransactionSigned, ReceiptInfo), ClientError>)
        requires
            forall|i: int|
                0 <= i < receipts@.len() && (forall|j: int|
                    0 <= j < i ==> (#[trigger] receipts@[j]).1.transaction_index@
                        != transaction_index) ==> (#[trigger] receipts@[i]).1.transaction_index@
                    <= usize::MAX,
        ensures
            match found {
                Ok(pair) => {
                    &&& first_with_index(
                        receipts@.map_values(
                            |pair: (TransactionSigned, ReceiptInfo)| receipt_pair(pair),
                        ),
                        transaction_index as nat,
                    ) == Some(receipt_pair(pair))
                    &&& exists|i: int|
                        0 <= i < receipts@.len() && #[trigger] receipts@[i] == pair
                            && pair.1.transaction_index@ == transaction_index && forall|j: int|
                            0 <= j < i ==> (#[trigger] receipts@[j]).1.transaction_index@
                                != transaction_index
                },
                Err(error) => error == ClientError::EthExtrinsicNotFound && first_with_index(
                    receipts@.map_values(
                        |pair: (TransactionSigned, ReceiptInfo)| receipt_pair(pair),
                    ),
                    transaction_index as nat,
                ) is None,
            },
    {
        let ghost pairs = receipts@.map_values(
            |pair: (TransactionSigned, ReceiptInfo)| receipt_pair(pair),
        );
        let mut rest = receipts;
        let mut i: usize = 0;
        assert(pairs.skip(0) =~= pairs);
        while i < rest.len()
            invariant
                i <= rest@.len(),
                rest@ == receipts@,
                pairs == receipts@.map_values(
                    |pair: (TransactionSigned, ReceiptInfo)| receipt_pair(pair),
                ),
                first_with_index(pairs, transaction_index as nat) == first_with_index(
                    pairs.skip(i as int),
                    transaction_index as nat,
                ),
                forall|j: int|
                    0 <= j < i ==> (#[trigger] receipts@[j]).1.transaction_index@
                        != transaction_index,
            decreases receipts@.len() - i,
        {
            assert(pairs.skip(i as int)[0] == receipt_pair(receipts@[i as int]));
            assert(pairs.skip(i as int).drop_first() =~= pairs.skip(i + 1));
            match rest[i].1.transaction_index.to_usize() {
                Some(index) => if index == transaction_index {
                    return Ok(rest.remove(i));
                },
                None => {},
            }
            i += 1;
        }
        Err(ClientError::EthExtrinsicNotFound)
    }

    /// Extract a single receipt from a block by transaction index.
    pub fn extract_from_transaction<F: Fn(&TransactionSigned) -> Result<H160, ()>>(
        &self,
        block: FetchedBlock,
        transaction_index: usize,
        recover_eth_address: &F,
    ) -> (found: Result<(TransactionSigned, ReceiptInfo), ClientError>)
        requires
            forall|tx: &TransactionSigned| call_requires(*recover_eth_address, (tx,)),
        ensures
            exists|extracted: Result<Seq<(Seq<u8>, crate::evm::ReceiptView)>, ClientError>|
                #[trigger] self.may_extract(*recover_eth_address, block, extracted) && match found {
                    Ok(pair) => extracted is Ok && first_with_index(
                        extracted->Ok_0,
                        transaction_index as nat,
                    ) == Some(receipt_pair(pair)),
                    Err(error) => match extracted {
                        Ok(pairs) => error == ClientError::EthExtrinsicNotFound
                            && first_with_index(pairs, transaction_index as nat) is None,
                        Err(failed) => error == failed,
                    },
                },
    {
        let extracted = self.extract_from_block(block, recover_eth_address);
        let ghost view = extracted_view(extracted);
        match extracted {
            Ok(receipts) => {
                proof {
                    assert(view->Ok_0.len() == receipts@.len());
                    if !self.skips(block.number as nat) {
                        let contents = block.contents();
                        assert(block.extrinsics->Ok_0@.len() <= usize::MAX) by {
                            assert(block.extrinsics->Ok_0.len() <= usize::MAX);
                        }
                        let senders = choose|senders: Seq<Option<Seq<u8>>>| #[trigger]
                            contents.are_senders(*recover_eth_address, senders) && view
                                == contents.receipts(senders, senders.len()) && (view is Ok
                                ==> senders.len() == ethereum_calls(contents.extrinsics).len());
                        receipts_follow_the_extrinsics(contents, senders, senders.len());
                        lemma_calls_are_extrinsics(contents.extrinsics);
                        assert forall|i: int| 0 <= i < receipts@.len() implies (
                        #[trigger] receipts@[i]).1.transaction_index@ <= usize::MAX by {
                            let calls = ethereum_calls(contents.extrinsics);
                            assert(view->Ok_0[i] == receipt_pair(receipts@[i]));
                            let j = choose|j: int|
                                0 <= j < contents.extrinsics.len() && contents.extrinsics[j].1
                                    == calls[i].1;
                            assert(contents.extrinsics[j].1 == j);
                        }
                    }
                }
                Self::find_receipt(receipts, transaction_index)
            },
            Err(error) => Err(error),
        }
    }
}

/// Every Ethereum transaction of a block is one of its extrinsics.
proof fn lemma_calls_are_extrinsics(extrinsics: Seq<(Seq<u8>, nat)>)
    ensures
        forall|i: int|
            0 <= i < ethereum_calls(extrinsics).len() ==> exists|j: int|
                0 <= j < extrinsics.len() && extrinsics[j].1 == (#[trigger] ethereum_calls(
                    extrinsics,
                )[i]).1,
    decreases extrinsics.len(),
{
    if extrinsics.len() > 0 {
        let before = extrinsics.drop_last();
        lemma_calls_are_extrinsics(before);
        assert forall|i: int| 0 <= i < ethereum_calls(extrinsics).len() implies exists|j: int|
            0 <= j < extrinsics.len() && extrinsics[j].1 == (#[trigger] ethereum_calls(
                extrinsics,
            )[i]).1 by {
            if i < ethereum_calls(before).len() {
                assert(ethereum_calls(extrinsics)[i] == ethereum_calls(before)[i]);
                let j = choose|j: int|
                    0 <= j < before.len() && before[j].1 == ethereum_calls(before)[i].1;
                assert(extrinsics[j] == before[j]);
            } else {
                assert(extrinsics[extrinsics.len() - 1].1 == ethereum_calls(extrinsics)[i].1);
            }
        }
    }
}

/// An extraction that succeeds gives one receipt for each Ethereum transaction of the block, in the
/// order of the extrinsics. Each receipt carries the gas that is given for its transaction, the index
/// of its extrinsic, the hash of its payload, the receiver and the sender, the status, the address of
/// the contract that is created where there is no receiver, and the number and the hash of the block;
/// the logs are those that its extrinsic emitted, numbered in order, with the same place, and none is
/// marked as removed.
pub proof fn receipts_follow_the_extrinsics(
    contents: BlockContents,
    senders: Seq<Option<Seq<u8>>>,
    count: nat,
)
    requires
        contents.receipts(senders, count) is Ok,
    ensures
        ({
            let calls = ethereum_calls(contents.extrinsics);
            let pairs = contents.receipts(senders, count)->Ok_0;
            &&& pairs.len() == count
            &&& forall|i: int|
                0 <= i < count ==> {
                    let receipt = (#[trigger] pairs[i]).1;
                    &&& pairs[i].0 == calls[i].0
                    &&& receipt.transaction_index == calls[i].1
                    &&& receipt.transaction_hash == crate::crypto::keccak_digest(calls[i].0)
                    &&& receipt.block_number == contents.number
                    &&& receipt.block_hash == contents.hash
                    &&& senders[i] == Some(receipt.from)
                    &&& receipt.gas_used == contents.gas[i].gas_used@
                    &&& receipt.effective_gas_price == contents.gas[i].effective_gas_price@
                    &&& crate::evm::transaction_decodes(calls[i].0)
                    &&& receipt.to == crate::evm::transaction_fields(calls[i].0).0
                    &&& receipt.tx_type == Some(
                        match crate::evm::transaction_fields(calls[i].0).2 {
                            Some(tx_type) => tx_type,
                            None => 0,
                        },
                    )
                    &&& receipt.contract_address is Some <==> receipt.to is None
                    &&& receipt.to is None ==> {
                        let nonce = match crate::evm::transaction_fields(calls[i].0).1 {
                            Some(nonce) => nonce,
                            None => 0,
                        };
                        &&& nonce <= u64::MAX
                        &&& receipt.contract_address == Some(
                            crate::evm::contract_created_by(receipt.from, nonce as u64),
                        )
                    }
                    &&& receipt.status == Some(
                        U256::of(
                            if events_of(contents.events, calls[i].1).success {
                                1
                            } else {
                                0
                            },
                        ),
                    )
                    &&& receipt.logs == receipt_logs(
                        events_of(contents.events, calls[i].1).logs,
                        contents.number as nat,
                        contents.hash,
                        receipt.transaction_hash,
                        receipt.transaction_index,
                    )
                    &&& receipt.logs_bloom == crate::evm::bloom_filter(
                        crate::evm::bloom_entries(receipt.logs),
                    )
                    &&& receipt.cumulative_gas_used == 0
                    &&& receipt.root is None && receipt.blob_gas_price is None
                        && receipt.blob_gas_used is None
                    &&& forall|j: int|
                        0 <= j < receipt.logs.len() ==> {
                            let log = #[trigger] receipt.logs[j];
                            &&& log.log_index == j
                            &&& log.transaction_index == receipt.transaction_index
                            &&& log.transaction_hash == receipt.transaction_hash
                            &&& log.block_number == receipt.block_number
                            &&& log.block_hash == receipt.block_hash
                            &&& !log.removed
                        }
                }
        }),
    decreases count,
{
    if count > 0 {
        let before = (count - 1) as nat;
        receipts_follow_the_extrinsics(contents, senders, before);
        let earlier = contents.receipts(senders, before)->Ok_0;
        let pairs = contents.receipts(senders, count)->Ok_0;
        assert forall|i: int| 0 <= i < before implies #[trigger] pairs[i] == earlier[i] by {}
    }
}

/// The payload of an `eth_transact` extrinsic is found whatever its length prefix, its version byte
/// and the bytes behind the payload are, as long as the prefix is of one, two or four bytes.
pub proof fn an_eth_transact_call_gives_its_payload(
    prefix: Seq<u8>,
    version: u8,
    payload: Seq<u8>,
    rest: Seq<u8>,
)
    requires
        prefix.len() > 0,
        prefix_width(prefix[0]) == Some(prefix.len() as int),
        payload.len() <= u32::MAX,
    ensures
        eth_transact_payload(
            prefix + seq![version, PALLET_REVIVE_INDEX, ETH_TRANSACT_CALL_INDEX]
                + crate::scale::compact_form(payload.len()) + payload + rest,
        ) == Some(payload),
{
    let head = prefix + seq![version, PALLET_REVIVE_INDEX, ETH_TRANSACT_CALL_INDEX];
    let body = crate::scale::compact_form(payload.len()) + payload + rest;
    let extrinsic = head + crate::scale::compact_form(payload.len()) + payload + rest;
    let width = prefix.len() as int;
    assert(extrinsic[0] == prefix[0]);
    assert(extrinsic[width + 1] == PALLET_REVIVE_INDEX);
    assert(extrinsic[width + 2] == ETH_TRANSACT_CALL_INDEX);
    assert(extrinsic.skip(width + 3) =~= body);
    crate::scale::a_byte_string_is_read_back(payload, rest);
}

/// An extrinsic of another pallet or another call is no Ethereum transaction.
pub proof fn other_calls_give_no_payload(extrinsic: Seq<u8>, width: int)
    requires
        extrinsic.len() >= width + 3,
        width > 0,
        prefix_width(extrinsic[0]) == Some(width),
        extrinsic[width + 1] != PALLET_REVIVE_INDEX || extrinsic[width + 2]
            != ETH_TRANSACT_CALL_INDEX,
    ensures
        eth_transact_payload(extrinsic) is None,
{
}

/// The Ethereum transactions of a block stand in the order of its extrinsics: where the indices of
/// the extrinsics rise, so do those of the transactions.
pub proof fn calls_keep_the_order_of_the_extrinsics(extrinsics: Seq<(Seq<u8>, nat)>)
    requires
        forall|i: int, j: int| 0 <= i < j < extrinsics.len() ==> extrinsics[i].1 < extrinsics[j].1,
    ensures
        forall|i: int, j: int|
            0 <= i < j < ethereum_calls(extrinsics).len() ==> (#[trigger] ethereum_calls(
                extrinsics,
            )[i]).1 < (#[trigger] ethereum_calls(extrinsics)[j]).1,
    decreases extrinsics.len(),
{
    if extrinsics.len() > 0 {
        let before = extrinsics.drop_last();
        let calls = ethereum_calls(extrinsics);
        calls_keep_the_order_of_the_extrinsics(before);
        lemma_calls_are_extrinsics(before);
        assert forall|i: int, j: int| 0 <= i < j < calls.len() implies (#[trigger] calls[i]).1 < (
        #[trigger] calls[j]).1 by {
            let earlier = ethereum_calls(before);
            assert(calls[i] == earlier[i]);
            if j < earlier.len() {
                assert(calls[j] == earlier[j]);
            } else {
                let k = choose|k: int| 0 <= k < before.len() && before[k].1 == earlier[i].1;
                assert(extrinsics[k] == before[k]);
                assert(calls[j].1 == extrinsics[extrinsics.len() - 1].1);
            }
        }
    }
}

/// The receipts of the first transactions depend on the senders of those alone.
proof fn lemma_receipts_read_only_their_senders(
    contents: BlockContents,
    some: Seq<Option<Seq<u8>>>,
    others: Seq<Option<Seq<u8>>>,
    count: nat,
)
    requires
        forall|i: int| 0 <= i < count ==> some[i] == others[i],
    ensures
        contents.receipts(some, count) == contents.receipts(others, count),
    decreases count,
{
    if count > 0 {
        lemma_receipts_read_only_their_senders(contents, some, others, (count - 1) as nat);
    }
}

/// A receipt that is found is the first of those with the given index, and one is found wherever
/// there is one.
pub proof fn a_found_receipt_has_the_index_asked_for(
    receipts: Vec<(TransactionSigned, ReceiptInfo)>,
    transaction_index: usize,
    found: Result<(TransactionSigned, ReceiptInfo), ClientError>,
)
    requires
        call_ensures(ReceiptExtractor::find_receipt, (receipts, transaction_index), found),
    ensures
        found matches Ok(pair) ==> pair.1.transaction_index@ == transaction_index && exists|i: int|
            0 <= i < receipts@.len() && #[trigger] receipts@[i] == pair && forall|j: int|
                0 <= j < i ==> (#[trigger] receipts@[j]).1.transaction_index@ != transaction_index,
        found matches Err(error) ==> error == ClientError::EthExtrinsicNotFound,
        found is Ok <==> exists|i: int|
            0 <= i < receipts@.len() && (#[trigger] receipts@[i]).1.transaction_index@
                == transaction_index,
{
    let pairs = receipts@.map_values(
        |pair: (TransactionSigned, ReceiptInfo)| receipt_pair(pair),
    );
    the_first_with_an_index_is_found(pairs, transaction_index as nat);
    if found is Err {
        assert forall|i: int| 0 <= i < receipts@.len() implies (
        #[trigger] receipts@[i]).1.transaction_index@ != transaction_index by {
            assert(pairs[i] == receipt_pair(receipts@[i]));
        }
    }
}

/// What is found is the first pair with the index, and where nothing is found there is none.
pub proof fn the_first_with_an_index_is_found(
    pairs: Seq<(Seq<u8>, crate::evm::ReceiptView)>,
    transaction_index: nat,
)
    ensures
        first_with_index(pairs, transaction_index) matches Some(pair) ==>
            pair.1.transaction_index == transaction_index && exists|i: int|
            0 <= i < pairs.len() && #[trigger] pairs[i] == pair && forall|j: int|
                0 <= j < i ==> (#[trigger] pairs[j]).1.transaction_index != transaction_index,
        first_with_index(pairs, transaction_index) is None ==> forall|i: int|
            0 <= i < pairs.len() ==> (#[trigger] pairs[i]).1.transaction_index
                != transaction_index,
    decreases pairs.len(),
{
    if pairs.len() > 0 {
        let rest = pairs.drop_first();
        the_first_with_an_index_is_found(rest, transaction_index);
        if pairs[0].1.transaction_index == transaction_index {
            assert(pairs[0] == first_with_index(pairs, transaction_index)->0);
        } else if first_with_index(rest, transaction_index) is Some {
            let pair = first_with_index(rest, transaction_index)->0;
            let i = choose|i: int|
                0 <= i < rest.len() && #[trigger] rest[i] == pair && forall|j: int|
                    0 <= j < i ==> (#[trigger] rest[j]).1.transaction_index != transaction_index;
            assert(pairs[i + 1] == pair);
            assert forall|j: int| 0 <= j < i + 1 implies (#[trigger] pairs[j]).1.transaction_index
                != transaction_index by {
                if j > 0 {
                    assert(rest[j - 1] == pairs[j]);
                }
            }
        } else {
            assert forall|i: int| 0 <= i < pairs.len() implies (
            #[trigger] pairs[i]).1.transaction_index != transaction_index by {
                if i > 0 {
                    assert(rest[i - 1] == pairs[i]);
                }
            }
        }
    }
}

/// Whether these are, in order, the places of the extrinsics that are Ethereum transactions.
pub open spec fn are_ethereum_places(extrinsics: Seq<(Seq<u8>, nat)>, places: Seq<int>) -> bool {
    &&& forall|a: int, b: int|
        0 <= a < b < places.len() ==> #[trigger] places[a] < #[trigger] places[b]
    &&& forall|a: int|
        0 <= a < places.len() ==> 0 <= #[trigger] places[a] < extrinsics.len()
            && eth_transact_payload(extrinsics[places[a]].0) is Some
    &&& forall|k: int|
        0 <= k < extrinsics.len() && eth_transact_payload((#[trigger] extrinsics[k]).0) is Some
            ==> places.contains(k)
}

/// The Ethereum transactions of a block are its extrinsics that hold a payload, each once and in
/// order.
pub proof fn calls_are_the_extrinsics_with_a_payload(
    extrinsics: Seq<(Seq<u8>, nat)>,
) -> (places: Seq<int>)
    ensures
        are_ethereum_places(extrinsics, places),
        places.len() == ethereum_calls(extrinsics).len(),
        forall|i: int|
            0 <= i < places.len() ==> {
                let (payload, index) = #[trigger] ethereum_calls(extrinsics)[i];
                &&& eth_transact_payload(extrinsics[places[i]].0) == Some(payload)
                &&& extrinsics[places[i]].1 == index
                &&& ethereum_calls(extrinsics.take(places[i])).len() == i
            },
    decreases extrinsics.len(),
{
    if extrinsics.len() == 0 {
        seq![]
    } else {
        let before = extrinsics.drop_last();
        let end = extrinsics.len() - 1;
        let earlier = calls_are_the_extrinsics_with_a_payload(before);
        let calls = ethereum_calls(extrinsics);
        let places = if eth_transact_payload(extrinsics[end].0) is Some {
            earlier.push(end)
        } else {
            earlier
        };
        assert forall|a: int| 0 <= a < places.len() implies 0 <= #[trigger] places[a]
            < extrinsics.len() && eth_transact_payload(extrinsics[places[a]].0) is Some by {
            if a < earlier.len() {
                assert(places[a] == earlier[a]);
                assert(extrinsics[places[a]] == before[places[a]]);
            }
        }
        assert forall|a: int, b: int| 0 <= a < b < places.len() implies #[trigger] places[a]
            < #[trigger] places[b] by {
            assert(places[a] == earlier[a]);
            if b < earlier.len() {
                assert(places[b] == earlier[b]);
            }
        }
        assert forall|k: int|
            0 <= k < extrinsics.len() && eth_transact_payload(
                (#[trigger] extrinsics[k]).0,
            ) is Some implies places.contains(k) by {
            if k < end {
                assert(before[k] == extrinsics[k]);
                let a = choose|a: int| 0 <= a < earlier.len() && earlier[a] == k;
                assert(places[a] == k);
            } else {
                assert(places[earlier.len() as int] == k);
            }
        }
        assert forall|i: int| 0 <= i < places.len() implies ({
            let (payload, index) = #[trigger] calls[i];
            &&& eth_transact_payload(extrinsics[places[i]].0) == Some(payload)
            &&& extrinsics[places[i]].1 == index
            &&& ethereum_calls(extrinsics.take(places[i])).len() == i
        }) by {
            if i < earlier.len() {
                assert(calls[i] == ethereum_calls(before)[i]);
                assert(places[i] == earlier[i]);
                assert(extrinsics[places[i]] == before[places[i]]);
                assert(extrinsics.take(places[i]) =~= before.take(places[i]));
            } else {
                assert(extrinsics.take(end) =~= before);
            }
        }
        places
    }
}

/// Whether these are the logs of a receipt with the given place for what was emitted: one for each,
/// in order, numbered from zero.
pub open spec fn logs_tell(
    logs: Seq<Log>,
    emitted: Seq<(H160, Vec<H256>, Option<Vec<u8>>)>,
    receipt: ReceiptInfo,
) -> bool {
    &&& logs.len() == emitted.len()
    &&& forall|j: int|
        0 <= j < logs.len() ==> {
            let log = #[trigger] logs[j];
            &&& log.address@ == emitted[j].0@
            &&& log.topics@.len() == emitted[j].1@.len()
            &&& forall|t: int|
                0 <= t < log.topics@.len() ==> (#[trigger] log.topics@[t])@ == emitted[j].1@[t]@
            &&& crate::evm::data_bytes(log.data) == crate::evm::data_bytes(emitted[j].2)
            &&& log.log_index@ == j
            &&& !log.removed
            &&& log.transaction_hash@ == receipt.transaction_hash@
            &&& log.transaction_index@ == receipt.transaction_index@
            &&& log.block_hash@ == receipt.block_hash@
            &&& log.block_number@ == receipt.block_number@
        }
}

/// From what the views say to what the logs hold.
proof fn lemma_logs_tell(
    receipt: ReceiptInfo,
    events: ExtrinsicEvents,
    number: nat,
    hash: Seq<u8>,
    transaction_hash: Seq<u8>,
    index: nat,
)
    requires
        receipt@.logs == receipt_logs(events@.logs, number, hash, transaction_hash, index),
        receipt.block_number@ == number,
        receipt.block_hash@ == hash,
        receipt.transaction_hash@ == transaction_hash,
        receipt.transaction_index@ == index,
    ensures
        logs_tell(receipt.logs@, events.logs@, receipt),
{
    let logs = receipt.logs@;
    let views = receipt@.logs;
    assert(views.len() == logs.len());
    assert(events@.logs.len() == events.logs@.len());
    assert forall|j: int| 0 <= j < logs.len() implies ({
        let log = #[trigger] logs[j];
        let emitted = events.logs@;
        &&& log.address@ == emitted[j].0@
        &&& log.topics@.len() == emitted[j].1@.len()
        &&& forall|t: int|
            0 <= t < log.topics@.len() ==> (#[trigger] log.topics@[t])@ == emitted[j].1@[t]@
        &&& crate::evm::data_bytes(log.data) == crate::evm::data_bytes(emitted[j].2)
        &&& log.log_index@ == j
        &&& !log.removed
        &&& log.transaction_hash@ == receipt.transaction_hash@
        &&& log.transaction_index@ == receipt.transaction_index@
        &&& log.block_hash@ == receipt.block_hash@
        &&& log.block_number@ == receipt.block_number@
    }) by {
        let log = logs[j];
        let emitted = events.logs@[j];
        assert(views[j] == log@);
        assert(events@.logs[j] == emitted_view(emitted));
        assert(log@.topics == crate::evm::hash_bytes(emitted.1@));
        assert(log@.topics.len() == log.topics@.len());
        assert(crate::evm::hash_bytes(emitted.1@).len() == emitted.1@.len());
        assert forall|t: int| 0 <= t < log.topics@.len() implies (#[trigger] log.topics@[t])@
            == emitted.1@[t]@ by {
            assert(log@.topics[t] == log.topics@[t]@);
            assert(crate::evm::hash_bytes(emitted.1@)[t] == emitted.1@[t]@);
        }
    }
}

/// Whether a receipt is the one of a transaction: it carries the hash of the payload, the receiver
/// and the type of the transaction, the recovered sender, and the address of the contract that the
/// transaction creates where it has no receiver.
pub open spec fn receipt_names_its_transaction<F: Fn(&TransactionSigned) -> Result<H160, ()>>(
    receipt: ReceiptInfo,
    payload: Seq<u8>,
    recover: F,
) -> bool {
    let (to, nonce, tx_type) = crate::evm::transaction_fields(payload);
    &&& crate::evm::transaction_decodes(payload)
    &&& receipt.transaction_hash@ == crate::crypto::keccak_digest(payload)
    &&& may_recover(recover, payload, Some(receipt.from@))
    &&& match receipt.to {
        Some(receiver) => to == Some(receiver@) && receipt.contract_address is None,
        None => {
            let nonce = match nonce {
                Some(nonce) => nonce,
                None => 0,
            };
            &&& to is None
            &&& nonce <= u64::MAX
            &&& receipt.contract_address matches Some(address) && address@
                == crate::evm::contract_created_by(receipt.from@, nonce as u64)
        },
    }
    &&& receipt.tx_type == Some(
        match tx_type {
            Some(tx_type) => tx_type,
            None => 0,
        },
    )
}

/// Whether a receipt tells what an extrinsic did: its status is one or zero, and its logs are those
/// that were emitted. Where no events of the block are known, the extrinsic counts as successful;
/// where they are known, but not those of this extrinsic, as failed.
pub open spec fn receipt_tells_what_happened(
    receipt: ReceiptInfo,
    block_events: Option<Seq<ExtrinsicEvents>>,
    index: int,
) -> bool {
    match block_events {
        None => {
            &&& receipt.status matches Some(status) && status@ == 1
            &&& receipt.logs@.len() == 0
        },
        Some(events) => if 0 <= index < events.len() {
            &&& receipt.status matches Some(status) && status@ == (if events[index].success {
                1nat
            } else {
                0nat
            })
            &&& logs_tell(receipt.logs@, events[index].logs@, receipt)
        } else {
            &&& receipt.status matches Some(status) && status@ == 0
            &&& receipt.logs@.len() == 0
        },
    }
}

/// Whether a receipt is the one that an extraction gives for a transaction: it has the gas that is
/// given for it, the index of its extrinsic, the number and the hash of the block, the sender and
/// the receiver of the transaction, the status and the logs of its extrinsic, and the bloom filter
/// of these logs.
pub open spec fn is_receipt_of<F: Fn(&TransactionSigned) -> Result<H160, ()>>(
    receipt: ReceiptInfo,
    payload: Seq<u8>,
    index: nat,
    gas: ReceiptGasInfo,
    block_number: u32,
    eth_block_hash: H256,
    block_events: Option<Seq<ExtrinsicEvents>>,
    recover: F,
) -> bool {
    &&& receipt.transaction_index@ == index
    &&& receipt.gas_used@ == gas.gas_used@
    &&& receipt.effective_gas_price@ == gas.effective_gas_price@
    &&& receipt.block_number@ == block_number
    &&& receipt.block_hash@ == eth_block_hash@
    &&& receipt_names_its_transaction(receipt, payload, recover)
    &&& receipt_tells_what_happened(receipt, block_events, index as int)
    &&& receipt.logs_bloom@ == crate::evm::bloom_filter(
        crate::evm::bloom_entries(crate::evm::log_views(receipt.logs@)),
    )
    &&& receipt.cumulative_gas_used@ == 0
    &&& receipt.root is None
    &&& receipt.blob_gas_price is None
    &&& receipt.blob_gas_used is None
}

/// The events of each extrinsic, where they are known.
pub open spec fn known_events(events: Option<&[ExtrinsicEvents]>) -> Option<Seq<ExtrinsicEvents>> {
    match events {
        Some(events) => Some(events@),
        None => None,
    }
}

/// From what an extraction says by its view to what its receipts hold.
proof fn lemma_receipts_of_contents<F: Fn(&TransactionSigned) -> Result<H160, ()>>(
    contents: BlockContents,
    eth_block_hash: H256,
    block_events: Option<Seq<ExtrinsicEvents>>,
    recover: F,
    pairs: Vec<(TransactionSigned, ReceiptInfo)>,
) -> (places: Seq<int>)
    requires
        contents.hash == eth_block_hash@,
        contents.events == events_views(block_events),
        contents.may_extract(recover, extracted_view(Ok(pairs))),
    ensures
        are_ethereum_places(contents.extrinsics, places),
        pairs@.len() == places.len(),
        pairs@.len() == contents.gas.len(),
        forall|i: int|
            0 <= i < pairs@.len() ==> {
                let (tx, receipt) = #[trigger] pairs@[i];
                let (extrinsic, index) = contents.extrinsics[places[i]];
                &&& eth_transact_payload(extrinsic) == Some(tx@)
                &&& is_receipt_of(
                    receipt,
                    tx@,
                    index,
                    contents.gas[i],
                    contents.number,
                    eth_block_hash,
                    block_events,
                    recover,
                )
            },
{
    let extracted: Result<Vec<(TransactionSigned, ReceiptInfo)>, ClientError> = Ok(pairs);
    let views = extracted_view(extracted)->Ok_0;
    let calls = ethereum_calls(contents.extrinsics);
    let places = calls_are_the_extrinsics_with_a_payload(contents.extrinsics);
    let senders = choose|senders: Seq<Option<Seq<u8>>>| #[trigger]
        contents.are_senders(recover, senders) && extracted_view(extracted) == contents.receipts(
            senders,
            senders.len(),
        ) && (extracted_view(extracted) is Ok ==> senders.len() == calls.len());
    receipts_follow_the_extrinsics(contents, senders, senders.len());
    assert forall|i: int| 0 <= i < pairs@.len() implies ({
        let (tx, receipt) = #[trigger] pairs@[i];
        let (extrinsic, index) = contents.extrinsics[places[i]];
        &&& eth_transact_payload(extrinsic) == Some(tx@)
        &&& is_receipt_of(
            receipt,
            tx@,
            index,
            contents.gas[i],
            contents.number,
            eth_block_hash,
            block_events,
            recover,
        )
    }) by {
        let (tx, receipt) = pairs@[i];
        let index = contents.extrinsics[places[i]].1;
        assert(views[i] == receipt_pair(pairs@[i]));
        assert(calls[i] == (tx@, index));
        assert(may_recover(recover, calls[i].0, senders[i]));
        assert(receipt@.logs.len() == receipt.logs@.len());
        match block_events {
            None => {},
            Some(events) => if index < events.len() {
                assert(contents.events->0[index as int] == events[index as int]@);
                lemma_logs_tell(
                    receipt,
                    events[index as int],
                    contents.number as nat,
                    eth_block_hash@,
                    receipt.transaction_hash@,
                    index,
                );
            },
        }
    }
    places
}

/// An extraction that succeeds gives one receipt for each extrinsic that is an Ethereum transaction,
/// in their order, and the i-th of them has the gas that the i-th entry of the receipt data says.
pub proof fn each_receipt_is_that_of_its_transaction<F: Fn(&TransactionSigned) -> Result<H160, ()>>(
    extractor: ReceiptExtractor,
    block_hash: H256,
    block_number: u32,
    eth_block_hash: H256,
    raw_extrinsics: &[RawExtrinsic],
    receipt_data: &[ReceiptGasInfo],
    block_events: Option<&[ExtrinsicEvents]>,
    recover: &F,
    pairs: Vec<(TransactionSigned, ReceiptInfo)>,
) -> (places: Seq<int>)
    requires
        call_ensures(
            ReceiptExtractor::extract_from_block_raw::<F>,
            (
                &extractor,
                block_hash,
                block_number,
                eth_block_hash,
                raw_extrinsics,
                receipt_data,
                block_events,
                recover,
            ),
            Ok(pairs),
        ),
    ensures
        are_ethereum_places(raw_views(raw_extrinsics@), places),
        pairs@.len() == places.len(),
        pairs@.len() == receipt_data@.len(),
        forall|i: int|
            0 <= i < pairs@.len() ==> {
                let (tx, receipt) = #[trigger] pairs@[i];
                let raw = raw_extrinsics@[places[i]];
                &&& eth_transact_payload(raw.payload@) == Some(tx@)
                &&& is_receipt_of(
                    receipt,
                    tx@,
                    raw.index as nat,
                    receipt_data@[i],
                    block_number,
                    eth_block_hash,
                    known_events(block_events),
                    *recover,
                )
            },
{
    let contents = BlockContents {
        number: block_number,
        hash: eth_block_hash@,
        extrinsics: raw_views(raw_extrinsics@),
        gas: receipt_data@,
        events: events_views(known_events(block_events)),
    };
    let places = lemma_receipts_of_contents(
        contents,
        eth_block_hash,
        known_events(block_events),
        *recover,
        pairs,
    );
    assert forall|i: int| 0 <= i < pairs@.len() implies #[trigger] contents.extrinsics[places[i]]
        == raw_extrinsics@[places[i]]@ by {}
    assert forall|i: int| 0 <= i < pairs@.len() implies ({
        let (tx, receipt) = #[trigger] pairs@[i];
        let raw = raw_extrinsics@[places[i]];
        &&& eth_transact_payload(raw.payload@) == Some(tx@)
        &&& is_receipt_of(
            receipt,
            tx@,
            raw.index as nat,
            receipt_data@[i],
            block_number,
            eth_block_hash,
            known_events(block_events),
            *recover,
        )
    }) by {
        assert(contents.extrinsics[places[i]] == raw_extrinsics@[places[i]]@);
    }
    places
}

/// Whether a transaction is refused with this error: the payload is no transaction, its sender
/// cannot be recovered, or it creates a contract with a nonce of more than 64 bits.
pub open spec fn is_refused<F: Fn(&TransactionSigned) -> Result<H160, ()>>(
    payload: Seq<u8>,
    recover: F,
    error: ClientError,
) -> bool {
    let (to, nonce, _) = crate::evm::transaction_fields(payload);
    ||| !crate::evm::transaction_decodes(payload) && error == ClientError::TxDecodingFailed
    ||| crate::evm::transaction_decodes(payload) && may_recover(recover, payload, None) && error
        == ClientError::RecoverEthAddressFailed
    ||| crate::evm::transaction_decodes(payload) && to is None && nonce is Some && nonce->0
        > u64::MAX && error == ClientError::ConversionFailed
}

/// Whether a transaction is accepted: it decodes, its sender can be recovered, and where it creates a
/// contract its nonce has no more than 64 bits.
pub open spec fn is_accepted<F: Fn(&TransactionSigned) -> Result<H160, ()>>(
    payload: Seq<u8>,
    recover: F,
) -> bool {
    let (to, nonce, _) = crate::evm::transaction_fields(payload);
    &&& crate::evm::transaction_decodes(payload)
    &&& exists|sender: Option<Seq<u8>>|
        sender is Some && #[trigger] may_recover(recover, payload, sender)
    &&& to is None && nonce is Some ==> nonce->0 <= u64::MAX
}

/// Whether the transaction at the i-th of these places is the first that is refused, with this error.
pub open spec fn is_first_refused<F: Fn(&TransactionSigned) -> Result<H160, ()>>(
    extrinsics: Seq<(Seq<u8>, nat)>,
    places: Seq<int>,
    i: int,
    recover: F,
    error: ClientError,
) -> bool {
    &&& is_refused(eth_transact_payload(extrinsics[places[i]].0)->0, recover, error)
    &&& forall|k: int|
        0 <= k < i ==> is_accepted(
            eth_transact_payload(extrinsics[#[trigger] places[k]].0)->0,
            recover,
        )
}

/// Whether an extraction has a reason to fail with this error: there is not one gas entry for each
/// Ethereum transaction, or it is that of the first one that is refused.
pub open spec fn fails_for<F: Fn(&TransactionSigned) -> Result<H160, ()>>(
    extrinsics: Seq<(Seq<u8>, nat)>,
    entries: nat,
    recover: F,
    error: ClientError,
) -> bool {
    exists|places: Seq<int>| #[trigger]
        are_ethereum_places(extrinsics, places) && (if places.len() != entries {
            error == ClientError::ReceiptDataLengthMismatch
        } else {
            exists|i: int|
                0 <= i < places.len() && #[trigger] is_first_refused(
                    extrinsics,
                    places,
                    i,
                    recover,
                    error,
                )
        })
}

proof fn lemma_the_first_error(
    contents: BlockContents,
    senders: Seq<Option<Seq<u8>>>,
    count: nat,
) -> (i: int)
    requires
        contents.receipts(senders, count) is Err,
    ensures
        0 <= i < count,
        receipt_or_error(contents.transaction(i), senders[i]) == Err::<
            crate::evm::ReceiptView,
            ClientError,
        >(contents.receipts(senders, count)->Err_0),
        contents.receipts(senders, i as nat) is Ok,
    decreases count,
{
    let before = (count - 1) as nat;
    if contents.receipts(senders, before) is Err {
        lemma_the_first_error(contents, senders, before)
    } else {
        count - 1
    }
}

proof fn lemma_fails_for<F: Fn(&TransactionSigned) -> Result<H160, ()>>(
    contents: BlockContents,
    recover: F,
    error: ClientError,
)
    requires
        contents.may_extract(recover, Err(error)),
    ensures
        fails_for(contents.extrinsics, contents.gas.len(), recover, error),
{
    let extracted: Result<Seq<(Seq<u8>, crate::evm::ReceiptView)>, ClientError> = Err(error);
    let calls = ethereum_calls(contents.extrinsics);
    let places = calls_are_the_extrinsics_with_a_payload(contents.extrinsics);
    if places.len() == contents.gas.len() {
        let senders = choose|senders: Seq<Option<Seq<u8>>>| #[trigger]
            contents.are_senders(recover, senders) && extracted == contents.receipts(
                senders,
                senders.len(),
            ) && (extracted is Ok ==> senders.len() == calls.len());
        let i = lemma_the_first_error(contents, senders, senders.len());
        receipts_follow_the_extrinsics(contents, senders, i as nat);
        let pairs = contents.receipts(senders, i as nat)->Ok_0;
        let payload = calls[i].0;
        assert(eth_transact_payload(contents.extrinsics[places[i]].0) == Some(payload));
        if crate::evm::transaction_decodes(payload) {
            assert(may_recover(recover, payload, senders[i]));
        }
        assert forall|k: int| 0 <= k < i implies is_accepted(
            eth_transact_payload(contents.extrinsics[#[trigger] places[k]].0)->0,
            recover,
        ) by {
            assert(eth_transact_payload(contents.extrinsics[places[k]].0) == Some(calls[k].0));
            assert(pairs[k].0 == calls[k].0);
            assert(may_recover(recover, calls[k].0, senders[k]));
            assert(senders[k] == Some(pairs[k].1.from));
        }
        assert(is_first_refused(contents.extrinsics, places, i, recover, error));
    }
}

/// An extraction fails only where the receipt data does not have one entry for each Ethereum
/// transaction, or where one of these is refused: then with the error of the first such one.
pub proof fn an_extraction_fails_only_for_a_reason<F: Fn(&TransactionSigned) -> Result<H160, ()>>(
    extractor: ReceiptExtractor,
    block_hash: H256,
    block_number: u32,
    eth_block_hash: H256,
    raw_extrinsics: &[RawExtrinsic],
    receipt_data: &[ReceiptGasInfo],
    block_events: Option<&[ExtrinsicEvents]>,
    recover: &F,
    error: ClientError,
)
    requires
        call_ensures(
            ReceiptExtractor::extract_from_block_raw::<F>,
            (
                &extractor,
                block_hash,
                block_number,
                eth_block_hash,
                raw_extrinsics,
                receipt_data,
                block_events,
                recover,
            ),
            Err(error),
        ),
    ensures
        fails_for(raw_views(raw_extrinsics@), receipt_data@.len(), *recover, error),
{
    let contents = BlockContents {
        number: block_number,
        hash: eth_block_hash@,
        extrinsics: raw_views(raw_extrinsics@),
        gas: receipt_data@,
        events: events_views(known_events(block_events)),
    };
    let extracted: Result<Vec<(TransactionSigned, ReceiptInfo)>, ClientError> = Err(error);
    assert(contents.may_extract(*recover, extracted_view(extracted)));
    lemma_fails_for(contents, *recover, error);
}

/// The extrinsics of a block with their positions.
pub open spec fn positioned(payloads: Seq<Vec<u8>>) -> Seq<(Seq<u8>, nat)> {
    Seq::new(payloads.len(), |i: int| (payloads[i]@, i as nat))
}

/// A block before the earliest one gives no receipts. Of any other block that gives receipts, the
/// gas and the extrinsics are known, and each receipt is that of the extrinsic at its index, with
/// the Ethereum block hash where it is known and else the block hash. Where the gas is not known,
/// or the extrinsics could not be had, it fails with that.
pub proof fn the_receipts_of_a_block_are_those_of_its_extrinsics<
    F: Fn(&TransactionSigned) -> Result<H160, ()>,
>(
    extractor: ReceiptExtractor,
    block: FetchedBlock,
    recover: &F,
    extracted: Result<Vec<(TransactionSigned, ReceiptInfo)>, ClientError>,
)
    requires
        call_ensures(
            ReceiptExtractor::extract_from_block::<F>,
            (&extractor, block, recover),
            extracted,
        ),
    ensures
        extractor.earliest_receipt_block is Some && block.number
            < extractor.earliest_receipt_block->0 ==> (extracted matches Ok(pairs) && pairs@.len()
            == 0),
        extractor.earliest_receipt_block is None || block.number
            >= extractor.earliest_receipt_block->0 ==> {
            &&& block.receipt_data is None ==> extracted == Err::<
                Vec<(TransactionSigned, ReceiptInfo)>,
                ClientError,
            >(ClientError::ReceiptDataNotFound)
            &&& block.receipt_data is Some && block.extrinsics is Err ==> extracted == Err::<
                Vec<(TransactionSigned, ReceiptInfo)>,
                ClientError,
            >(block.extrinsics->Err_0)
            &&& block.receipt_data is Some && block.extrinsics is Ok && extracted is Err
                ==> fails_for(
                positioned(block.extrinsics->Ok_0@),
                block.receipt_data->0@.len(),
                *recover,
                extracted->Err_0,
            )
            &&& extracted matches Ok(pairs) ==> {
                let payloads = block.extrinsics->Ok_0@;
                let hash = match block.eth_block_hash {
                    Some(hash) => hash,
                    None => block.hash,
                };
                let events = match block.events {
                    Some(events) => Some(events@),
                    None => None,
                };
                &&& block.receipt_data matches Some(gas) && pairs@.len() == gas@.len()
                &&& forall|i: int|
                    0 <= i < pairs@.len() ==> {
                        let (tx, receipt) = #[trigger] pairs@[i];
                        let index = receipt.transaction_index@;
                        &&& index < payloads.len()
                        &&& eth_transact_payload(payloads[index as int]@) == Some(tx@)
                        &&& is_receipt_of(
                            receipt,
                            tx@,
                            index,
                            block.receipt_data->0@[i],
                            block.number,
                            hash,
                            events,
                            *recover,
                        )
                    }
                &&& forall|i: int, j: int|
                    0 <= i < j < pairs@.len() ==> (#[trigger] pairs@[i]).1.transaction_index@ < (
                    #[trigger] pairs@[j]).1.transaction_index@
                &&& forall|k: int|
                    0 <= k < payloads.len() && eth_transact_payload((#[trigger] payloads[k])@)
                        is Some ==> exists|i: int|
                        0 <= i < pairs@.len() && (#[trigger] pairs@[i]).1.transaction_index@ == k
            }
        },
{
    assert(extractor.may_extract(*recover, block, extracted_view(extracted)));
    if extractor.skips(block.number as nat) {
        if extracted is Ok {
            assert(extracted_view(extracted)->Ok_0.len() == extracted->Ok_0@.len());
        }
    } else if extracted is Ok && block.receipt_data is Some && block.extrinsics is Ok {
        let pairs = extracted->Ok_0;
        let payloads = block.extrinsics->Ok_0@;
        let contents = block.contents();
        let hash = match block.eth_block_hash {
            Some(hash) => hash,
            None => block.hash,
        };
        let events = match block.events {
            Some(events) => Some(events@),
            None => None,
        };
        let places = lemma_receipts_of_contents(contents, hash, events, *recover, pairs);
        assert forall|i: int| 0 <= i < pairs@.len() implies (
        #[trigger] pairs@[i]).1.transaction_index@ == places[i] && contents.extrinsics[places[i]]
            == (payloads[places[i]]@, places[i] as nat) by {
            assert(0 <= places[i] < contents.extrinsics.len());
        }
        assert forall|k: int|
            0 <= k < payloads.len() && eth_transact_payload(
                (#[trigger] payloads[k])@,
            ) is Some implies exists|i: int|
            0 <= i < pairs@.len() && (#[trigger] pairs@[i]).1.transaction_index@ == k by {
            assert(contents.extrinsics[k].0 == payloads[k]@);
            let i = choose|i: int| 0 <= i < places.len() && places[i] == k;
            assert(pairs@[i].1.transaction_index@ == k);
        }
    } else if extracted is Err && block.receipt_data is Some && block.extrinsics is Ok {
        let contents = block.contents();
        assert(contents.extrinsics =~= positioned(block.extrinsics->Ok_0@));
        lemma_fails_for(contents, *recover, extracted->Err_0);
    }
}

/// The receipt that is extracted for an index is that of the extrinsic at this index. None is found
/// only where the block is left out, where its receipts cannot be extracted, or where this extrinsic
/// is no Ethereum transaction.
pub proof fn a_single_receipt_is_that_of_its_extrinsic<
    F: Fn(&TransactionSigned) -> Result<H160, ()>,
>(
    extractor: ReceiptExtractor,
    block: FetchedBlock,
    transaction_index: usize,
    recover: &F,
    found: Result<(TransactionSigned, ReceiptInfo), ClientError>,
)
    requires
        call_ensures(
            ReceiptExtractor::extract_from_transaction::<F>,
            (&extractor, block, transaction_index, recover),
            found,
        ),
    ensures
        found matches Ok((tx, receipt)) ==> {
            let payloads = block.extrinsics->Ok_0@;
            &&& receipt.transaction_index@ == transaction_index
            &&& block.extrinsics is Ok && block.receipt_data is Some
            &&& transaction_index < payloads.len()
            &&& eth_transact_payload(payloads[transaction_index as int]@) == Some(tx@)
            &&& receipt.transaction_hash@ == crate::crypto::keccak_digest(tx@)
            &&& receipt.block_number@ == block.number
            &&& receipt.block_hash@ == (match block.eth_block_hash {
                Some(hash) => hash@,
                None => block.hash@,
            })
            &&& ({
                // How many Ethereum transactions come before it tells which gas is its own.
                let earlier = ethereum_calls(
                    Seq::new(transaction_index as nat, |i: int| (payloads[i]@, i as nat)),
                ).len() as int;
                &&& earlier < block.receipt_data->0@.len()
                &&& receipt.gas_used@ == block.receipt_data->0@[earlier].gas_used@
                &&& receipt.effective_gas_price@
                    == block.receipt_data->0@[earlier].effective_gas_price@
            })
            &&& may_recover(*recover, tx@, Some(receipt.from@))
        },
        found matches Err(error) ==> {
            let is_skipped = extractor.earliest_receipt_block is Some && block.number
                < extractor.earliest_receipt_block->0;
            if is_skipped {
                error == ClientError::EthExtrinsicNotFound
            } else if block.receipt_data is None {
                error == ClientError::ReceiptDataNotFound
            } else if block.extrinsics is Err {
                error == block.extrinsics->Err_0
            } else {
                let payloads = block.extrinsics->Ok_0@;
                ||| fails_for(
                    positioned(payloads),
                    block.receipt_data->0@.len(),
                    *recover,
                    error,
                )
                ||| error == ClientError::EthExtrinsicNotFound && (transaction_index
                    >= payloads.len() || eth_transact_payload(payloads[transaction_index as int]@)
                    is None)
            }
        },
{
    let extracted = choose|extracted: Result<Seq<(Seq<u8>, crate::evm::ReceiptView)>, ClientError>|
        #[trigger] extractor.may_extract(*recover, block, extracted) && match found {
            Ok(pair) => extracted is Ok && first_with_index(
                extracted->Ok_0,
                transaction_index as nat,
            ) == Some(receipt_pair(pair)),
            Err(error) => match extracted {
                Ok(pairs) => error == ClientError::EthExtrinsicNotFound && first_with_index(
                    pairs,
                    transaction_index as nat,
                ) is None,
                Err(failed) => error == failed,
            },
        };
    if extracted is Ok {
        the_first_with_an_index_is_found(extracted->Ok_0, transaction_index as nat);
    }
    if !extractor.skips(block.number as nat) && block.receipt_data is Some && block.extrinsics is Ok {
        let payloads = block.extrinsics->Ok_0@;
        let contents = block.contents();
        let calls = ethereum_calls(contents.extrinsics);
        let places = calls_are_the_extrinsics_with_a_payload(contents.extrinsics);
        assert(contents.extrinsics =~= positioned(payloads));
        if extracted is Err {
            lemma_fails_for(contents, *recover, extracted->Err_0);
        }
        if calls.len() == contents.gas.len() {
            let senders = choose|senders: Seq<Option<Seq<u8>>>| #[trigger]
                contents.are_senders(*recover, senders) && extracted == contents.receipts(
                    senders,
                    senders.len(),
                ) && (extracted is Ok ==> senders.len() == calls.len());
            if extracted is Ok {
                let pairs = extracted->Ok_0;
                receipts_follow_the_extrinsics(contents, senders, senders.len());
                if found is Ok {
                    let pair = found->Ok_0;
                    let i = choose|i: int|
                        0 <= i < pairs.len() && #[trigger] pairs[i] == receipt_pair(pair);
                    assert(calls[i].1 == transaction_index);
                    assert(contents.extrinsics[places[i]] == (
                        payloads[places[i]]@,
                        places[i] as nat,
                    ));
                    assert(places[i] == transaction_index);
                    assert(contents.extrinsics.take(places[i]) =~= Seq::new(
                        transaction_index as nat,
                        |i: int| (payloads[i]@, i as nat),
                    ));
                    assert(may_recover(*recover, calls[i].0, senders[i]));
                } else if transaction_index < payloads.len() && eth_transact_payload(
                    payloads[transaction_index as int]@,
                ) is Some {
                    let k = transaction_index as int;
                    assert(contents.extrinsics[k] == (payloads[k]@, k as nat));
                    let i = choose|i: int| 0 <= i < places.len() && places[i] == k;
                    assert(calls[i].1 == k);
                    assert(pairs[i].1.transaction_index == k);
                }
            }
        }
    }
}

/// An extrinsic is an Ethereum transaction exactly where a version byte, the index 253 of the pallet
/// and the index 0 of the call follow its length prefix, of which the two low bits of the first byte
/// tell the width, and a byte string follows them: that is the payload.
pub proof fn a_decoded_payload_is_the_argument_of_the_call(
    raw: RawExtrinsic,
    payload: Option<Vec<u8>>,
)
    requires
        call_ensures(ReceiptExtractor::decode_eth_transact, (&raw,), payload),
    ensures
        ({
            let bytes = raw.payload@;
            let is_call = |width: int|
                bytes.len() >= width + 3 && bytes[width + 1] == 253 && bytes[width + 2] == 0;
            let width: int = if bytes[0] % 4 == 0 {
                1
            } else if bytes[0] % 4 == 1 {
                2
            } else {
                4
            };
            &&& payload matches Some(payload) ==> bytes.len() > 0 && bytes[0] % 4 != 3 && is_call(
                width,
            ) && payload@.len() <= u32::MAX && bytes.len() >= width + 3
                + crate::scale::compact_form(payload@.len()).len() + payload@.len()
                && bytes.subrange(
                width + 3,
                width + 3 + crate::scale::compact_form(payload@.len()).len() + payload@.len(),
            ) == crate::scale::compact_form(payload@.len()) + payload@
            &&& payload is None && bytes.len() > 0 && bytes[0] % 4 != 3 && is_call(width) ==> forall|
                value: Seq<u8>,
                rest: Seq<u8>,
            |
                value.len() <= u32::MAX ==> bytes.skip(width + 3) != #[trigger] (
                crate::scale::compact_form(value.len()) + value + rest)
        }),
{
    let bytes = raw.payload@;
    if bytes.len() > 0 && bytes[0] % 4 != 3 {
        let width: int = if bytes[0] % 4 == 0 {
            1
        } else if bytes[0] % 4 == 1 {
            2
        } else {
            4
        };
        let argument = bytes.skip(width + 3);
        match payload {
            Some(payload) => {
                crate::scale::a_byte_string_begins_with_its_length(argument, payload@);
                let end = crate::scale::compact_form(payload@.len()).len() + payload@.len();
                assert(bytes.subrange(width + 3, width + 3 + end) =~= argument.take(end as int));
            },
            None => {
                assert forall|value: Seq<u8>, rest: Seq<u8>|
                    value.len() <= u32::MAX && bytes.len() >= width + 3 && bytes[width + 1] == 253
                        && bytes[width + 2] == 0 implies argument != #[trigger] (
                crate::scale::compact_form(value.len()) + value + rest) by {
                    crate::scale::a_byte_string_is_read_back(value, rest);
                }
            },
        }
    }
}

/// Whether a log has the contract, the topics and the data of an event by which a contract emitted
/// one.
pub open spec fn tells_of(event: RuntimeEvent, log: EmittedView) -> bool {
    match event {
        RuntimeEvent::ContractEmitted { contract, topics, data } => {
            &&& log.0 == contract@
            &&& log.1 == crate::evm::hash_bytes(topics@)
            &&& log.2 == Some(data@)
        },
        _ => false,
    }
}

/// The logs of an extrinsic are those that contracts emitted, each once and in order, and it failed
/// only where a revert was found.
pub proof fn events_become_what_contracts_emitted(
    reverted: Option<bool>,
    events: &[RuntimeEvent],
    result: ExtrinsicEvents,
) -> (places: Seq<int>)
    requires
        call_ensures(ExtrinsicEvents::from_events, (reverted, events), result),
    ensures
        result.success <==> reverted != Some(true),
        result.logs@.len() == places.len(),
        forall|a: int, b: int|
            0 <= a < b < places.len() ==> #[trigger] places[a] < #[trigger] places[b],
        forall|k: int|
            0 <= k < events@.len() && #[trigger] events@[k] is ContractEmitted ==> places.contains(
                k,
            ),
        forall|i: int| 0 <= i < places.len() ==> 0 <= #[trigger] places[i] < events@.len(),
        forall|i: int|
            0 <= i < places.len() ==> tells_of(
                events@[#[trigger] places[i]],
                emitted_view(result.logs@[i]),
            ),
{
    let places = lemma_emitted_places(events@);
    assert(result@.logs == emitted_logs(events@));
    assert(result@.logs.len() == result.logs@.len());
    assert forall|i: int| 0 <= i < places.len() implies tells_of(
        events@[#[trigger] places[i]],
        emitted_view(result.logs@[i]),
    ) by {
        assert(result@.logs[i] == emitted_view(result.logs@[i]));
        assert(emitted_logs(events@)[i] == result@.logs[i]);
    }
    places
}

proof fn lemma_emitted_places(events: Seq<RuntimeEvent>) -> (places: Seq<int>)
    ensures
        places.len() == emitted_logs(events).len(),
        forall|a: int, b: int|
            0 <= a < b < places.len() ==> #[trigger] places[a] < #[trigger] places[b],
        forall|k: int|
            0 <= k < events.len() && #[trigger] events[k] is ContractEmitted ==> places.contains(k),
        forall|i: int| 0 <= i < places.len() ==> 0 <= #[trigger] places[i] < events.len(),
        forall|i: int|
            0 <= i < places.len() ==> tells_of(
                events[#[trigger] places[i]],
                emitted_logs(events)[i],
            ),
    decreases events.len(),
{
    if events.len() == 0 {
        seq![]
    } else {
        let before = events.drop_last();
        let end = events.len() - 1;
        let earlier = lemma_emitted_places(before);
        let places = if events[end] is ContractEmitted {
            earlier.push(end)
        } else {
            earlier
        };
        assert forall|i: int| 0 <= i < places.len() implies 0 <= #[trigger] places[i]
            < events.len() && tells_of(events[places[i]], emitted_logs(events)[i]) by {
            if i < earlier.len() {
                assert(emitted_logs(events)[i] == emitted_logs(before)[i]);
                assert(places[i] == earlier[i]);
                assert(events[places[i]] == before[places[i]]);
            }
        }
        assert forall|a: int, b: int| 0 <= a < b < places.len() implies #[trigger] places[a]
            < #[trigger] places[b] by {
            assert(places[a] == earlier[a]);
            assert(emitted_logs(before)[a] == emitted_logs(before)[a]);
            if b < earlier.len() {
                assert(places[b] == earlier[b]);
            }
        }
        assert forall|k: int|
            0 <= k < events.len() && #[trigger] events[k] is ContractEmitted implies places.contains(
            k,
        ) by {
            if k < end {
                assert(before[k] == events[k]);
                let a = choose|a: int| 0 <= a < earlier.len() && earlier[a] == k;
                assert(places[a] == k);
            } else {
                assert(places[earlier.len() as int] == k);
            }
        }
        places
    }
}

/// The logs of a receipt are those that were emitted, numbered from zero, each with the place of the
/// transaction.
pub proof fn built_logs_are_those_that_were_emitted(
    events: ExtrinsicEvents,
    block_number: U256,
    block_hash: H256,
    transaction_hash: H256,
    transaction_index: usize,
    logs: Vec<Log>,
)
    requires
        call_ensures(
            build_logs,
            (&events, block_number, block_hash, transaction_hash, transaction_index),
            logs,
        ),
    ensures
        logs@.len() == events.logs@.len(),
        forall|j: int|
            0 <= j < logs@.len() ==> {
                let log = #[trigger] logs@[j];
                let emitted = events.logs@[j];
                &&& log.address@ == emitted.0@
                &&& crate::evm::hash_bytes(log.topics@) == crate::evm::hash_bytes(emitted.1@)
                &&& crate::evm::data_bytes(log.data) == crate::evm::data_bytes(emitted.2)
                &&& log.log_index@ == j
                &&& !log.removed
                &&& log.transaction_hash@ == transaction_hash@
                &&& log.transaction_index@ == transaction_index
                &&& log.block_hash@ == block_hash@
                &&& log.block_number@ == block_number@
            },
{
    let views = crate::evm::log_views(logs@);
    assert(views.len() == logs@.len());
    assert forall|j: int| 0 <= j < logs@.len() implies ({
        let log = #[trigger] logs@[j];
        let emitted = events.logs@[j];
        &&& log.address@ == emitted.0@
        &&& crate::evm::hash_bytes(log.topics@) == crate::evm::hash_bytes(emitted.1@)
        &&& crate::evm::data_bytes(log.data) == crate::evm::data_bytes(emitted.2)
        &&& log.log_index@ == j
        &&& !log.removed
        &&& log.transaction_hash@ == transaction_hash@
        &&& log.transaction_index@ == transaction_index
        &&& log.block_hash@ == block_hash@
        &&& log.block_number@ == block_number@
    }) by {
        assert(views[j] == logs@[j]@);
        assert(events@.logs[j] == emitted_view(events.logs@[j]));
    }
}

/// A transaction creates a contract exactly where it has no receiver, with its own nonce, or with
/// zero where it has none; a nonce of more than 64 bits is refused.
pub proof fn only_transactions_without_a_receiver_create_contracts(
    tx: GenericTransaction,
    nonce: Result<Option<u64>, ClientError>,
)
    requires
        call_ensures(contract_creation, (&tx,), nonce),
    ensures
        tx.to is Some ==> nonce == Ok::<Option<u64>, ClientError>(None),
        tx.to is None && tx.nonce is None ==> nonce == Ok::<Option<u64>, ClientError>(Some(0)),
        tx.to is None && tx.nonce is Some ==> (match nonce {
            Ok(nonce) => nonce is Some && nonce->0 == tx.nonce->0@,
            Err(error) => error == ClientError::ConversionFailed && tx.nonce->0@ > u64::MAX,
        }),
{
}

/// A block is left out exactly where there is an earliest one and the block comes before it.
pub proof fn only_blocks_before_the_earliest_are_left_out(
    earliest_receipt_block: Option<u32>,
    extractor: ReceiptExtractor,
    block_number: u32,
    before: bool,
)
    requires
        call_ensures(ReceiptExtractor::new, (earliest_receipt_block,), extractor),
        call_ensures(
            ReceiptExtractor::is_before_earliest_block,
            (&extractor, block_number),
            before,
        ),
    ensures
        before <==> earliest_receipt_block is Some && block_number < earliest_receipt_block->0,
{
}

/// A receipt that is built has what it was built from: the gas, the place, the events, and of the
/// transaction its hash, its sender, its receiver and its type.
pub proof fn a_built_receipt_has_what_it_was_built_from<
    F: Fn(&TransactionSigned) -> Result<H160, ()>,
>(
    extractor: ReceiptExtractor,
    block_number: u32,
    eth_block_hash: H256,
    events: ExtrinsicEvents,
    payload: &[u8],
    gas: ReceiptGasInfo,
    transaction_index: usize,
    recover: &F,
    built: Result<(TransactionSigned, ReceiptInfo), ClientError>,
)
    requires
        call_ensures(
            ReceiptExtractor::build_receipt::<F>,
            (
                &extractor,
                block_number,
                eth_block_hash,
                &events,
                payload,
                &gas,
                transaction_index,
                recover,
            ),
            built,
        ),
    ensures
        built matches Ok((tx, receipt)) ==> {
            &&& tx@ == payload@
            &&& receipt.gas_used@ == gas.gas_used@
            &&& receipt.effective_gas_price@ == gas.effective_gas_price@
            &&& receipt.transaction_index@ == transaction_index
            &&& receipt.block_number@ == block_number
            &&& receipt.block_hash@ == eth_block_hash@
            &&& receipt.status matches Some(status) && status@ == (if events.success {
                1nat
            } else {
                0nat
            })
            &&& logs_tell(receipt.logs@, events.logs@, receipt)
            &&& receipt_names_its_transaction(receipt, payload@, *recover)
            &&& receipt.logs_bloom@ == crate::evm::bloom_filter(
                crate::evm::bloom_entries(crate::evm::log_views(receipt.logs@)),
            )
        },
        built matches Err(error) ==> is_refused(payload@, *recover, error),
{
    let site = TransactionSite {
        block_number,
        block_hash: eth_block_hash@,
        events: events@,
        payload: payload@,
        gas,
        index: transaction_index as nat,
    };
    let sender = choose|sender: Option<Seq<u8>>|
        (crate::evm::transaction_decodes(payload@) ==> may_recover(*recover, payload@, sender))
            && #[trigger] built_from(site, sender, built);
    if built is Ok {
        let receipt = built->Ok_0.1;
        lemma_logs_tell(
            receipt,
            events,
            block_number as nat,
            eth_block_hash@,
            receipt.transaction_hash@,
            transaction_index as nat,
        );
    }
}

} // verus!

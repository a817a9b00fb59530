//! The Ethereum types that the server speaks of: signed transactions, logs, receipts and log
//! filters.

use crate::primitives::{H160, H256, U256};
use pallet_revive::evm::{
    AccessList, Address, AuthorizationListEntry, Byte, Bytes, InputOrData, U256 as Word,
};
use parity_scale_codec::{Decode, Encode};
use vstd::prelude::*;

verus! {

/// The bytes of each hash.
pub open spec fn hash_bytes(hashes: Seq<H256>) -> Seq<Seq<u8>> {
    hashes.map_values(|hash: H256| hash@)
}

/// The bytes of an address, where there is one.
pub open spec fn address_bytes(address: Option<H160>) -> Option<Seq<u8>> {
    match address {
        Some(address) => Some(address@),
        None => None,
    }
}

/// The bytes of a byte vector, where there is one.
pub open spec fn data_bytes(data: Option<Vec<u8>>) -> Option<Seq<u8>> {
    match data {
        Some(data) => Some(data@),
        None => None,
    }
}

/// The value of an integer, where there is one.
pub open spec fn integer_value(integer: Option<U256>) -> Option<nat> {
    match integer {
        Some(integer) => Some(integer@),
        None => None,
    }
}

/// Whether the bytes are a signed transaction: whether `TransactionSigned::decode` of the
/// `pallet-revive` crate accepts them.
pub uninterp spec fn transaction_decodes(payload: Seq<u8>) -> bool;

/// The address that `TransactionSigned::recover_eth_address` of the `pallet-revive` crate recovers
/// from the signature of the transaction with this payload, or nothing where it fails.
pub uninterp spec fn recovered_signer(payload: Seq<u8>) -> Option<Seq<u8>>;

/// The receiver, the nonce and the type that `GenericTransaction::from_signed` of the
/// `pallet-revive` crate reads off the transaction with this payload.
pub uninterp spec fn transaction_fields(payload: Seq<u8>) -> (
    Option<Seq<u8>>,
    Option<nat>,
    Option<u8>,
);

/// The bytes of an integer, the highest first and without leading zeros.
pub open spec fn big_endian(value: nat) -> Seq<u8>
    decreases value,
{
    if value == 0 {
        seq![]
    } else {
        big_endian(value / 0x100).push((value % 0x100) as u8)
    }
}

/// The RLP form of a 64-bit integer: a small one is its own form, else a byte that tells the length
/// comes before its bytes.
pub open spec fn rlp_integer(value: u64) -> Seq<u8> {
    if 0 < value < 0x80 {
        seq![value as u8]
    } else {
        let bytes = big_endian(value as nat);
        seq![(0x80 + bytes.len()) as u8] + bytes
    }
}

/// The address of the contract that the deployer creates with this nonce: the last twenty bytes of
/// the hash of the RLP list of the two.
pub open spec fn contract_created_by(deployer: Seq<u8>, nonce: u64) -> Seq<u8> {
    let items = seq![0x94u8] + deployer + rlp_integer(nonce);
    crate::crypto::keccak_digest(seq![(0xc0 + items.len()) as u8] + items).skip(12)
}

/// Whether an item sets a bit of a bloom filter: the low eleven bits of each of the first three
/// pairs of bytes of its hash name one.
pub open spec fn sets_bit(item: Seq<u8>, bit: int) -> bool {
    let hash = crate::crypto::keccak_digest(item);
    ||| bit == (0x100 * hash[0] + hash[1]) % 0x800
    ||| bit == (0x100 * hash[2] + hash[3]) % 0x800
    ||| bit == (0x100 * hash[4] + hash[5]) % 0x800
}

/// One where the address or a topic of one of the logs sets the bit, else zero.
pub open spec fn bloom_bit(logs: Seq<(Seq<u8>, Seq<Seq<u8>>)>, bit: int) -> int {
    if exists|i: int|
        0 <= i < logs.len() && (sets_bit((#[trigger] logs[i]).0, bit) || exists|j: int|
            0 <= j < logs[i].1.len() && sets_bit(#[trigger] logs[i].1[j], bit)) {
        1
    } else {
        0
    }
}

/// The bloom filter of logs with these addresses and topics: 2048 bits, the lowest in the last byte.
pub open spec fn bloom_filter(logs: Seq<(Seq<u8>, Seq<Seq<u8>>)>) -> Seq<u8> {
    Seq::new(
        256,
        |k: int|
            {
                let low = 8 * (255 - k);
                (bloom_bit(logs, low) + 2 * bloom_bit(logs, low + 1) + 4 * bloom_bit(logs, low + 2)
                    + 8 * bloom_bit(logs, low + 3) + 16 * bloom_bit(logs, low + 4) + 32 * bloom_bit(
                    logs,
                    low + 5,
                ) + 64 * bloom_bit(logs, low + 6) + 128 * bloom_bit(logs, low + 7)) as u8
            },
    )
}

/// Calls `TransactionSigned::decode` of the `pallet-revive` crate and says whether it succeeded.
/// Its outcome is named and not stated: it is decided by the RLP encoding of five transaction
/// types.
#[verifier::external_body]
fn can_decode_transaction(payload: &[u8]) -> (decodes: bool)
    ensures
        decodes == transaction_decodes(payload@),
{
    pallet_revive::evm::TransactionSigned::decode(payload).is_ok()
}

/// Calls `TransactionSigned::recover_eth_address` of the `pallet-revive` crate on the transaction
/// with this payload. What it recovers is named and not stated.
#[verifier::external_body]
fn recover_signer(payload: &[u8]) -> (signer: Option<H160>)
    requires
        transaction_decodes(payload@),
    ensures
        address_bytes(signer) == recovered_signer(payload@),
{
    let decoded = pallet_revive::evm::TransactionSigned::decode(payload);
    let signer = decoded.expect("the payload decodes").recover_eth_address();
    signer.ok().map(|address| H160(address.0))
}

/// The fields of `GenericTransaction` of the `pallet-revive` crate in their order: the type is the
/// last but one.
type TransactionFields = (
    Option<AccessList>,
    Vec<AuthorizationListEntry>,
    Vec<sp_core::H256>,
    Vec<Bytes>,
    Option<Word>,
    Option<Address>,
    Option<Word>,
    Option<Word>,
    InputOrData,
    Option<Word>,
    Option<Word>,
    Option<Word>,
    Option<Word>,
    Option<Address>,
    Option<Byte>,
    Option<Word>,
);

/// Calls `GenericTransaction::from_signed` of the `pallet-revive` crate on the transaction with
/// this payload and hands back the receiver, the nonce and the type. All three come from the
/// transaction alone: the gas price and the sender only fill other fields. The fields are read as
/// a tuple, which has the same SCALE encoding as the struct.
#[verifier::external_body]
fn read_transaction(payload: &[u8], gas_price: &U256, from: &H160) -> (fields: (
    Option<H160>,
    Option<U256>,
    Option<u8>,
))
    requires
        transaction_decodes(payload@),
    ensures
        (address_bytes(fields.0), integer_value(fields.1), fields.2) == transaction_fields(
            payload@,
        ),
{
    let decoded = pallet_revive::evm::TransactionSigned::decode(payload);
    let signed = decoded.expect("the payload decodes");
    let price = (sp_core::U256::from(gas_price.high) << 128) | sp_core::U256::from(gas_price.low);
    let sender = Some(sp_core::H160(from.0));
    let tx = pallet_revive::evm::GenericTransaction::from_signed(signed, price, sender);
    let nonce = tx.nonce.map(|n| U256 { high: (n >> 128).low_u128(), low: n.low_u128() });
    let encoded = Encode::encode(&tx);
    let fields: TransactionFields = Decode::decode(&mut encoded.as_slice()).expect("the fields");
    let (.., tx_type, _) = fields;
    (tx.to.map(|to| H160(to.0)), nonce, tx_type.map(|byte| byte.0))
}

/// Calls `create1` of the `pallet-revive` crate: it hashes the RLP list of the deployer and the nonce
/// with Keccak-256 and takes the last twenty bytes.
#[verifier::external_body]
pub(crate) fn create1(deployer: &H160, nonce: u64) -> (address: H160)
    ensures
        address@ == contract_created_by(deployer@, nonce),
{
    H160(pallet_revive::create1(&sp_core::H160(deployer.0), nonce).0)
}

/// Calls `ReceiptInfo::new` of the `pallet-revive` crate on the logs, for the bloom filter that it
/// computes from their addresses and topics: each of them sets the three bits that its Keccak-256
/// hash names.
#[verifier::external_body]
pub(crate) fn logs_bloom(logs: &Vec<Log>) -> (bloom: [u8; 256])
    ensures
        bloom@ == bloom_filter(bloom_entries(log_views(logs@))),
{
    let logs = logs.iter().map(|log| pallet_revive::evm::Log {
        address: sp_core::H160(log.address.0),
        topics: log.topics.iter().map(|topic| sp_core::H256(topic.0)).collect(),
        ..Default::default()
    }).collect();
    let (none, zero, hash) = (Default::default(), Default::default(), Default::default());
    pallet_revive::evm::ReceiptInfo::new(
        hash, zero, none, Default::default(), logs, none, zero, zero, true, hash, zero,
        Default::default(),
    ).logs_bloom.0
}

/// A signed Ethereum transaction, as the bytes that it was decoded from.
#[derive(Debug)]
pub struct TransactionSigned {
    payload: Vec<u8>,
}

impl View for TransactionSigned {
    type V = Seq<u8>;

    closed spec fn view(&self) -> Seq<u8> {
        self.payload@
    }
}

impl Clone for TransactionSigned {
    fn clone(&self) -> (copy: Self)
        ensures
            copy@ == self@,
    {
        proof {
            use_type_invariant(self);
        }
        TransactionSigned { payload: self.payload.clone() }
    }
}

impl TransactionSigned {
    #[verifier::type_invariant]
    spec fn is_valid(self) -> bool {
        transaction_decodes(self.payload@)
    }

    /// The transaction with the given payload, or an error where the bytes are none.
    pub fn decode(payload: &[u8]) -> (tx: Result<TransactionSigned, ()>)
        ensures
            tx is Ok <==> transaction_decodes(payload@),
            tx matches Ok(tx) ==> tx@ == payload@,
    {
        if can_decode_transaction(payload) {
            Ok(TransactionSigned { payload: vstd::slice::slice_to_vec(payload) })
        } else {
            Err(())
        }
    }

    /// The bytes of the transaction.
    pub fn payload(&self) -> (payload: &[u8])
        ensures
            payload@ == self@,
    {
        self.payload.as_slice()
    }

    /// The address that signed the transaction, or an error where the signature gives none.
    pub fn recover_eth_address(&self) -> (address: Result<H160, ()>)
        ensures
            match address {
                Ok(address) => recovered_signer(self@) == Some(address@),
                Err(_) => recovered_signer(self@) is None,
            },
    {
        proof {
            use_type_invariant(self);
        }
        match recover_signer(self.payload.as_slice()) {
            Some(address) => Ok(address),
            None => Err(()),
        }
    }
}

/// What a receipt takes over from a transaction of any type.
#[derive(Clone, Copy, Debug)]
pub struct GenericTransaction {
    /// The receiver, or nothing where the transaction creates a contract.
    pub to: Option<H160>,
    /// The nonce of the sender.
    pub nonce: Option<U256>,
    /// The type of the transaction.
    pub tx_type: Option<u8>,
}

impl GenericTransaction {
    /// Reads the fields off a signed transaction.
    pub fn from_signed(tx: &TransactionSigned, gas_price: &U256, from: &H160) -> (r: Self)
        ensures
            address_bytes(r.to) == transaction_fields(tx@).0,
            integer_value(r.nonce) == transaction_fields(tx@).1,
            r.tx_type == transaction_fields(tx@).2,
    {
        proof {
            use_type_invariant(tx);
        }
        let (to, nonce, tx_type) = read_transaction(tx.payload.as_slice(), gas_price, from);
        GenericTransaction { to, nonce, tx_type }
    }
}

/// A log that a contract emitted.
#[derive(Debug)]
pub struct Log {
    /// The contract that emitted the log.
    pub address: H160,
    /// The hash of the Ethereum block.
    pub block_hash: H256,
    /// The number of the block.
    pub block_number: U256,
    /// The data of the log.
    pub data: Option<Vec<u8>>,
    /// The position of the log in its receipt.
    pub log_index: U256,
    /// Whether the log was removed by a reorganisation.
    pub removed: bool,
    /// The topics of the log.
    pub topics: Vec<H256>,
    /// The hash of the transaction.
    pub transaction_hash: H256,
    /// The index of the transaction in its block.
    pub transaction_index: U256,
}

/// What a log says.
#[verifier::ext_equal]
pub ghost struct LogView {
    pub address: Seq<u8>,
    pub block_hash: Seq<u8>,
    pub block_number: nat,
    pub data: Option<Seq<u8>>,
    pub log_index: nat,
    pub removed: bool,
    pub topics: Seq<Seq<u8>>,
    pub transaction_hash: Seq<u8>,
    pub transaction_index: nat,
}

impl View for Log {
    type V = LogView;

    open spec fn view(&self) -> LogView {
        LogView {
            address: self.address@,
            block_hash: self.block_hash@,
            block_number: self.block_number@,
            data: data_bytes(self.data),
            log_index: self.log_index@,
            removed: self.removed,
            topics: hash_bytes(self.topics@),
            transaction_hash: self.transaction_hash@,
            transaction_index: self.transaction_index@,
        }
    }
}

/// What each log says.
pub open spec fn log_views(logs: Seq<Log>) -> Seq<LogView> {
    logs.map_values(|log: Log| log@)
}

/// What the bloom filter of a receipt is made from.
pub open spec fn bloom_entries(logs: Seq<LogView>) -> Seq<(Seq<u8>, Seq<Seq<u8>>)> {
    logs.map_values(|log: LogView| (log.address, log.topics))
}

/// The receipt of a transaction.
#[derive(Debug)]
pub struct ReceiptInfo {
    /// The price of blob gas.
    pub blob_gas_price: Option<U256>,
    /// The blob gas that was used.
    pub blob_gas_used: Option<U256>,
    /// The hash of the Ethereum block.
    pub block_hash: H256,
    /// The number of the block.
    pub block_number: U256,
    /// The contract that the transaction created.
    pub contract_address: Option<H160>,
    /// The gas used by this transaction and those before it in the block.
    pub cumulative_gas_used: U256,
    /// The price that was paid for gas.
    pub effective_gas_price: U256,
    /// The sender.
    pub from: H160,
    /// The gas that was used.
    pub gas_used: U256,
    /// The logs that were emitted.
    pub logs: Vec<Log>,
    /// The bloom filter of the logs.
    pub logs_bloom: [u8; 256],
    /// The state root after the transaction.
    pub root: Option<H256>,
    /// One where the transaction succeeded, else zero.
    pub status: Option<U256>,
    /// The receiver, or nothing where the transaction creates a contract.
    pub to: Option<H160>,
    /// The hash of the transaction.
    pub transaction_hash: H256,
    /// The index of the transaction in its block.
    pub transaction_index: U256,
    /// The type of the transaction.
    pub tx_type: Option<u8>,
}

/// What a receipt says.
#[verifier::ext_equal]
pub ghost struct ReceiptView {
    pub blob_gas_price: Option<U256>,
    pub blob_gas_used: Option<U256>,
    pub block_hash: Seq<u8>,
    pub block_number: nat,
    pub contract_address: Option<Seq<u8>>,
    pub cumulative_gas_used: nat,
    pub effective_gas_price: nat,
    pub from: Seq<u8>,
    pub gas_used: nat,
    pub logs: Seq<LogView>,
    pub logs_bloom: Seq<u8>,
    pub root: Option<H256>,
    pub status: Option<U256>,
    pub to: Option<Seq<u8>>,
    pub transaction_hash: Seq<u8>,
    pub transaction_index: nat,
    pub tx_type: Option<u8>,
}

impl View for ReceiptInfo {
    type V = ReceiptView;

    open spec fn view(&self) -> ReceiptView {
        ReceiptView {
            blob_gas_price: self.blob_gas_price,
            blob_gas_used: self.blob_gas_used,
            block_hash: self.block_hash@,
            block_number: self.block_number@,
            contract_address: address_bytes(self.contract_address),
            cumulative_gas_used: self.cumulative_gas_used@,
            effective_gas_price: self.effective_gas_price@,
            from: self.from@,
            gas_used: self.gas_used@,
            logs: log_views(self.logs@),
            logs_bloom: self.logs_bloom@,
            root: self.root,
            status: self.status,
            to: address_bytes(self.to),
            transaction_hash: self.transaction_hash@,
            transaction_index: self.transaction_index@,
            tx_type: self.tx_type,
        }
    }
}

impl ReceiptInfo {
    /// Initialize a new receipt, given the bloom filter of its logs.
    pub fn new(
        block_hash: H256,
        block_number: U256,
        contract_address: Option<H160>,
        from: H160,
        logs: Vec<Log>,
        logs_bloom: [u8; 256],
        to: Option<H160>,
        effective_gas_price: U256,
        gas_used: U256,
        success: bool,
        transaction_hash: H256,
        transaction_index: U256,
        tx_type: u8,
    ) -> (receipt: ReceiptInfo)
        ensures
            receipt@ == (ReceiptView {
                blob_gas_price: None,
                blob_gas_used: None,
                block_hash: block_hash@,
                block_number: block_number@,
                contract_address: address_bytes(contract_address),
                cumulative_gas_used: 0,
                effective_gas_price: effective_gas_price@,
                from: from@,
                gas_used: gas_used@,
                logs: log_views(logs@),
                logs_bloom: logs_bloom@,
                root: None,
                status: Some(
                    U256::of(
                        if success {
                            1
                        } else {
                            0
                        },
                    ),
                ),
                to: address_bytes(to),
                transaction_hash: transaction_hash@,
                transaction_index: transaction_index@,
                tx_type: Some(tx_type),
            }),
            receipt.block_hash == block_hash,
            receipt.block_number == block_number,
            receipt.contract_address == contract_address,
            receipt.cumulative_gas_used@ == 0,
            receipt.effective_gas_price == effective_gas_price,
            receipt.from == from,
            receipt.gas_used == gas_used,
            receipt.logs == logs,
            receipt.logs_bloom == logs_bloom,
            receipt.status matches Some(status) && status@ == (if success {
                1nat
            } else {
                0nat
            }),
            receipt.to == to,
            receipt.transaction_hash == transaction_hash,
            receipt.transaction_index == transaction_index,
            receipt.tx_type == Some(tx_type),
            receipt.blob_gas_price is None && receipt.blob_gas_used is None && receipt.root is None,
    {
        ReceiptInfo {
            blob_gas_price: None,
            blob_gas_used: None,
            block_hash,
            block_number,
            contract_address,
            cumulative_gas_used: U256::zero(),
            effective_gas_price,
            from,
            gas_used,
            logs,
            logs_bloom,
            root: None,
            status: Some(
                if success {
                    U256::from_u64(1)
                } else {
                    U256::zero()
                },
            ),
            to,
            transaction_hash,
            transaction_index,
            tx_type: Some(tx_type),
        }
    }
}

/// The gas that a transaction used and the price that it paid.
#[derive(Clone, Copy, Debug, PartialEq, Eq, Structural)]
pub struct ReceiptGasInfo {
    /// The gas that was used.
    pub gas_used: U256,
    /// The price that was paid for gas.
    pub effective_gas_price: U256,
}

/// A name for a block.
#[derive(Clone, Copy, Debug, PartialEq, Eq, Structural)]
pub enum BlockTag {
    /// The first block.
    Earliest,
    /// The latest finalized block.
    Finalized,
    /// The latest safe block.
    Safe,
    /// The latest block.
    Latest,
    /// The block that is being built.
    Pending,
}

/// A block number or a tag.
#[derive(Clone, Copy, Debug, PartialEq, Eq, Structural)]
pub enum BlockNumberOrTag {
    /// A block number.
    U256(U256),
    /// A block tag.
    BlockTag(BlockTag),
}

/// A block number, a tag or a block hash.
#[derive(Clone, Copy, Debug)]
pub enum BlockNumberOrTagOrHash {
    /// A block number.
    BlockNumber(U256),
    /// A block tag.
    BlockTag(BlockTag),
    /// A block hash.
    BlockHash(H256),
}

impl BlockNumberOrTag {
    /// The same block, where a hash would do as well.
    pub fn or_hash(self) -> (at: BlockNumberOrTagOrHash)
        ensures
            at == (match self {
                BlockNumberOrTag::U256(number) => BlockNumberOrTagOrHash::BlockNumber(number),
                BlockNumberOrTag::BlockTag(tag) => BlockNumberOrTagOrHash::BlockTag(tag),
            }),
    {
        match self {
            BlockNumberOrTag::U256(number) => BlockNumberOrTagOrHash::BlockNumber(number),
            BlockNumberOrTag::BlockTag(tag) => BlockNumberOrTagOrHash::BlockTag(tag),
        }
    }
}

/// A transaction that is decoded keeps its bytes, and its sender is recovered from them.
pub proof fn a_decoded_transaction_keeps_its_bytes(
    bytes: &[u8],
    tx: TransactionSigned,
    payload: &[u8],
    sender: Result<H160, ()>,
    gas_price: U256,
    from: H160,
    fields: GenericTransaction,
)
    requires
        call_ensures(TransactionSigned::decode, (bytes,), Ok(tx)),
        call_ensures(TransactionSigned::payload, (&tx,), payload),
        call_ensures(TransactionSigned::recover_eth_address, (&tx,), sender),
        call_ensures(GenericTransaction::from_signed, (&tx, &gas_price, &from), fields),
    ensures
        transaction_decodes(bytes@),
        payload@ == bytes@,
        sender matches Ok(address) ==> recovered_signer(bytes@) == Some(address@),
        sender is Err ==> recovered_signer(bytes@) is None,
        address_bytes(fields.to) == transaction_fields(bytes@).0,
        integer_value(fields.nonce) == transaction_fields(bytes@).1,
        fields.tx_type == transaction_fields(bytes@).2,
{
}

} // verus!

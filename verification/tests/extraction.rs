//! Receipts out of blocks.

use revive_eth_rpc::error::ClientError;
use revive_eth_rpc::evm::{GenericTransaction, ReceiptGasInfo, ReceiptInfo, TransactionSigned};
use revive_eth_rpc::primitives::{H160, H256, U256};
use revive_eth_rpc::receipt_extractor::{
    build_logs, contract_creation, recover_eth_address, ExtrinsicEvents, FetchedBlock,
    ReceiptExtractor, RuntimeEvent, ETH_TRANSACT_CALL_INDEX, PALLET_REVIVE_INDEX,
};
use revive_eth_rpc::substrate_client::{index_extrinsics, RawExtrinsic};

const LEGACY: &str = "f86080808301e24194095e7baea6a6c7c4c2dfeb977efac326af552d87808026a07b2e762a17a71a46b422e60890a04512cf0d907ccf6b78b5bd6e6977efdc2bf5a01ea673d50bbe7c2236acb498ceb8346a8607c941f0b8cbcde7cf439aa9369f1f";
const EIP1559: &str = "02f89c018080018301e24194095e7baea6a6c7c4c2dfeb977efac326af552d878080f838f7940000000000000000000000000000000000000001e1a0000000000000000000000000000000000000000000000000000000000000000080a055d72bbc3047d4b9d3e4b8099f187143202407746118204cc2e0cb0c85a68baea04f6ef08a1418c70450f53398d9f0f2d78d9e9d6b8a80cba886b67132c4a744f2";
// A legacy transaction with nonce one and without a receiver.
const CREATION: &str = "cc01808301e2418080801b0101";
// The same with a nonce of more than 64 bits.
const HUGE_NONCE: &str = "d589010000000000000000808301e2418080801b0101";

fn bytes(text: &str) -> Vec<u8> {
    hex::decode(text).unwrap()
}

fn signer() -> H160 {
    H160::from_slice(&bytes("75e480db528101a381ce68544611c169ad7eb342"))
}

fn receiver() -> H160 {
    H160::from_slice(&bytes("095e7baea6a6c7c4c2dfeb977efac326af552d87"))
}

fn gas() -> ReceiptGasInfo {
    ReceiptGasInfo { gas_used: U256::from_u64(21000), effective_gas_price: U256::from_u64(7) }
}

/// The compact form of a length below 2^14.
fn compact(length: usize) -> Vec<u8> {
    if length < 64 {
        vec![(length * 4) as u8]
    } else {
        let value = length * 4 + 1;
        vec![(value % 256) as u8, (value / 256) as u8]
    }
}

/// An extrinsic with the call of a pallet on a payload.
fn extrinsic(pallet: u8, call: u8, payload: &[u8]) -> Vec<u8> {
    let mut body = vec![5, pallet, call];
    body.extend(compact(payload.len()));
    body.extend(payload);
    let mut all = compact(body.len());
    all.extend(body);
    all
}

fn eth_transact(payload: &[u8]) -> Vec<u8> {
    extrinsic(PALLET_REVIVE_INDEX, ETH_TRANSACT_CALL_INDEX, payload)
}

fn raw(payload: Vec<u8>) -> RawExtrinsic {
    RawExtrinsic { payload, index: 0 }
}

fn extract(
    extractor: &ReceiptExtractor,
    extrinsics: Vec<Vec<u8>>,
    gas: Vec<ReceiptGasInfo>,
    events: Option<&[ExtrinsicEvents]>,
) -> Result<Vec<(TransactionSigned, ReceiptInfo)>, ClientError> {
    extractor.extract_from_block_raw(
        H256([1; 32]),
        42,
        H256([2; 32]),
        &index_extrinsics(&extrinsics),
        &gas,
        events,
        &recover_eth_address,
    )
}

#[test]
fn eth_transact_extrinsics_are_decoded() {
    for payload in [vec![], vec![1, 2, 3], vec![7; 63], vec![8; 64], vec![9; 3000]] {
        let decoded = ReceiptExtractor::decode_eth_transact(&raw(eth_transact(&payload)));
        assert_eq!(decoded, Some(payload));
    }
}

#[test]
fn bytes_behind_the_payload_do_not_matter() {
    let mut extrinsic = eth_transact(&[1, 2, 3]);
    extrinsic.extend([9, 9]);
    assert_eq!(ReceiptExtractor::decode_eth_transact(&raw(extrinsic)), Some(vec![1, 2, 3]));
}

#[test]
fn other_extrinsics_are_not_decoded() {
    let other_pallet = extrinsic(7, ETH_TRANSACT_CALL_INDEX, &[1, 2, 3]);
    let other_call = extrinsic(PALLET_REVIVE_INDEX, 1, &[1, 2, 3]);
    let mut truncated = eth_transact(&[1, 2, 3]);
    truncated.pop();
    for extrinsic in [
        vec![],
        vec![0],
        vec![3, 0, 0, 0, 0, 5, PALLET_REVIVE_INDEX, ETH_TRANSACT_CALL_INDEX, 0],
        vec![4, 5, PALLET_REVIVE_INDEX, ETH_TRANSACT_CALL_INDEX],
        // A length that is not in its shortest form.
        vec![4, 5, PALLET_REVIVE_INDEX, ETH_TRANSACT_CALL_INDEX, 5, 0, 1],
        other_pallet,
        other_call,
        truncated,
    ] {
        assert_eq!(ReceiptExtractor::decode_eth_transact(&raw(extrinsic)), None);
    }
}

#[test]
fn signers_are_recovered() {
    for text in [LEGACY, EIP1559] {
        let tx = TransactionSigned::decode(&bytes(text)).unwrap();
        assert_eq!(tx.payload(), &bytes(text)[..]);
        assert_eq!(tx.recover_eth_address(), Ok(signer()));
        assert_eq!(recover_eth_address(&tx), Ok(signer()));
    }
    assert!(TransactionSigned::decode(&[]).is_err());
    assert!(TransactionSigned::decode(&[9, 9]).is_err());
}

#[test]
fn fields_are_read_off_transactions() {
    let tx = TransactionSigned::decode(&bytes(EIP1559)).unwrap();
    let fields = GenericTransaction::from_signed(&tx, &U256::from_u64(1), &signer());
    assert_eq!(fields.to, Some(receiver()));
    assert_eq!(fields.nonce, Some(U256::zero()));
    assert_eq!(fields.tx_type, Some(2));
    let tx = TransactionSigned::decode(&bytes(CREATION)).unwrap();
    let fields = GenericTransaction::from_signed(&tx, &U256::from_u64(1), &signer());
    assert_eq!(fields.to, None);
    assert_eq!(fields.nonce, Some(U256::from_u64(1)));
    assert_eq!(fields.tx_type, Some(0));
}

#[test]
fn a_receipt_is_built() {
    let events = ExtrinsicEvents {
        success: true,
        logs: vec![
            (H160([0xaa; 20]), vec![H256([0x11; 32]), H256([0x22; 32])], Some(vec![1, 2, 3])),
        ],
    };
    let (tx, receipt) = ReceiptExtractor::new(None)
        .build_receipt(
            42,
            H256([2; 32]),
            &events,
            &bytes(LEGACY),
            &gas(),
            3,
            &recover_eth_address,
        )
        .unwrap();
    let hash = H256::from_slice(&bytes(
        "6a2f4f70a85ff5753962ce88bf1ad404a800a6dab15defbd72a421ba7e10cc43",
    ));
    assert_eq!(tx.payload(), &bytes(LEGACY)[..]);
    assert_eq!(receipt.transaction_hash, hash);
    assert_eq!(receipt.block_hash, H256([2; 32]));
    assert_eq!(receipt.block_number, U256::from_u64(42));
    assert_eq!(receipt.contract_address, None);
    assert_eq!(receipt.from, signer());
    assert_eq!(receipt.to, Some(receiver()));
    assert_eq!(receipt.gas_used, U256::from_u64(21000));
    assert_eq!(receipt.effective_gas_price, U256::from_u64(7));
    assert_eq!(receipt.cumulative_gas_used, U256::zero());
    assert_eq!(receipt.status, Some(U256::from_u64(1)));
    assert_eq!(receipt.transaction_index, U256::from_u64(3));
    assert_eq!(receipt.tx_type, Some(0));
    assert_eq!(receipt.root, None);
    assert_eq!(receipt.logs.len(), 1);
    let log = &receipt.logs[0];
    assert_eq!(log.address, H160([0xaa; 20]));
    assert_eq!(log.topics, vec![H256([0x11; 32]), H256([0x22; 32])]);
    assert_eq!(log.data, Some(vec![1, 2, 3]));
    assert_eq!(log.log_index, U256::zero());
    assert_eq!(log.transaction_hash, hash);
    assert_eq!(log.transaction_index, U256::from_u64(3));
    assert_eq!(log.block_hash, H256([2; 32]));
    assert_eq!(log.block_number, U256::from_u64(42));
    assert!(!log.removed);

    let mut bloom = [0u8; 256];
    for (position, byte) in [
        (21, 64),
        (23, 64),
        (26, 32),
        (82, 2),
        (104, 32),
        (168, 2),
        (188, 32),
        (195, 2),
        (215, 128),
    ] {
        bloom[position] = byte;
    }
    assert_eq!(receipt.logs_bloom, bloom);
}

#[test]
fn a_contract_creation_has_its_address() {
    let deployer = H160::from_slice(&bytes("6ac7ea33f8831ea9dcc53393aaa88b25a785dbf0"));
    let recover = move |_: &TransactionSigned| Ok(deployer);
    let events: ExtrinsicEvents = Default::default();
    let (_, receipt) = ReceiptExtractor::new(None)
        .build_receipt(1, H256([2; 32]), &events, &bytes(CREATION), &gas(), 0, &recover)
        .unwrap();
    assert_eq!(receipt.to, None);
    assert_eq!(receipt.from, deployer);
    assert_eq!(receipt.status, Some(U256::zero()));
    assert_eq!(
        receipt.contract_address,
        Some(H160::from_slice(&bytes("343c43a37d37dff08ae8c4a11544c718abb4fcf8")))
    );
    assert_eq!(receipt.logs_bloom, [0; 256]);
}

/// The RLP form of an integer.
fn rlp(value: u64) -> Vec<u8> {
    if 0 < value && value < 0x80 {
        return vec![value as u8];
    }
    let significant: Vec<u8> =
        value.to_be_bytes().into_iter().skip_while(|byte| *byte == 0).collect();
    let mut form = vec![0x80 + significant.len() as u8];
    form.extend(significant);
    form
}

#[test]
fn created_addresses_are_hashes_of_deployer_and_nonce() {
    let deployer = H160([0xd7; 20]);
    let recover = move |_: &TransactionSigned| Ok(deployer);
    let events: ExtrinsicEvents = Default::default();
    let fixed = bytes("808301e2418080801b0101");
    for nonce in [0, 1, 127, 128, 255, 256, 65_535, 65_536, u64::MAX] {
        let mut transaction = rlp(nonce);
        transaction.extend(&fixed);
        transaction.insert(0, 0xc0 + transaction.len() as u8);
        let (_, receipt) = ReceiptExtractor::new(None)
            .build_receipt(1, H256([2; 32]), &events, &transaction, &gas(), 0, &recover)
            .unwrap();
        let mut items = vec![0x94];
        items.extend(deployer.0);
        items.extend(rlp(nonce));
        items.insert(0, 0xc0 + items.len() as u8);
        let hash = sp_core::keccak_256(&items);
        assert_eq!(receipt.contract_address, Some(H160::from_slice(&hash[12..])));
    }
}

#[test]
fn bloom_filters_hold_three_bits_of_each_address_and_topic() {
    let logs = vec![
        (H160([1; 20]), vec![], None),
        (H160([2; 20]), vec![H256([3; 32])], Some(vec![7; 9])),
        (H160([4; 20]), vec![H256([5; 32]), H256([6; 32]), H256([3; 32])], None),
    ];
    let mut bloom = [0u8; 256];
    let mut set = |item: &[u8]| {
        let hash = sp_core::keccak_256(item);
        for pair in [0, 2, 4] {
            let bit = (0x100 * hash[pair] as usize + hash[pair + 1] as usize) % 0x800;
            bloom[255 - bit / 8] |= 1 << (bit % 8);
        }
    };
    for (address, topics, _) in &logs {
        set(&address.0);
        for topic in topics {
            set(&topic.0);
        }
    }
    let events = ExtrinsicEvents { success: true, logs };
    let (_, receipt) = ReceiptExtractor::new(None)
        .build_receipt(
            1,
            H256([2; 32]),
            &events,
            &bytes(LEGACY),
            &gas(),
            0,
            &recover_eth_address,
        )
        .unwrap();
    assert_eq!(receipt.logs_bloom, bloom);
}

#[test]
fn receipts_fail_for_their_reasons() {
    let extractor = ReceiptExtractor::new(None);
    let events: ExtrinsicEvents = Default::default();
    let undecodable = extractor.build_receipt(
        1,
        H256([2; 32]),
        &events,
        &[1, 2, 3],
        &gas(),
        0,
        &recover_eth_address,
    );
    assert!(matches!(undecodable, Err(ClientError::TxDecodingFailed)));
    let refuse = |_: &TransactionSigned| Err(());
    let unrecovered =
        extractor.build_receipt(1, H256([2; 32]), &events, &bytes(LEGACY), &gas(), 0, &refuse);
    assert!(matches!(unrecovered, Err(ClientError::RecoverEthAddressFailed)));
    let accept = |_: &TransactionSigned| Ok(H160([1; 20]));
    let out_of_range =
        extractor.build_receipt(1, H256([2; 32]), &events, &bytes(HUGE_NONCE), &gas(), 0, &accept);
    assert!(matches!(out_of_range, Err(ClientError::ConversionFailed)));
}

#[test]
fn only_transactions_without_a_receiver_create_contracts() {
    let tx = |to, nonce| GenericTransaction { to, nonce, tx_type: Some(0) };
    assert!(matches!(
        contract_creation(&tx(Some(H160([1; 20])), Some(U256::from_u64(5)))),
        Ok(None)
    ));
    assert!(matches!(contract_creation(&tx(None, Some(U256::from_u64(5)))), Ok(Some(5))));
    assert!(matches!(contract_creation(&tx(None, None)), Ok(Some(0))));
    assert!(matches!(
        contract_creation(&tx(None, Some(U256 { high: 0, low: 1 << 64 }))),
        Err(ClientError::ConversionFailed)
    ));
}

#[test]
fn blocks_are_gone_through_in_order() {
    let extractor = ReceiptExtractor::new(None);
    let extrinsics = vec![
        extrinsic(3, 0, &[]),
        eth_transact(&bytes(LEGACY)),
        extrinsic(4, 0, &[1]),
        eth_transact(&bytes(EIP1559)),
    ];
    let receipts = extract(&extractor, extrinsics, vec![gas(), gas()], None).unwrap();
    assert_eq!(receipts.len(), 2);
    assert_eq!(receipts[0].1.transaction_index, U256::from_u64(1));
    assert_eq!(receipts[1].1.transaction_index, U256::from_u64(3));
    assert_eq!(receipts[0].1.tx_type, Some(0));
    assert_eq!(receipts[1].1.tx_type, Some(2));
    // No events are known: the transactions count as successful.
    assert_eq!(receipts[0].1.status, Some(U256::from_u64(1)));
    assert_eq!(receipts[0].1.logs.len(), 0);
}

#[test]
fn events_belong_to_their_extrinsic() {
    let extractor = ReceiptExtractor::new(None);
    let extrinsics = vec![eth_transact(&bytes(LEGACY)), eth_transact(&bytes(EIP1559))];
    let events = vec![ExtrinsicEvents {
        success: true,
        logs: vec![(H160([1; 20]), vec![], None), (H160([2; 20]), vec![], None)],
    }];
    let receipts = extract(&extractor, extrinsics, vec![gas(), gas()], Some(&events)).unwrap();
    assert_eq!(receipts[0].1.logs.len(), 2);
    assert_eq!(receipts[0].1.logs[1].address, H160([2; 20]));
    assert_eq!(receipts[0].1.logs[1].log_index, U256::from_u64(1));
    // There are no events for the second extrinsic: it counts as failed.
    assert_eq!(receipts[1].1.status, Some(U256::zero()));
    assert_eq!(receipts[1].1.logs.len(), 0);
}

#[test]
fn gas_has_to_be_known_for_each_transaction() {
    let extractor = ReceiptExtractor::new(None);
    let extrinsics = vec![eth_transact(&bytes(LEGACY))];
    let mismatch = extract(&extractor, extrinsics, vec![], None);
    assert!(matches!(mismatch, Err(ClientError::ReceiptDataLengthMismatch)));
}

#[test]
fn the_first_error_counts() {
    let extractor = ReceiptExtractor::new(None);
    let extrinsics = vec![eth_transact(&bytes(LEGACY)), eth_transact(&[1, 2, 3])];
    let failed = extract(&extractor, extrinsics, vec![gas(), gas()], None);
    assert!(matches!(failed, Err(ClientError::TxDecodingFailed)));
}

fn fetched(number: u32) -> FetchedBlock {
    FetchedBlock {
        hash: H256([1; 32]),
        number,
        eth_block_hash: None,
        receipt_data: Some(vec![gas()]),
        events: None,
        extrinsics: Ok(vec![extrinsic(3, 0, &[]), eth_transact(&bytes(LEGACY))]),
    }
}

#[test]
fn fetched_blocks_are_extracted() {
    let extractor = ReceiptExtractor::new(Some(10));
    let early = extractor.extract_from_block(fetched(9), &recover_eth_address).unwrap();
    assert_eq!(early.len(), 0);
    let receipts = extractor.extract_from_block(fetched(10), &recover_eth_address).unwrap();
    assert_eq!(receipts.len(), 1);
    // The block hash stands in for the Ethereum hash where that is not known.
    assert_eq!(receipts[0].1.block_hash, H256([1; 32]));
    let known = FetchedBlock { eth_block_hash: Some(H256([9; 32])), ..fetched(10) };
    let receipts = extractor.extract_from_block(known, &recover_eth_address).unwrap();
    assert_eq!(receipts[0].1.block_hash, H256([9; 32]));
    let no_data = FetchedBlock { receipt_data: None, ..fetched(10) };
    assert!(matches!(
        extractor.extract_from_block(no_data, &recover_eth_address),
        Err(ClientError::ReceiptDataNotFound)
    ));
    let no_body = FetchedBlock { extrinsics: Err(ClientError::BlockNotFound), ..fetched(10) };
    assert!(matches!(
        extractor.extract_from_block(no_body, &recover_eth_address),
        Err(ClientError::BlockNotFound)
    ));
}

#[test]
fn a_single_receipt_is_found_by_its_index() {
    let extractor = ReceiptExtractor::new(None);
    let (_, receipt) =
        extractor.extract_from_transaction(fetched(10), 1, &recover_eth_address).unwrap();
    assert_eq!(receipt.transaction_index, U256::from_u64(1));
    assert!(matches!(
        extractor.extract_from_transaction(fetched(10), 0, &recover_eth_address),
        Err(ClientError::EthExtrinsicNotFound)
    ));
}

#[test]
fn events_are_collected() {
    let events = vec![
        RuntimeEvent::Other,
        RuntimeEvent::ContractEmitted {
            contract: H160([1; 20]),
            topics: vec![H256([2; 32])],
            data: vec![3],
        },
        RuntimeEvent::Undecodable,
        RuntimeEvent::ContractEmitted { contract: H160([4; 20]), topics: vec![], data: vec![] },
    ];
    let collected = ExtrinsicEvents::from_events(Some(false), &events);
    assert!(collected.success);
    assert_eq!(
        collected.logs,
        vec![
            (H160([1; 20]), vec![H256([2; 32])], Some(vec![3])),
            (H160([4; 20]), vec![], Some(vec![])),
        ]
    );
    assert!(!ExtrinsicEvents::from_events(Some(true), &events).success);
    assert!(ExtrinsicEvents::from_events(None, &[]).success);
}

#[test]
fn logs_are_numbered() {
    let events = ExtrinsicEvents {
        success: true,
        logs: vec![(H160([1; 20]), vec![], None), (H160([2; 20]), vec![], None)],
    };
    let logs = build_logs(&events, U256::from_u64(1), H256([2; 32]), H256([3; 32]), 4);
    assert_eq!(logs[0].log_index, U256::zero());
    assert_eq!(logs[1].log_index, U256::from_u64(1));
    assert_eq!(logs[1].transaction_hash, H256([3; 32]));
}

#[test]
fn blocks_before_the_earliest_one_are_skipped() {
    let extractor = ReceiptExtractor::new(Some(5));
    assert!(extractor.is_before_earliest_block(4));
    assert!(!extractor.is_before_earliest_block(5));
    assert!(!ReceiptExtractor::new(None).is_before_earliest_block(0));
}

//! The decisions of the client and of its two backends.

use revive_eth_rpc::client::{
    BlockLookup, Client, EthBlock, HashesOrTransactionInfos, SubscriptionType, SyncingProgress,
    SyncingStatus,
};
use revive_eth_rpc::error::{
    error_object, failure_message, revert_error, ClientError, EthTransactError, SubmitError,
    CALL_EXECUTION_FAILED_CODE, REVERT_CODE,
};
use revive_eth_rpc::evm::{
    BlockNumberOrTag, BlockNumberOrTagOrHash, BlockTag, ReceiptInfo, TransactionSigned,
};
use revive_eth_rpc::hex_format::to_hex;
use revive_eth_rpc::native_client::NativeSubstrateClient;
use revive_eth_rpc::primitives::{H160, H256, U256};
use revive_eth_rpc::receipt_extractor::ReceiptExtractor;
use revive_eth_rpc::scale::encode_byte_string;
use revive_eth_rpc::substrate_client::{
    BlockInfo, NodeHealth, RawExtrinsic, SyncState, TransactionStatus, Weight,
};
use revive_eth_rpc::subxt_client::{
    subxt_tx_status_to_submit_result, FetchError, StreamItem, StreamStep, SubmitEvent,
    SubxtClient, SubxtTxStatus,
};
use revive_eth_rpc::text::decimal_text;
use std::collections::HashMap;

#[test]
fn blocks_are_looked_up() {
    let number = |low| BlockNumberOrTagOrHash::BlockNumber(U256 { high: 0, low });
    assert!(matches!(Client::block_hash_for_tag(number(7)), Ok(BlockLookup::Number(7))));
    assert!(matches!(
        Client::block_hash_for_tag(number(1 << 32)),
        Err(ClientError::ConversionFailed)
    ));
    assert!(matches!(
        Client::block_hash_for_tag(BlockNumberOrTagOrHash::BlockHash(H256([1; 32]))),
        Ok(BlockLookup::EthereumHash(hash)) if hash == H256([1; 32])
    ));
    for tag in [BlockTag::Finalized, BlockTag::Safe] {
        assert!(matches!(
            Client::block_hash_for_tag(BlockNumberOrTagOrHash::BlockTag(tag)),
            Ok(BlockLookup::LatestFinalized)
        ));
    }
    for tag in [BlockTag::Earliest, BlockTag::Latest, BlockTag::Pending] {
        assert!(matches!(
            Client::block_by_number_or_tag(&BlockNumberOrTag::BlockTag(tag)),
            Ok(BlockLookup::Latest)
        ));
    }
    let at = BlockNumberOrTag::U256(U256::from_u64(9)).or_hash();
    assert!(matches!(Client::block_hash_for_tag(at), Ok(BlockLookup::Number(9))));
}

#[test]
fn missing_blocks_are_told_by_how_they_were_looked_up() {
    let hash = BlockLookup::EthereumHash(H256([1; 32]));
    assert!(matches!(
        Client::found_block::<u8>(&hash, None),
        Err(ClientError::EthereumBlockNotFound)
    ));
    assert!(matches!(
        Client::found_block::<u8>(&BlockLookup::Number(1), None),
        Err(ClientError::BlockNotFound)
    ));
    assert!(matches!(Client::found_block(&hash, Some(5u8)), Ok(5)));
}

#[test]
fn an_unmapped_ethereum_hash_is_taken_for_a_substrate_hash() {
    let ethereum = H256([1; 32]);
    assert_eq!(Client::block_by_ethereum_hash(&ethereum, Some(H256([2; 32]))), H256([2; 32]));
    assert_eq!(Client::block_by_ethereum_hash(&ethereum, None), ethereum);
}

#[test]
fn past_blocks_are_walked_down() {
    assert_eq!(Client::subscribe_and_cache_blocks(100, 10), (90, 100));
    assert_eq!(Client::subscribe_and_cache_blocks(5, 10), (0, 5));
    assert_eq!(Client::subscribe_and_cache_blocks(0, 10), (0, 0));
    let walk = |latest: u32, n: u32| {
        let (start, end) = Client::subscribe_and_cache_blocks(latest, n);
        let mut processed = vec![];
        let mut next = Client::first_past_block(start, end);
        while let Some(number) = next {
            processed.push(number);
            let parent = H256([number.wrapping_sub(1) as u8; 32]);
            next = Client::subscribe_past_blocks(start, number, parent).map(|hash| {
                assert_eq!(hash, parent);
                number - 1
            });
        }
        processed
    };
    assert_eq!(walk(10, 3), vec![9, 8, 7]);
    assert_eq!(walk(10, 1), vec![9]);
    assert_eq!(walk(3, 10), vec![2, 1, 0]);
    assert_eq!(walk(3, 3), vec![2, 1, 0]);
    assert_eq!(walk(10, 0), Vec::<u32>::new());
    assert_eq!(walk(0, 5), Vec::<u32>::new());
    assert_eq!(walk(u32::MAX, 1), vec![u32::MAX - 1]);
}

#[test]
fn new_blocks_are_announced() {
    assert!(Client::should_notify(SubscriptionType::BestBlocks, Some(1)));
    assert!(!Client::should_notify(SubscriptionType::BestBlocks, Some(0)));
    assert!(!Client::should_notify(SubscriptionType::BestBlocks, None));
    assert!(!Client::should_notify(SubscriptionType::FinalizedBlocks, Some(1)));
    assert_eq!(Client::from_backend(true).notifier_capacity(), Some(16));
    assert_eq!(Client::from_backend(false).notifier_capacity(), None);
    assert!(Client::from_backend(true).is_automine());
}

#[test]
fn syncing_is_told() {
    let health = |is_syncing| NodeHealth { peers: 1, is_syncing, should_have_peers: true };
    assert!(matches!(Client::syncing(&health(false), None), Ok(SyncingStatus::Bool(false))));
    let state = SyncState { starting_block: 1, current_block: 2, highest_block: 3 };
    match Client::syncing(&health(true), Some(Ok(state))) {
        Ok(status) => assert_eq!(
            status,
            SyncingStatus::SyncingProgress(SyncingProgress {
                current_block: Some(U256::from_u64(2)),
                highest_block: Some(U256::from_u64(3)),
                starting_block: Some(U256::from_u64(1)),
            })
        ),
        Err(error) => panic!("{error:?}"),
    }
    assert!(matches!(
        Client::syncing(&health(true), Some(Err(ClientError::Timeout))),
        Err(ClientError::Timeout)
    ));
}

fn receipts() -> Vec<(TransactionSigned, ReceiptInfo)> {
    let payload = hex::decode("cc01808301e2418080801b0101").unwrap();
    let tx = TransactionSigned::decode(&payload).unwrap();
    let receipt = ReceiptInfo::new(
        H256([1; 32]),
        U256::from_u64(2),
        None,
        H160([3; 20]),
        vec![],
        [0; 256],
        None,
        U256::zero(),
        U256::zero(),
        true,
        H256([4; 32]),
        U256::from_u64(5),
        0,
    );
    vec![(tx, receipt)]
}

#[test]
fn blocks_are_hydrated() {
    let block = || EthBlock {
        header: 77u32,
        transactions: HashesOrTransactionInfos::Hashes(vec![H256([4; 32])]),
    };
    let plain = Client::evm_block(Ok(block()), None).unwrap();
    assert!(matches!(plain.transactions, HashesOrTransactionInfos::Hashes(hashes) if hashes.len() == 1));
    let full = Client::evm_block(Ok(block()), Some(Ok(receipts()))).unwrap();
    assert_eq!(full.header, 77);
    match full.transactions {
        HashesOrTransactionInfos::TransactionInfos(infos) => {
            assert_eq!(infos.len(), 1);
            assert_eq!(infos[0].block_hash, H256([1; 32]));
            assert_eq!(infos[0].block_number, U256::from_u64(2));
            assert_eq!(infos[0].from, H160([3; 20]));
            assert_eq!(infos[0].hash, H256([4; 32]));
            assert_eq!(infos[0].transaction_index, U256::from_u64(5));
            assert_eq!(hex::encode(infos[0].transaction_signed.payload()), "cc01808301e2418080801b0101");
        }
        other => panic!("{other:?}"),
    }
    // Receipts that cannot be had leave the block without transactions.
    let empty = Client::evm_block(Ok(block()), Some(Err(ClientError::Timeout))).unwrap();
    assert!(matches!(empty.transactions, HashesOrTransactionInfos::TransactionInfos(infos) if infos.is_empty()));
    assert!(Client::evm_block::<u32>(Err(ClientError::Timeout), None).is_none());
}

#[test]
fn traces_are_paired_with_hashes() {
    let mut hashes = HashMap::new();
    hashes.insert(0usize, H256([1; 32]));
    hashes.insert(2usize, H256([2; 32]));
    let traces = vec![(0, "a"), (1, "b"), (2, "c"), (0, "d")];
    let paired = Client::trace_block_by_number(traces, Some(hashes)).unwrap();
    let paired: Vec<_> = paired.into_iter().map(|pair| (pair.tx_hash, pair.trace)).collect();
    assert_eq!(paired, vec![(H256([1; 32]), "a"), (H256([2; 32]), "c")]);
    assert!(matches!(
        Client::trace_block_by_number(vec![(0, "a")], None),
        Err(ClientError::EthExtrinsicNotFound)
    ));
}

#[test]
fn blocks_before_the_earliest_one_are_not_traced() {
    let number = |low| BlockNumberOrTag::U256(U256 { high: 0, low });
    assert!(matches!(Client::traced_block(true, number(7)), Ok(None)));
    assert!(matches!(Client::traced_block(true, number(1 << 32)), Ok(None)));
    assert!(matches!(Client::traced_block(false, number(7)), Ok(Some(BlockLookup::Number(7)))));
    assert!(matches!(
        Client::traced_block(false, number(1 << 32)),
        Err(ClientError::ConversionFailed)
    ));
    let tag = |tag| Client::traced_block(false, BlockNumberOrTag::BlockTag(tag));
    assert!(matches!(tag(BlockTag::Latest), Ok(Some(BlockLookup::Latest))));
    assert!(matches!(tag(BlockTag::Finalized), Ok(Some(BlockLookup::LatestFinalized))));
}

#[test]
fn transactions_are_traced_where_they_are() {
    assert!(matches!(
        Client::trace_transaction(Some((H256([1; 32]), 7))),
        Ok((hash, 7)) if hash == H256([1; 32])
    ));
    assert!(matches!(
        Client::trace_transaction(None),
        Err(ClientError::EthExtrinsicNotFound)
    ));
}

#[test]
fn reverts_are_told_with_their_reason() {
    let output = hex::decode("08c379a000000000000000000000000000000000000000000000000000000000000000200000000000000000000000000000000000000000000000000000000000000024556e697377617056323a20494e53554646494349454e545f494e5055545f414d4f554e5400000000000000000000000000000000000000000000000000000080").unwrap();
    let text = format!("0x{}", hex::encode(&output));
    let error = error_object(ClientError::TransactError(EthTransactError::Data(output)));
    assert_eq!(error.code, REVERT_CODE);
    assert_eq!(
        error.message,
        "execution reverted: revert: UniswapV2: INSUFFICIENT_INPUT_AMOUNT"
    );
    assert_eq!(error.data, Some(text));
    let error = error_object(ClientError::TransactError(EthTransactError::Data(vec![0xff])));
    assert_eq!(error.code, 3);
    assert_eq!(error.message, "execution reverted");
    assert_eq!(error.data, Some("0xff".to_string()));
    let error = revert_error(&[1, 2], Some("because".to_string()));
    assert_eq!(error.message, "execution reverted: because");
    assert_eq!(error.data, Some("0x0102".to_string()));
}

#[test]
fn a_failed_call_says_why() {
    let said = |error: EthTransactError| ClientError::TransactError(error).message();
    assert_eq!(said(EthTransactError::Data(vec![])), "contract reverted: Data([])");
    assert_eq!(said(EthTransactError::Data(vec![7])), "contract reverted: Data([7])");
    assert_eq!(
        said(EthTransactError::Data(vec![1, 20, 255])),
        "contract reverted: Data([1, 20, 255])"
    );
    assert_eq!(
        said(EthTransactError::Message("no \"gas\"".to_string())),
        "contract reverted: Message(\"no \\\"gas\\\"\")"
    );
    assert_eq!(
        failure_message("\"x\"".to_string()),
        "contract reverted: Message(\"x\")"
    );
}

#[test]
fn other_errors_are_told_by_their_text() {
    let message = EthTransactError::Message("out of gas".to_string());
    let error = error_object(ClientError::TransactError(message));
    assert_eq!(error.code, CALL_EXECUTION_FAILED_CODE);
    assert_eq!(error.message, "out of gas");
    assert_eq!(error.data, None);
    for (error, text) in [
        (ClientError::Jsonrpsee("lost".to_string()), "lost"),
        (ClientError::NativeClientError("lost".to_string()), "Native client error: lost"),
        (ClientError::SqlxError("locked".to_string()), "locked"),
        (ClientError::CodecError("short".to_string()), "short"),
        (
            ClientError::SubmitError(SubmitError::Usurped),
            "Invalid transaction: Transaction was usurped by another with the same nonce",
        ),
        (
            ClientError::SubmitError(SubmitError::Dropped),
            "Invalid transaction: Transaction was dropped",
        ),
        (
            ClientError::SubmitError(SubmitError::Invalid),
            "Invalid transaction: Transaction is invalid (e.g. bad nonce, signature, etc)",
        ),
        (
            ClientError::SubmitError(SubmitError::StreamEnded),
            "Invalid transaction: Transaction stream ended without status",
        ),
        (
            ClientError::SubmitError(SubmitError::Unknown),
            "Invalid transaction: Unknown transaction status",
        ),
        (ClientError::ConversionFailed, "conversion failed"),
        (ClientError::BlockNotFound, "hash not found"),
        (ClientError::ContractNotFound, "Contract not found"),
        (ClientError::EthExtrinsicNotFound, "No Ethereum extrinsic found"),
        (ClientError::TxFeeNotFound, "transactionFeePaid event not found"),
        (
            ClientError::TxDecodingFailed,
            "Failed to decode a raw payload into a signed transaction",
        ),
        (ClientError::RecoverEthAddressFailed, "failed to recover eth address"),
        (ClientError::LogFilterFailed("why".to_string()), "Failed to filter logs"),
        (ClientError::ReceiptDataNotFound, "Receipt storage not found"),
        (ClientError::EthereumBlockNotFound, "Ethereum block not found"),
        (ClientError::ReceiptDataLengthMismatch, "Receipt data length mismatch"),
        (ClientError::Timeout, "Transaction submission timeout"),
    ] {
        let object = error_object(error);
        assert_eq!(object.code, -32000);
        assert_eq!(object.message, text);
        assert_eq!(object.data, None);
    }
}

#[test]
fn bytes_are_written_in_hexadecimal() {
    assert_eq!(to_hex(&[]), "0x");
    assert_eq!(to_hex(&[0, 1, 15, 16, 0xab, 0xff]), "0x00010f10abff");
}

#[test]
fn statuses_out_of_the_pool_are_errors() {
    assert_eq!(SubmitError::from(TransactionStatus::Usurped(H256([1; 32]))), SubmitError::Usurped);
    assert_eq!(SubmitError::from(TransactionStatus::Dropped), SubmitError::Dropped);
    assert_eq!(SubmitError::from(TransactionStatus::Invalid), SubmitError::Invalid);
    assert_eq!(SubmitError::from(TransactionStatus::Ready), SubmitError::Unknown);
    for (status, error) in [
        (SubxtTxStatus::Usurped(H256([1; 32])), SubmitError::Usurped),
        (SubxtTxStatus::Dropped, SubmitError::Dropped),
        (SubxtTxStatus::Invalid, SubmitError::Invalid),
    ] {
        match SubxtClient::submit_extrinsic(SubmitEvent::Status(status)) {
            Err(ClientError::SubmitError(found)) => assert_eq!(found, error),
            other => panic!("{other:?}"),
        }
    }
    assert!(matches!(
        SubxtClient::submit_extrinsic(SubmitEvent::Status(SubxtTxStatus::Ready)),
        Ok(TransactionStatus::Ready)
    ));
    assert!(matches!(
        SubxtClient::submit_extrinsic(SubmitEvent::Ended),
        Err(ClientError::SubmitError(SubmitError::StreamEnded))
    ));
    assert!(matches!(
        SubxtClient::submit_extrinsic(SubmitEvent::TimedOut),
        Err(ClientError::Timeout)
    ));
    assert!(matches!(
        SubxtClient::submit_extrinsic(SubmitEvent::Failed(ClientError::Jsonrpsee("x".to_string()))),
        Err(ClientError::Jsonrpsee(_))
    ));
}

#[test]
fn reported_statuses_become_pool_statuses() {
    assert!(matches!(
        subxt_tx_status_to_submit_result(SubxtTxStatus::InBlock(H256([1; 32]))),
        TransactionStatus::InBlock(hash, 0) if hash == H256([1; 32])
    ));
    assert!(matches!(
        subxt_tx_status_to_submit_result(SubxtTxStatus::Finalized(H256([1; 32]))),
        TransactionStatus::Finalized(_, 0)
    ));
    assert!(matches!(
        subxt_tx_status_to_submit_result(SubxtTxStatus::Broadcast(vec!["peer".to_string()])),
        TransactionStatus::Broadcast(peers) if peers.len() == 1
    ));
    assert!(matches!(
        subxt_tx_status_to_submit_result(SubxtTxStatus::Future),
        TransactionStatus::Future
    ));
    assert!(matches!(
        subxt_tx_status_to_submit_result(SubxtTxStatus::Retracted(H256([1; 32]))),
        TransactionStatus::Retracted(_)
    ));
    assert!(matches!(
        subxt_tx_status_to_submit_result(SubxtTxStatus::FinalityTimeout(H256([1; 32]))),
        TransactionStatus::FinalityTimeout(_)
    ));
}

#[test]
fn a_connected_client() {
    let normal = Weight { ref_time: 1, proof_size: 2 };
    let block = Weight { ref_time: 3, proof_size: 4 };
    assert_eq!(SubxtClient::new(9, Some(normal), block).max_block_weight(), normal);
    assert_eq!(SubxtClient::new(9, None, block).max_block_weight(), block);
    assert_eq!(SubxtClient::new(9, None, block).chain_id(), 9);
    assert!(!SubxtClient::get_automine(None));
    assert!(SubxtClient::get_automine(Some(true)));
    let info = BlockInfo { hash: H256([1; 32]), number: 2, parent_hash: H256([3; 32]) };
    assert!(matches!(SubxtClient::block_by_hash(Ok(info)), Ok(Some(found)) if found.number == 2));
    assert!(matches!(SubxtClient::block_by_hash(Err(FetchError::NotFound)), Ok(None)));
    assert!(matches!(
        SubxtClient::block_by_hash(Err(FetchError::Failed(ClientError::Timeout))),
        Err(ClientError::Timeout)
    ));
    assert!(matches!(
        SubxtClient::subscribe_blocks(StreamItem::Block(5)),
        StreamStep::Deliver(5)
    ));
    assert!(matches!(
        SubxtClient::subscribe_blocks::<u8>(StreamItem::Reconnecting),
        StreamStep::Skip
    ));
    assert!(matches!(
        SubxtClient::subscribe_blocks::<u8>(StreamItem::Failed(ClientError::Timeout)),
        StreamStep::Fail(ClientError::Timeout)
    ));
}

#[test]
fn a_native_client() {
    let client = NativeSubstrateClient::new(7, true, Some(U256::from_u64(1000)));
    assert_eq!(client.chain_id(), 7);
    assert!(client.get_automine());
    assert_eq!(client.max_block_weight(), Weight { ref_time: 1000, proof_size: u64::MAX });
    let unbounded = Weight { ref_time: u64::MAX, proof_size: u64::MAX };
    assert_eq!(NativeSubstrateClient::new(7, true, None).max_block_weight(), unbounded);
    let huge = U256 { high: 1, low: 0 };
    assert_eq!(NativeSubstrateClient::new(7, true, Some(huge)).max_block_weight(), unbounded);
    assert_eq!(
        NativeSubstrateClient::sync_state(9),
        SyncState { starting_block: 0, current_block: 9, highest_block: 9 }
    );
    assert!(!NativeSubstrateClient::system_health().is_syncing);
}

#[test]
fn native_replies() {
    let failed = || "broken".to_string();
    assert!(matches!(NativeSubstrateClient::nonce(Ok(3)), Ok(nonce) if nonce == U256::from_u64(3)));
    assert!(matches!(
        NativeSubstrateClient::nonce(Err(failed())),
        Err(ClientError::NativeClientError(text)) if text == "broken"
    ));
    assert!(matches!(NativeSubstrateClient::reply(Ok(1)), Ok(1)));
    assert!(matches!(
        NativeSubstrateClient::transact_reply::<u8>(Ok(Err(EthTransactError::Data(vec![1])))),
        Err(ClientError::TransactError(EthTransactError::Data(_)))
    ));
    assert!(matches!(
        NativeSubstrateClient::get_storage(Ok(Err(()))),
        Err(ClientError::ContractNotFound)
    ));
    assert!(matches!(NativeSubstrateClient::get_storage(Ok(Ok(None))), Ok(None)));
    assert!(matches!(
        NativeSubstrateClient::trace_tx::<u8>(Ok(None)),
        Err(ClientError::EthExtrinsicNotFound)
    ));
    assert!(matches!(
        NativeSubstrateClient::required_block::<u8>(Ok(None)),
        Err(ClientError::BlockNotFound)
    ));
    assert!(matches!(
        NativeSubstrateClient::submitted(Ok(())),
        Ok(TransactionStatus::Ready)
    ));
    assert!(matches!(
        NativeSubstrateClient::submitted(Err(failed())),
        Err(ClientError::NativeClientError(_))
    ));
}

#[test]
fn native_submissions_are_wrapped() {
    assert!(matches!(
        NativeSubstrateClient::submit_extrinsic(&[1, 2, 3]),
        Ok(bytes) if bytes == vec![5, 253, 0, 12, 1, 2, 3]
    ));
    // What is submitted is found again in a block.
    for length in [0usize, 1, 63, 64, 100, 0x3fff, 0x4000, 70_000] {
        let payload: Vec<u8> = (0..length).map(|i| i as u8).collect();
        let bytes = NativeSubstrateClient::submit_extrinsic(&payload).unwrap();
        let extrinsic = encode_byte_string(&bytes);
        assert_eq!(
            extrinsic,
            parity_scale_codec::Encode::encode(&sp_runtime::OpaqueExtrinsic::from_blob(bytes))
        );
        let raw = RawExtrinsic { payload: extrinsic, index: 0 };
        assert_eq!(ReceiptExtractor::decode_eth_transact(&raw), Some(payload));
    }
}

#[test]
fn byte_strings_are_written_as_the_codec_writes_them() {
    for length in [0usize, 1, 63, 64, 0x3fff, 0x4000, 100_000] {
        let bytes = vec![7u8; length];
        assert_eq!(encode_byte_string(&bytes), parity_scale_codec::Encode::encode(&bytes));
    }
}

#[test]
fn numbers_are_written_in_decimal() {
    for number in [0u16, 9, 10, 99, 100, 8545, 9944, 10_000, u16::MAX] {
        assert_eq!(decimal_text(number), number.to_string());
    }
    assert_eq!(decimal_text(9616), "9616");
}

#[test]
fn native_notifications() {
    let best = SubscriptionType::BestBlocks;
    let finalized = SubscriptionType::FinalizedBlocks;
    assert_eq!(NativeSubstrateClient::subscribe_blocks(best, true, Ok(Some(1))), Some(1));
    assert_eq!(NativeSubstrateClient::subscribe_blocks(best, false, Ok(Some(1))), None);
    assert_eq!(NativeSubstrateClient::subscribe_blocks(finalized, false, Ok(Some(1))), Some(1));
    assert_eq!(NativeSubstrateClient::subscribe_blocks::<u8>(finalized, true, Ok(None)), None);
    assert_eq!(
        NativeSubstrateClient::subscribe_blocks::<u8>(best, true, Err(ClientError::Timeout)),
        None
    );
    assert!(NativeSubstrateClient::concerns(finalized, false));
    assert!(!NativeSubstrateClient::concerns(best, false));
}

#[test]
fn native_bodies_are_numbered() {
    let raws = NativeSubstrateClient::block_extrinsics(Ok(Some(vec![vec![1], vec![2, 3]]))).unwrap();
    assert_eq!(raws.len(), 2);
    assert_eq!(raws[1].index, 1);
    assert_eq!(raws[1].payload, vec![2, 3]);
    assert!(matches!(
        NativeSubstrateClient::block_extrinsics(Ok(None)),
        Err(ClientError::BlockNotFound)
    ));
    assert!(matches!(
        NativeSubstrateClient::block_extrinsics(Err("x".to_string())),
        Err(ClientError::NativeClientError(_))
    ));
}

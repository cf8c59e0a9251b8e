//! What is handed out of a block as a whole.
use debank_tracing::block_file::{
    calc_validation_hash, calculate_debank_id, BlockFile, BlockValidation, DebankEvent, DebankTrace,
};
use debank_tracing::block_output::{
    account_info, block_output, genesis_output, list_transactions, read_u64, resolve_block,
    transactions_sound, BlockTarget, EthHeader, EthReceipt, EthTransaction,
};
use debank_tracing::filter::{RequestBlockId, RequestBlockTag};
use debank_tracing::formatter::Formatter;
use debank_tracing::frame::{CallFrame, DebankCallType, EventLog};
use debank_tracing::listener::Listener;
use debank_tracing::primitives::{H160, H256, U256};
use debank_tracing::state_diff::{address_to_hash, empty_state_diff, encode_state_diff, NewAccount};
use debank_tracing::text::{hash_to_text, id_of_digest, join_parts, number_text};

fn u(n: u64) -> U256 {
    U256::from_u64(n)
}

fn hex(h: &H256) -> String {
    h.0.iter().map(|b| format!("{b:02x}")).collect::<Vec<_>>().concat()
}

#[test]
fn identifiers_are_digests_of_the_parts() {
    assert_eq!(calculate_debank_id(&["abc"]), "900150983cd24fb0d6963f7d28e17f72");
    assert_eq!(calculate_debank_id(&["a", "bc"]), "900150983cd24fb0d6963f7d28e17f72");
    assert_eq!(calculate_debank_id(&[]), "d41d8cd98f00b204e9800998ecf8427e");
    assert_eq!(join_parts(&["a", "", "é"]), "aé".as_bytes().to_vec());
    assert_eq!(id_of_digest(&[0x0f, 0xa0]), "0fa0");
}

#[test]
fn numbers_and_hashes_have_their_texts() {
    assert_eq!(number_text(0), "0");
    assert_eq!(number_text(1203), "1203");
    assert_eq!(number_text(usize::MAX), "18446744073709551615");
    assert_eq!(hash_to_text(&H256([0xab; 32])), format!("0x{}", "ab".repeat(32)));
}

#[test]
fn validation_hash_is_the_sum_of_the_bytes() {
    assert_eq!(calc_validation_hash(&[]), 0);
    assert_eq!(calc_validation_hash(&["abc".to_string()]), 294);
    assert_eq!(
        calc_validation_hash(&["ab".to_string(), "".to_string(), "c".to_string()]),
        294
    );
    assert_eq!(
        calc_validation_hash(&["c".to_string(), "ab".to_string()]),
        calc_validation_hash(&["ab".to_string(), "c".to_string()])
    );
    // 10310 times 97 is 1000070, of which the last six digits are kept.
    assert_eq!(calc_validation_hash(&["a".repeat(10310)]), 70);
    assert_eq!(calc_validation_hash(&["é".to_string()]), 0xc3 + 0xa9);
}

fn header() -> EthHeader {
    EthHeader {
        parent_hash: H256([1; 32]),
        ommers_hash: H256([2; 32]),
        beneficiary: H160([3; 20]),
        state_root: H256([4; 32]),
        transactions_root: H256([5; 32]),
        receipts_root: H256([6; 32]),
        logs_bloom: vec![7; 256],
        difficulty: u(8),
        gas_limit: u(9),
        gas_used: u(10),
        timestamp: 11_999,
        extra_data: vec![12],
        mix_hash: H256([13; 32]),
        nonce: [0, 0, 0, 0, 0, 0, 1, 2],
        hash: H256([14; 32]),
    }
}

#[test]
fn header_is_handed_out() {
    let h = header();
    assert!(h.sound());
    let block = h.to_block(20, 30);
    assert_eq!(block.id, H256([14; 32]));
    assert_eq!(block.height, 20);
    assert_eq!(block.parent_id, H256([1; 32]));
    assert_eq!(block.miner, H160([3; 20]));
    assert_eq!((block.gas_limit, block.gas_used), (9, 10));
    assert_eq!((block.timestamp, block.process_start_timestamp), (11, 30));
    assert_eq!(block.base_fee_per_gas, None);
    let out = h.to_header(20);
    assert_eq!(out.sha3_uncles, H256([2; 32]));
    assert_eq!(out.state_root, H256([4; 32]));
    assert_eq!(out.logs_bloom, vec![7; 256]);
    assert_eq!(out.timestamp, 11);
    assert_eq!(out.number, 20);
    assert_eq!(out.nonce, 258);
    assert_eq!(out.extra_data, vec![12]);
    assert_eq!(out.hash, H256([14; 32]));
    let mut large = header();
    large.gas_used = U256([0, 1, 0, 0]);
    assert!(!large.sound());
}

#[test]
fn eight_bytes_are_a_number() {
    assert_eq!(read_u64(&[0xff; 8]), u64::MAX);
    assert_eq!(read_u64(&[1, 0, 0, 0, 0, 0, 0, 0]), 1 << 56);
}

fn transaction() -> EthTransaction {
    EthTransaction {
        hash: H256([1; 32]),
        from: H160([2; 20]),
        to: None,
        gas: u(3),
        gas_price: Some(u(4)),
        max_fee_per_gas: None,
        max_priority_fee_per_gas: None,
        input: vec![5],
        nonce: u(6),
        transaction_index: None,
        value: u(7),
    }
}

#[test]
fn transactions_are_handed_out() {
    let mut second = transaction();
    second.to = Some(H160([8; 20]));
    second.gas_price = None;
    second.max_fee_per_gas = Some(U256([1, 1, 0, 0]));
    second.max_priority_fee_per_gas = Some(u(9));
    second.transaction_index = Some(u(77));
    let txs = vec![transaction(), second, transaction()];
    let receipts = vec![
        EthReceipt {
            gas_used: Some(u(21)),
            status_code: Some(1),
        },
        EthReceipt {
            gas_used: None,
            status_code: Some(0),
        },
    ];
    assert!(transactions_sound(&txs, &receipts));
    let out = list_transactions(&txs, &receipts);
    assert_eq!(out.len(), 3);
    assert_eq!(out[0].to, H160::zero());
    assert_eq!((out[0].gas_limit, out[0].gas_used, out[0].status), (3, 21, true));
    assert_eq!((out[0].gas_price, out[0].gas_fee_cap, out[0].gas_tip_cap), (4, 4, 0));
    assert_eq!((out[0].nonce, out[0].transaction_index), (6, 0));
    assert_eq!(out[0].input, vec![5]);
    assert_eq!(out[1].to, H160([8; 20]));
    assert_eq!((out[1].gas_used, out[1].status), (0, false));
    assert_eq!(out[1].gas_price, 0);
    assert_eq!(out[1].gas_fee_cap, (1u128 << 64) + 1);
    assert_eq!(out[1].gas_tip_cap, 9);
    assert_eq!(out[1].transaction_index, 77);
    assert_eq!((out[2].gas_used, out[2].status), (0, false));
    assert_eq!(out[2].transaction_index, 2);
}

#[test]
fn numbers_that_are_too_large_are_noticed() {
    let mut tx = transaction();
    tx.gas_price = Some(U256([0, 0, 1, 0]));
    assert!(!tx.sound());
    assert!(!transactions_sound(&vec![tx], &vec![]));
    let receipts = vec![EthReceipt {
        gas_used: Some(U256([0, 0, 0, 1])),
        status_code: None,
    }];
    assert!(!transactions_sound(&vec![transaction()], &receipts));
    // A receipt without a transaction is not read.
    assert!(transactions_sound(&vec![], &receipts));
}

#[test]
fn first_block_has_no_traces() {
    let h = header();
    let out = genesis_output(h.to_block(0, 1), h.to_header(0), vec![], h.state_root);
    assert!(out.block_file.traces.is_empty());
    assert!(out.block_file.events.is_empty());
    assert_eq!(
        out.state_diff,
        encode_state_diff(&empty_state_diff(H256([4; 32]), H256::zero()))
    );
    // The text of the block's hash: `0x`, then 64 digits `0e0e...`.
    let sum: i64 = hash_to_text(&H256([14; 32])).bytes().map(|b| b as i64).sum();
    assert_eq!(out.validation_hash, sum);
}

fn no_account(_: H160) -> Option<(NewAccount, Vec<u8>)> {
    None
}

#[test]
fn block_output_carries_what_was_collected() {
    let mut listener = Listener::new();
    let mut root = CallFrame::new(
        DebankCallType::Call,
        H160([1; 20]),
        H160([2; 20]),
        5,
        U256::zero(),
        vec![],
    );
    root.exited = true;
    root.logs.push(EventLog {
        address: H160([2; 20]),
        topics: vec![],
        data: vec![],
        position: 0,
        log_index: 0,
    });
    listener.callstack.push(root);
    listener.deleted_accounts.insert(H160([9; 20]));
    let formatted = Formatter::format(
        listener,
        H256([14; 32]),
        H256([1; 32]),
        &[H256([0x11; 32])],
        no_account,
    );
    let mut diff = empty_state_diff(H256([14; 32]), H256([1; 32]));
    diff.deleted_accounts.push(address_to_hash(&H160([9; 20])));
    let h = header();
    let txs = list_transactions(&vec![transaction()], &vec![]);
    let out = block_output(h.to_block(3, 4), h.to_header(3), txs, formatted);
    assert_eq!(out.state_diff, encode_state_diff(&diff));
    assert_eq!(out.block_file.traces.len(), 1);
    assert_eq!(out.block_file.events.len(), 1);
    assert_eq!(out.block_file.transactions.len(), 1);
    let ids = vec![
        hash_to_text(&H256([14; 32])),
        hash_to_text(&H256([1; 32])),
        out.block_file.events[0].id.clone(),
        out.block_file.traces[0].id.clone(),
    ];
    assert_eq!(out.validation_hash, calc_validation_hash(&ids));
}

#[test]
fn errors_do_not_count_for_the_validation() {
    let h = header();
    let event = || DebankEvent {
        id: "e".to_string(),
        contract_id: H160::zero(),
        selector: String::new(),
        topics: vec![],
        data: vec![],
        tx_id: H256::zero(),
        parent_trace_id: String::new(),
        pos_in_parent_trace: 0,
        idx: 0,
    };
    let trace = || DebankTrace {
        id: "t".to_string(),
        from_addr: H160::zero(),
        gas_limit: 0,
        input: vec![],
        to_addr: H160::zero(),
        value: U256::zero(),
        gas_used: 0,
        output: vec![],
        call_create_type: String::new(),
        call_type: String::new(),
        tx_id: H256::zero(),
        parent_trace_id: String::new(),
        pos_in_parent_trace: 0,
        self_storage_change: false,
        storage_change: false,
        subtraces: 0,
        trace_address: vec![],
        error: String::new(),
    };
    let file = BlockFile {
        block: h.to_block(1, 1),
        transactions: vec![],
        events: vec![event()],
        traces: vec![trace()],
        error_events: vec![event()],
        error_traces: vec![trace()],
        storage_contracts: vec![],
    };
    let ids = vec![hash_to_text(&H256([14; 32])), "e".to_string(), "t".to_string()];
    assert_eq!(
        file.validation(),
        BlockValidation {
            validation_hash: calc_validation_hash(&ids),
            is_fork: false
        }
    );
}

#[test]
fn block_is_found_by_hash_or_height() {
    let find = |id: RequestBlockId| resolve_block(id, 20, 10);
    assert!(matches!(
        find(RequestBlockId::Hash(H256([1; 32]))),
        Ok(BlockTarget::Hash(H256([1, ..])))
    ));
    assert!(matches!(find(RequestBlockId::Number(3)), Ok(BlockTarget::Height(3))));
    let tag = |t: RequestBlockTag| find(RequestBlockId::Tag(t));
    assert!(matches!(tag(RequestBlockTag::Latest), Ok(BlockTarget::Height(20))));
    assert!(matches!(tag(RequestBlockTag::Finalized), Ok(BlockTarget::Height(10))));
    assert!(matches!(tag(RequestBlockTag::Earliest), Ok(BlockTarget::Height(0))));
    assert_eq!(
        tag(RequestBlockTag::Pending).unwrap_err(),
        "'pending' is not supported"
    );
}

#[test]
fn account_has_the_hash_of_its_code() {
    let (account, code) = account_info(&H160::zero(), u(5), u(6), None);
    assert!(code.is_empty());
    assert_eq!(
        hex(&account.code_hash),
        "c5d2460186f7233c927e7db2dcc703c0e500b653ca82273b7bfad8045d85a470"
    );
    assert_eq!(
        hex(&account.address),
        "5380c7b7ae81a58eb98d9c78de4a1fd7fd9535fc953ed2be602daaa41767312a"
    );
    assert_eq!(account.balance, u(5));
    assert_eq!(account.nonce, 6);
    let (account, code) = account_info(&H160::zero(), u(5), u(6), Some(b"abc".to_vec()));
    assert_eq!(code, b"abc".to_vec());
    assert_eq!(
        hex(&account.code_hash),
        "4e03657aea45a94fc7d47ba826c8d667c0d1e6e33a64a036ec44f58fa12d6c45"
    );
}

#[test]
fn wide_numbers_are_read_and_measured() {
    assert_eq!(U256::from_big_endian(&[1, 0]), u(256));
    assert_eq!(U256::from_big_endian(&[0xff; 32]), U256([u64::MAX; 4]));
    assert!(U256::zero().is_zero());
    assert!(!U256([0, 0, 0, 1]).is_zero());
    assert_eq!(U256([7, 1, 0, 0]).low_u64(), 7);
    assert_eq!(U256([7, 1, 0, 0]).as_u128(), (1u128 << 64) + 7);
    let h = H256::from_low_u64_be(0x0102);
    assert_eq!(&h.0[29..], &[0, 1, 2]);
    assert_eq!(H160::from_slice(&[4; 20]), H160([4; 20]));
    assert_eq!(H256::from_slice(&[4; 32]), H256([4; 32]));
}

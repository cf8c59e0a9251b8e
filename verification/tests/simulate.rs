//! Simulated transactions and read-only calls.
use debank_tracing::batch::{multicall_response, next_tx_id, simulate_response, Batch};
use debank_tracing::events::{ExitError, ExitFatal, ExitReason, ExitRevert, ExitSucceed};
use debank_tracing::frame::{CallFrame, DebankCallType, EventLog};
use debank_tracing::listener::Listener;
use debank_tracing::primitives::{H160, H256, U256};
use debank_tracing::simulate::{
    block_context, err_call, err_simulate, exit_reason_to_code, frame_code, multicall_one,
    multicall_refusal, multicall_request, normalize_fees, prepare_call, simulate_one,
    simulate_refusal, simulate_request, AccessListItem, BlockNumberOrHash, BlockType, CallOutcome,
    DebankBlockContext, DebankSingleCallResult, TraceOutcome, TransactionRequest,
    DEBANK_ERR_GAS_EXHAUSTED, DEBANK_ERR_INSUFFICIENT_BALANCE, DEBANK_ERR_NONCE,
    DEBANK_ERR_REVERTED, DEBANK_ERR_UNKNOWN, DEBANK_ERR_UNSUPPORTED_PRECOMPILE,
    DEFAULT_MAX_BATCH_SIZE,
};

fn u(n: u64) -> U256 {
    U256::from_u64(n)
}

fn request(to: Option<H160>) -> TransactionRequest {
    TransactionRequest {
        from: None,
        to,
        gas_price: None,
        max_fee_per_gas: None,
        max_priority_fee_per_gas: None,
        gas: None,
        value: None,
        data: None,
        nonce: None,
        access_list: None,
    }
}

#[test]
fn constants_are_those_of_the_wire() {
    assert_eq!(DEBANK_ERR_REVERTED, -39000);
    assert_eq!(DEBANK_ERR_GAS_EXHAUSTED, -39001);
    assert_eq!(DEBANK_ERR_INSUFFICIENT_BALANCE, -39002);
    assert_eq!(DEBANK_ERR_NONCE, -39003);
    assert_eq!(DEBANK_ERR_UNKNOWN, -39004);
    assert_eq!(DEBANK_ERR_UNSUPPORTED_PRECOMPILE, -39008);
    assert_eq!(DEFAULT_MAX_BATCH_SIZE, 50);
}

#[test]
fn context_names_its_block_or_the_latest() {
    let context = DebankBlockContext {
        block_id: BlockNumberOrHash::Num(7),
        block_type: BlockType::Equals,
    };
    assert!(matches!(
        context.to_block_number_or_hash(),
        BlockNumberOrHash::Num(7)
    ));
    let context = DebankBlockContext {
        block_id: BlockNumberOrHash::Num(7),
        block_type: BlockType::Contains,
    };
    assert!(matches!(
        context.to_block_number_or_hash(),
        BlockNumberOrHash::Latest
    ));
    assert_eq!(BlockType::default(), BlockType::Equals);
}

#[test]
fn fees_are_normalized() {
    assert_eq!(normalize_fees(Some(u(5)), None, None), (Some(u(5)), Some(u(5))));
    assert_eq!(normalize_fees(Some(u(0)), None, None), (None, None));
    assert_eq!(normalize_fees(None, None, None), (None, None));
    assert_eq!(normalize_fees(Some(u(5)), Some(u(6)), None), (Some(u(6)), None));
    assert_eq!(normalize_fees(Some(u(5)), None, Some(u(2))), (None, Some(u(2))));
    assert_eq!(
        normalize_fees(None, Some(u(0)), Some(u(2))),
        (Some(u(0)), Some(u(2)))
    );
}

#[test]
fn what_is_left_out_is_filled_in() {
    let args = prepare_call(request(Some(H160([2; 20]))), u(99)).unwrap();
    assert_eq!(args.from, H160::zero());
    assert_eq!(args.to, H160([2; 20]));
    assert!(args.data.is_empty());
    assert_eq!(args.value, U256::zero());
    assert_eq!(args.gas_limit, u(99));
    assert_eq!(args.max_fee_per_gas, None);
    assert_eq!(args.nonce, None);
    assert!(args.access_list.is_none());
}

#[test]
fn what_is_given_is_kept() {
    let mut req = request(Some(H160([2; 20])));
    req.from = Some(H160([1; 20]));
    req.data = Some(vec![1, 2]);
    req.value = Some(u(3));
    req.gas = Some(u(4));
    req.nonce = Some(u(5));
    req.gas_price = Some(u(6));
    req.access_list = Some(vec![AccessListItem {
        address: H160([7; 20]),
        storage_keys: vec![H256([8; 32])],
    }]);
    let args = prepare_call(req, u(99)).unwrap();
    assert_eq!(args.from, H160([1; 20]));
    assert_eq!(args.data, vec![1, 2]);
    assert_eq!(args.value, u(3));
    assert_eq!(args.gas_limit, u(4));
    assert_eq!(args.nonce, Some(u(5)));
    assert_eq!(args.max_priority_fee_per_gas, Some(u(6)));
    assert_eq!(
        args.access_list,
        Some(vec![(H160([7; 20]), vec![H256([8; 32])])])
    );
}

#[test]
fn call_to_nobody_is_refused() {
    let refused = simulate_request(request(None), u(1)).unwrap_err();
    assert_eq!(refused.code, DEBANK_ERR_UNKNOWN);
    assert_eq!(
        refused.err,
        "debank: contract creation not supported in simulateTransactions"
    );
    assert!(refused.traces.is_empty());
    let refused = multicall_request(request(None), u(1)).unwrap_err();
    assert_eq!(refused.code, DEBANK_ERR_UNKNOWN);
    assert_eq!(refused.err, "debank: 'to' address required");
    assert!(simulate_request(request(Some(H160::zero())), u(1)).is_ok());
    assert!(multicall_request(request(Some(H160::zero())), u(1)).is_ok());
}

#[test]
fn block_context_falls_back() {
    assert_eq!(
        block_context(Some((u(8), 12_999, H256([1; 32]))), H256([2; 32])),
        (u(8), 12, H256([1; 32]))
    );
    assert_eq!(
        block_context(None, H256([2; 32])),
        (u(u64::MAX), 0, H256([2; 32]))
    );
}

fn root(failed: bool, error: &str) -> CallFrame {
    let mut f = CallFrame::new(
        DebankCallType::Call,
        H160([1; 20]),
        H160([2; 20]),
        10,
        U256::zero(),
        vec![],
    );
    f.failed = failed;
    f.error = error.to_string();
    f.exited = true;
    f.gas_used = 6;
    f.logs.push(EventLog {
        address: H160([2; 20]),
        topics: vec![H256([3; 32])],
        data: vec![4],
        position: 0,
        log_index: 0,
    });
    f
}

#[test]
fn root_frame_has_its_code() {
    assert_eq!(frame_code(&root(false, "")), (0, String::new()));
    assert_eq!(
        frame_code(&root(true, "execution reverted")),
        (DEBANK_ERR_REVERTED, "execution reverted".to_string())
    );
    assert_eq!(frame_code(&root(true, "out of gas")).0, DEBANK_ERR_GAS_EXHAUSTED);
    assert_eq!(
        frame_code(&root(true, "out of funds")).0,
        DEBANK_ERR_INSUFFICIENT_BALANCE
    );
    assert_eq!(
        frame_code(&root(true, "fatal error")),
        (DEBANK_ERR_UNKNOWN, "fatal error".to_string())
    );
}

#[test]
fn reasons_have_their_codes_and_messages() {
    let of = |reason: ExitReason| exit_reason_to_code(&reason);
    assert_eq!(of(ExitReason::Succeed(ExitSucceed::Stopped)), (0, String::new()));
    assert_eq!(
        of(ExitReason::Revert(ExitRevert::Reverted)),
        (DEBANK_ERR_REVERTED, "execution reverted".to_string())
    );
    for (error, code, text) in [
        (ExitError::OutOfGas, DEBANK_ERR_GAS_EXHAUSTED, "OutOfGas"),
        (ExitError::OutOfFund, DEBANK_ERR_INSUFFICIENT_BALANCE, "OutOfFund"),
        (ExitError::StackUnderflow, DEBANK_ERR_UNKNOWN, "StackUnderflow"),
        (ExitError::StackOverflow, DEBANK_ERR_UNKNOWN, "StackOverflow"),
        (ExitError::InvalidJump, DEBANK_ERR_UNKNOWN, "InvalidJump"),
        (ExitError::InvalidRange, DEBANK_ERR_UNKNOWN, "InvalidRange"),
        (ExitError::DesignatedInvalid, DEBANK_ERR_UNKNOWN, "DesignatedInvalid"),
        (ExitError::CallTooDeep, DEBANK_ERR_UNKNOWN, "CallTooDeep"),
        (ExitError::CreateCollision, DEBANK_ERR_UNKNOWN, "CreateCollision"),
        (ExitError::CreateContractLimit, DEBANK_ERR_UNKNOWN, "CreateContractLimit"),
        (ExitError::InvalidCode(239), DEBANK_ERR_UNKNOWN, "InvalidCode(Opcode(239))"),
        (ExitError::OutOfOffset, DEBANK_ERR_UNKNOWN, "OutOfOffset"),
        (ExitError::PCUnderflow, DEBANK_ERR_UNKNOWN, "PCUnderflow"),
        (ExitError::CreateEmpty, DEBANK_ERR_UNKNOWN, "CreateEmpty"),
        (ExitError::MaxNonce, DEBANK_ERR_UNKNOWN, "MaxNonce"),
        (
            ExitError::Other("a \"b\"".to_string()),
            DEBANK_ERR_UNKNOWN,
            "Other(\"a \\\"b\\\"\")",
        ),
    ] {
        assert_eq!(of(ExitReason::Error(error)), (code, text.to_string()));
    }
    for (fatal, text) in [
        (ExitFatal::NotSupported, "NotSupported"),
        (ExitFatal::UnhandledInterrupt, "UnhandledInterrupt"),
        (
            ExitFatal::CallErrorAsFatal(ExitError::OutOfGas),
            "CallErrorAsFatal(OutOfGas)",
        ),
        (ExitFatal::Other("x".to_string()), "Other(\"x\")"),
    ] {
        assert_eq!(
            of(ExitReason::Fatal(fatal)),
            (DEBANK_ERR_UNKNOWN, text.to_string())
        );
    }
}

#[test]
fn names_of_errors_are_those_of_the_machine() {
    assert_eq!(format!("{:?}", evm::ExitError::CallTooDeep), "CallTooDeep");
    assert_eq!(
        format!("{:?}", evm::ExitError::InvalidCode(evm::Opcode(239))),
        "InvalidCode(Opcode(239))"
    );
    assert_eq!(
        format!(
            "{:?}",
            evm::ExitFatal::CallErrorAsFatal(evm::ExitError::OutOfGas)
        ),
        "CallErrorAsFatal(OutOfGas)"
    );
    assert_eq!(
        format!("{:?}", evm::ExitFatal::Other("x".into())),
        "Other(\"x\")"
    );
}

fn listener_with(frame: CallFrame) -> Listener {
    let mut l = Listener::new();
    l.callstack.push(frame);
    l
}

fn first_tx() -> H256 {
    H256::from_low_u64_be(1)
}

#[test]
fn simulation_that_succeeds_has_traces_and_events() {
    let r = simulate_one(listener_with(root(false, "")), TraceOutcome::Done, first_tx());
    assert_eq!(r.code, 0);
    assert_eq!(r.gas_used, 6);
    assert_eq!(r.traces.len(), 1);
    assert_eq!(r.traces[0].id, "378f848688b2e202c0d480f8ff60f6d7");
    assert_eq!(r.events.len(), 1);
    assert_eq!(r.events[0].tx_id, first_tx());
    assert_eq!(r.events[0].selector, format!("0x{}", "03".repeat(32)));
    assert_eq!(r.events[0].data, vec![4]);
}

#[test]
fn simulation_that_fails_has_no_events() {
    let r = simulate_one(
        listener_with(root(true, "out of gas")),
        TraceOutcome::Done,
        first_tx(),
    );
    assert_eq!(r.code, DEBANK_ERR_GAS_EXHAUSTED);
    assert_eq!(r.err, "out of gas");
    assert_eq!(r.traces.len(), 1);
    assert!(r.events.is_empty());
}

#[test]
fn simulation_that_cannot_be_run_says_why() {
    let r = simulate_one(
        listener_with(root(false, "")),
        TraceOutcome::Dispatch("Bad".to_string()),
        first_tx(),
    );
    assert_eq!(r.err, "debank: dispatch error: Bad");
    assert!(r.traces.is_empty());
    let r = simulate_one(
        Listener::new(),
        TraceOutcome::Api("Worse".to_string()),
        first_tx(),
    );
    assert_eq!(r.err, "debank: trace_call api error: Worse");
    let r = simulate_one(Listener::new(), TraceOutcome::Done, first_tx());
    assert_eq!(r.code, DEBANK_ERR_UNKNOWN);
    assert_eq!(r.err, "debank: no trace produced");
}

#[test]
fn read_only_calls_have_their_results() {
    let r = multicall_one(CallOutcome::Done {
        exit_reason: ExitReason::Succeed(ExitSucceed::Returned),
        value: vec![1, 2],
        used_gas: u(21000),
    });
    assert_eq!((r.code, r.gas_used, r.from_cache), (0, 21000, false));
    assert_eq!(r.result, vec![1, 2]);
    let r = multicall_one(CallOutcome::Done {
        exit_reason: ExitReason::Error(ExitError::OutOfGas),
        value: vec![],
        used_gas: U256([u64::MAX, 1, 0, 0]),
    });
    assert_eq!((r.code, r.gas_used), (DEBANK_ERR_GAS_EXHAUSTED, -1));
    let r = multicall_one(CallOutcome::Done {
        exit_reason: ExitReason::Succeed(ExitSucceed::Stopped),
        value: vec![],
        used_gas: u(1 << 63),
    });
    assert_eq!(r.gas_used, i64::MIN);
    let r = multicall_one(CallOutcome::Dispatch("Bad".to_string()));
    assert_eq!(r.err, "debank: dispatch error: Bad");
    let r = multicall_one(CallOutcome::Api("Worse".to_string()));
    assert_eq!(r.err, "debank: call api error: Worse");
    assert_eq!(r.code, DEBANK_ERR_UNKNOWN);
}

#[test]
fn batches_that_are_too_large_are_refused() {
    assert_eq!(simulate_refusal(50, 50), None);
    assert_eq!(
        simulate_refusal(51, 50).unwrap(),
        "debank: simulateTransactions accepts at most 50 calls"
    );
    assert_eq!(multicall_refusal(3, 3, false), None);
    assert_eq!(
        multicall_refusal(4, 3, true).unwrap(),
        "debank: contractMultiCall accepts at most 3 calls"
    );
    assert_eq!(
        multicall_refusal(1, 3, true).unwrap(),
        "debank: contractMultiCall state_override is not yet supported"
    );
}

#[test]
fn failure_is_repeated_for_the_rest_of_the_batch() {
    let mut batch = Batch::new(true);
    assert_eq!(next_tx_id(&batch), H256::from_low_u64_be(1));
    assert!(!batch.repeat_failure());
    batch.record(simulate_one(
        listener_with(root(false, "")),
        TraceOutcome::Done,
        first_tx(),
    ));
    assert_eq!(next_tx_id(&batch), H256::from_low_u64_be(2));
    assert!(!batch.repeat_failure());
    batch.record(simulate_one(
        listener_with(root(true, "odd")),
        TraceOutcome::Done,
        H256::from_low_u64_be(2),
    ));
    assert!(batch.repeat_failure());
    assert!(batch.repeat_failure());
    assert_eq!(batch.len(), 4);
    let resp = simulate_response(batch, 9, H256([1; 32]), 8);
    let errs: Vec<&str> = resp.results.iter().map(|r| r.err.as_str()).collect();
    assert_eq!(errs, vec!["", "odd", "odd", "odd"]);
    assert_eq!(resp.results[3].traces[0].id, resp.results[1].traces[0].id);
    assert!(!resp.stats.success);
    assert_eq!(resp.stats.block_num, 9);
    assert_eq!(resp.stats.block_time, 8);
    assert_eq!(resp.stats.block_hash, H256([1; 32]));
}

#[test]
fn batch_that_does_not_stop_runs_every_call() {
    let fail = || err_call(DEBANK_ERR_UNKNOWN, "no".to_string());
    let good = || DebankSingleCallResult {
        code: 0,
        err: String::new(),
        from_cache: false,
        result: vec![],
        gas_used: 1,
    };
    let mut batch = Batch::new(false);
    batch.record(fail());
    assert!(!batch.repeat_failure());
    batch.record(good());
    let resp = multicall_response(batch, 1, H256::zero(), 2);
    assert_eq!(resp.results.len(), 2);
    assert_eq!(resp.results[1].code, 0);
    assert!(!resp.stats.success);
    assert!(!resp.stats.cache_enabled);
    let mut batch = Batch::new(true);
    batch.record(good());
    assert!(multicall_response(batch, 1, H256::zero(), 2).stats.success);
    let mut batch = Batch::new(true);
    batch.record(fail());
    assert!(batch.repeat_failure());
    let resp = multicall_response(batch, 1, H256::zero(), 2);
    assert_eq!(resp.results[1].err, "no");
}

#[test]
fn empty_batch_succeeds() {
    let batch = Batch::new(true);
    let resp = simulate_response(batch, 1, H256::zero(), 2);
    assert!(resp.stats.success);
    assert!(resp.results.is_empty());
    let r = err_simulate(-1, "m".to_string());
    assert_eq!((r.code, r.gas_used), (-1, 0));
}

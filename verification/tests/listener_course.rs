//! What holds of the listener over runs of reports.
use debank_tracing::events::{
    Capture, Context, Event, EvmEvent, ExitError, ExitFatal, ExitReason, ExitRevert, ExitSucceed,
    GasometerEvent, RuntimeEvent, Snapshot, StepEventFilter,
};
use debank_tracing::frame::{call_type_from_opcode, error_message, CallFrame, DebankCallType};
use debank_tracing::listener::Listener;
use debank_tracing::primitives::{H160, H256, U256};

fn at(n: u8) -> H160 {
    H160([n; 20])
}

fn context(caller: H160, value: u64) -> Context {
    Context {
        address: at(0xfe),
        caller,
        apparent_value: U256::from_u64(value),
    }
}

fn transact(l: &mut Listener) {
    l.event(Event::Evm(EvmEvent::TransactCall {
        caller: at(1),
        address: at(2),
        value: U256::zero(),
        data: vec![0xaa],
        gas_limit: 1000,
    }));
    // The machine reports the root call again; it opens no second frame.
    call(l, at(1), at(2), 0);
}

fn call(l: &mut Listener, caller: H160, to: H160, value: u64) {
    l.event(Event::Evm(EvmEvent::Call {
        code_address: to,
        transfer: None,
        input: vec![1, 2],
        target_gas: Some(500),
        is_static: false,
        context: context(caller, value),
    }));
}

fn precompile(l: &mut Listener, caller: H160, to: H160) {
    l.event(Event::Evm(EvmEvent::PrecompileSubcall {
        code_address: to,
        transfer: None,
        input: vec![],
        target_gas: None,
        is_static: false,
        context: context(caller, 0),
    }));
}

fn create(l: &mut Listener, caller: H160, address: H160, value: u64) {
    l.event(Event::Evm(EvmEvent::Create {
        caller,
        address,
        scheme: debank_tracing::events::CreateScheme::Fixed(address),
        value: U256::from_u64(value),
        init_code: vec![0x60],
        target_gas: None,
    }));
}

fn exit(l: &mut Listener, reason: ExitReason, output: Vec<u8>) {
    l.event(Event::Evm(EvmEvent::Exit {
        reason,
        return_value: output,
    }));
}

fn ok() -> ExitReason {
    ExitReason::Succeed(ExitSucceed::Returned)
}

fn revert() -> ExitReason {
    ExitReason::Revert(ExitRevert::Reverted)
}

fn log(l: &mut Listener) {
    l.event(Event::Evm(EvmEvent::Log {
        address: at(2),
        topics: vec![],
        data: vec![],
    }));
}

fn store(l: &mut Listener, address: H160, slot: u8, value: u8) {
    l.event(Event::Runtime(RuntimeEvent::SStore {
        address,
        index: H256([slot; 32]),
        value: H256([value; 32]),
    }));
}

fn reading(l: &mut Listener, limit: u64, used: u64, memory: u64) {
    l.event(Event::Gasometer(GasometerEvent::RecordCost {
        cost: 1,
        snapshot: Snapshot {
            gas_limit: limit,
            memory_gas: memory,
            used_gas: used,
            refunded_gas: 0,
        },
    }));
}

#[test]
fn gas_comes_from_the_first_and_the_last_reading() {
    let mut l = Listener::new();
    transact(&mut l);
    reading(&mut l, 900, 100, 50);
    reading(&mut l, 900, 300, 60);
    exit(&mut l, ok(), vec![7]);
    l.finish_transaction();
    let root = &l.completed_frames[0];
    assert_eq!(root.gas, 750);
    assert_eq!(root.gas_used, 750 - 540);
    assert_eq!(root.output, vec![7]);
    assert_eq!(root.input, vec![0xaa]);
}

#[test]
fn gas_without_a_reading_is_the_limit() {
    let mut l = Listener::new();
    transact(&mut l);
    exit(&mut l, ok(), vec![]);
    l.finish_transaction();
    assert_eq!(l.completed_frames[0].gas, 1000);
    assert_eq!(l.completed_frames[0].gas_used, 0);
}

#[test]
fn gas_that_grows_counts_as_none_used() {
    let mut l = Listener::new();
    transact(&mut l);
    reading(&mut l, 900, 800, 0);
    l.event(Event::Gasometer(GasometerEvent::RecordStipend {
        stipend: 2300,
        snapshot: Snapshot {
            gas_limit: 900,
            memory_gas: 0,
            used_gas: 0,
            refunded_gas: 0,
        },
    }));
    exit(&mut l, ok(), vec![]);
    l.finish_transaction();
    assert_eq!(l.completed_frames[0].gas, 100);
    assert_eq!(l.completed_frames[0].gas_used, 0);
}

#[test]
fn refund_is_no_reading() {
    let mut l = Listener::new();
    transact(&mut l);
    l.event(Event::Gasometer(GasometerEvent::RecordRefund {
        refund: 5,
        snapshot: Snapshot {
            gas_limit: 900,
            memory_gas: 0,
            used_gas: 1,
            refunded_gas: 5,
        },
    }));
    assert_eq!(l.callstack[0].start_gas, None);
    l.event(Event::Gasometer(GasometerEvent::RecordTransaction {
        cost: 77,
        snapshot: Snapshot {
            gas_limit: 900,
            memory_gas: 0,
            used_gas: 1,
            refunded_gas: 5,
        },
    }));
    assert_eq!(l.transaction_cost, 77);
}

#[test]
fn finishing_twice_changes_nothing() {
    let mut l = Listener::new();
    transact(&mut l);
    exit(&mut l, ok(), vec![]);
    l.finish_transaction();
    l.finish_transaction();
    assert_eq!(l.completed_frames.len(), 1);
    assert_eq!(l.callstack.len(), 0);
    assert_eq!(l.step_result_exit_count, 0);
    assert!(!l.skip_next_context);
}

#[test]
fn nothing_reported_leaves_no_frame() {
    let mut l = Listener::new();
    l.finish_transaction();
    assert_eq!(l.completed_frames.len(), 0);
}

#[test]
fn inner_frames_left_open_are_dropped() {
    let mut l = Listener::new();
    transact(&mut l);
    call(&mut l, at(2), at(3), 0);
    l.finish_transaction();
    let root = &l.completed_frames[0];
    assert_eq!(root.calls.len(), 0);
    assert!(root.failed);
    assert_eq!(
        root.error,
        "early exit (out of gas, stack overflow, direct call to precompile, ...)"
    );
}

#[test]
fn two_reports_of_one_end_close_one_frame() {
    let mut l = Listener::new();
    transact(&mut l);
    call(&mut l, at(2), at(3), 0);
    call(&mut l, at(3), at(4), 0);
    l.event(Event::Runtime(RuntimeEvent::StepResult {
        result: Err(Capture::Exit(revert())),
        return_value: vec![1],
    }));
    assert_eq!(l.callstack.len(), 2);
    assert_eq!(l.step_result_exit_count, 1);
    exit(&mut l, ok(), vec![2]);
    assert_eq!(l.callstack.len(), 2);
    assert_eq!(l.step_result_exit_count, 0);
    // What the interpreter said first counts.
    assert!(l.callstack[1].calls[0].failed);
    assert_eq!(l.callstack[1].calls[0].output, vec![1]);
}

#[test]
fn failure_above_is_known_at_every_depth() {
    let mut l = Listener::new();
    transact(&mut l);
    call(&mut l, at(2), at(3), 0);
    call(&mut l, at(3), at(4), 0);
    call(&mut l, at(4), at(5), 0);
    exit(&mut l, ok(), vec![]);
    exit(&mut l, ok(), vec![]);
    exit(&mut l, revert(), vec![]);
    call(&mut l, at(2), at(6), 0);
    exit(&mut l, ok(), vec![]);
    exit(&mut l, ok(), vec![]);
    l.finish_transaction();
    let root = &l.completed_frames[0];
    assert!(!root.parent_failed);
    assert!(!root.calls[0].parent_failed);
    assert!(root.calls[0].calls[0].parent_failed);
    assert!(root.calls[0].calls[0].calls[0].parent_failed);
    assert!(!root.calls[1].parent_failed);
}

#[test]
fn storage_change_stops_at_a_failed_call() {
    let mut l = Listener::new();
    transact(&mut l);
    call(&mut l, at(2), at(3), 0);
    call(&mut l, at(3), at(4), 0);
    store(&mut l, at(4), 1, 1);
    exit(&mut l, ok(), vec![]);
    exit(&mut l, revert(), vec![]);
    exit(&mut l, ok(), vec![]);
    l.finish_transaction();
    let root = &l.completed_frames[0];
    assert!(!root.storage_change);
    assert!(root.calls[0].storage_change);
    assert!(!root.calls[0].self_storage_change);
    assert!(l.storage_contracts.contains(&at(4)));
    assert_eq!(l.storage_contracts.len(), 1);
}

#[test]
fn delegate_call_writes_to_its_caller() {
    let mut l = Listener::new();
    transact(&mut l);
    l.event(Event::Runtime(RuntimeEvent::StepResult {
        result: Err(Capture::Trap(vec![0xF4])),
        return_value: vec![],
    }));
    call(&mut l, at(2), at(3), 0);
    store(&mut l, at(2), 1, 1);
    exit(&mut l, ok(), vec![]);
    exit(&mut l, ok(), vec![]);
    l.finish_transaction();
    assert!(l.storage_contracts.contains(&at(2)));
    assert!(!l.storage_contracts.contains(&at(3)));
    // The announced type is used up by one call.
    assert_eq!(l.completed_frames[0].calls[0].call_type, DebankCallType::DelegateCall);
    assert_eq!(l.call_type, None);
}

#[test]
fn last_value_of_a_slot_counts() {
    let mut l = Listener::new();
    transact(&mut l);
    store(&mut l, at(2), 1, 1);
    store(&mut l, at(2), 1, 2);
    store(&mut l, at(2), 3, 4);
    let slots = l.storage_changes.get(&at(2)).unwrap();
    assert_eq!(slots.len(), 2);
    assert_eq!(slots.get(&H256([1; 32])), Some(&H256([2; 32])));
    assert_eq!(slots.get(&H256([3; 32])), Some(&H256([4; 32])));
}

#[test]
fn accounts_are_touched_by_value_and_creation() {
    let mut l = Listener::new();
    transact(&mut l);
    assert!(l.touched_accounts.contains(&at(1)));
    assert!(!l.touched_accounts.contains(&at(2)));
    call(&mut l, at(2), at(3), 0);
    assert!(!l.touched_accounts.contains(&at(3)));
    exit(&mut l, ok(), vec![]);
    call(&mut l, at(2), at(4), 9);
    assert!(l.touched_accounts.contains(&at(2)));
    assert!(l.touched_accounts.contains(&at(4)));
    exit(&mut l, ok(), vec![]);
    create(&mut l, at(8), at(9), 0);
    assert!(!l.touched_accounts.contains(&at(8)));
    assert!(l.touched_accounts.contains(&at(9)));
    assert!(l.created_accounts.contains(&at(9)));
}

#[test]
fn failed_creation_is_taken_back_and_forgets_its_address() {
    let mut l = Listener::new();
    transact(&mut l);
    create(&mut l, at(2), at(9), 0);
    exit(&mut l, ExitReason::Error(ExitError::CreateCollision), vec![]);
    assert!(!l.created_accounts.contains(&at(9)));
    assert!(l.touched_accounts.contains(&at(9)));
    assert_eq!(l.callstack[0].calls[0].to, H160::zero());
    create(&mut l, at(2), at(10), 0);
    exit(&mut l, revert(), vec![]);
    assert!(!l.created_accounts.contains(&at(10)));
    assert_eq!(l.callstack[0].calls[1].to, at(10));
}

#[test]
fn fatal_end_has_its_message() {
    let mut l = Listener::new();
    transact(&mut l);
    exit(&mut l, ExitReason::Fatal(ExitFatal::NotSupported), vec![1]);
    l.finish_transaction();
    assert_eq!(l.completed_frames[0].error, "fatal error");
    assert_eq!(l.completed_frames[0].output, Vec::<u8>::new());
}

#[test]
fn destruction_is_a_call_that_is_over_at_once() {
    let mut l = Listener::new();
    transact(&mut l);
    log(&mut l);
    l.event(Event::Evm(EvmEvent::Suicide {
        address: at(2),
        target: at(7),
        balance: U256::from_u64(5),
    }));
    let child = &l.callstack[0].calls[0];
    assert_eq!(child.pos_in_parent_trace, 1);
    assert_eq!(child.trace_address, vec![0]);
    assert_eq!(child.from, at(2));
    assert_eq!(child.to, at(7));
    assert!(l.deleted_accounts.contains(&at(2)));
    assert!(l.touched_accounts.contains(&at(7)));
}

#[test]
fn destruction_outside_of_a_frame_is_noted_all_the_same() {
    let mut l = Listener::new();
    l.event(Event::Evm(EvmEvent::Suicide {
        address: at(2),
        target: at(7),
        balance: U256::zero(),
    }));
    assert!(l.deleted_accounts.contains(&at(2)));
    assert!(!l.touched_accounts.contains(&at(7)));
    assert_eq!(l.callstack.len(), 0);
}

#[test]
fn log_numbers_run_on_over_transactions() {
    let mut l = Listener::new();
    transact(&mut l);
    log(&mut l);
    call(&mut l, at(2), at(3), 0);
    log(&mut l);
    exit(&mut l, ok(), vec![]);
    exit(&mut l, ok(), vec![]);
    l.finish_transaction();
    transact(&mut l);
    log(&mut l);
    exit(&mut l, ok(), vec![]);
    l.finish_transaction();
    assert_eq!(l.completed_frames[0].logs[0].log_index, 0);
    assert_eq!(l.completed_frames[0].calls[0].logs[0].log_index, 1);
    assert_eq!(l.completed_frames[1].logs[0].log_index, 2);
    assert_eq!(l.global_log_index, 3);
}

#[test]
fn log_outside_of_a_frame_is_dropped() {
    let mut l = Listener::new();
    log(&mut l);
    assert_eq!(l.global_log_index, 0);
}

#[test]
fn precompile_that_calls_is_kept_and_another_is_closed() {
    let mut l = Listener::new();
    transact(&mut l);
    precompile(&mut l, at(2), at(0xa0));
    precompile(&mut l, at(2), at(0xa1));
    // The first one returned without a report.
    assert_eq!(l.callstack.len(), 2);
    assert_eq!(l.callstack[0].calls.len(), 1);
    call(&mut l, at(0xa1), at(5), 0);
    assert_eq!(l.callstack.len(), 3);
    assert!(l.callstack[1].had_subcall);
    exit(&mut l, ok(), vec![]);
    exit(&mut l, ok(), vec![]);
    assert_eq!(l.callstack.len(), 1);
    assert_eq!(l.callstack[0].calls[1].trace_address, vec![1]);
    assert_eq!(l.callstack[0].calls[1].calls[0].trace_address, vec![1, 0]);
}

#[test]
fn root_precompile_stays_on_the_stack() {
    let mut l = Listener::new();
    precompile(&mut l, at(2), at(0xa0));
    log(&mut l);
    assert_eq!(l.callstack.len(), 1);
    assert_eq!(l.callstack[0].logs.len(), 1);
}

#[test]
fn call_comes_from_the_frame_around_it() {
    let mut l = Listener::new();
    transact(&mut l);
    call(&mut l, at(0x77), at(3), 0);
    assert_eq!(l.callstack[1].from, at(2));
    assert_eq!(l.callstack[1].gas, 500);
    let mut m = Listener::new();
    call(&mut m, at(0x77), at(3), 0);
    assert_eq!(m.callstack[0].from, at(0x77));
    assert_eq!(m.callstack[0].trace_address, Vec::<usize>::new());
}

#[test]
fn marker_before_the_first_transaction_ends_none() {
    let mut l = Listener::new();
    transact(&mut l);
    l.event(Event::CallListNew());
    assert_eq!(l.completed_frames.len(), 0);
    assert!(!l.first_transaction);
    l.event(Event::CallListNew());
    assert_eq!(l.completed_frames.len(), 1);
}

#[test]
fn errors_have_their_messages() {
    for (error, text) in [
        (ExitError::StackUnderflow, "stack underflow"),
        (ExitError::StackOverflow, "stack overflow"),
        (ExitError::InvalidJump, "invalid jump"),
        (ExitError::InvalidRange, "invalid range"),
        (ExitError::DesignatedInvalid, "designated invalid"),
        (ExitError::CallTooDeep, "call too deep"),
        (ExitError::CreateCollision, "create collision"),
        (ExitError::CreateContractLimit, "create contract limit"),
        (ExitError::OutOfOffset, "out of offset"),
        (ExitError::OutOfGas, "out of gas"),
        (ExitError::OutOfFund, "out of funds"),
        (ExitError::Other("odd".to_string()), "odd"),
        (ExitError::InvalidCode(3), "unexpected error"),
        (ExitError::PCUnderflow, "unexpected error"),
        (ExitError::CreateEmpty, "unexpected error"),
        (ExitError::MaxNonce, "unexpected error"),
    ] {
        assert_eq!(error_message(&error), text);
    }
}

#[test]
fn opcodes_announce_their_call_types() {
    assert_eq!(call_type_from_opcode(&[0xF1]), Some(DebankCallType::Call));
    assert_eq!(call_type_from_opcode(&[0xF2]), Some(DebankCallType::CallCode));
    assert_eq!(call_type_from_opcode(&[0xF4, 0]), Some(DebankCallType::DelegateCall));
    assert_eq!(call_type_from_opcode(&[0xFA]), Some(DebankCallType::StaticCall));
    assert_eq!(call_type_from_opcode(&[0xF0]), None);
    assert_eq!(call_type_from_opcode(&[]), None);
}

#[test]
fn listener_wants_no_details_and_has_room() {
    let l = Listener::default();
    assert_eq!(
        l.step_event_filter(),
        StepEventFilter {
            enable_memory: false,
            enable_stack: false
        }
    );
    assert!(l.has_room());
    let mut full = Listener::default();
    full.global_log_index = usize::MAX - 1;
    assert!(!full.has_room());
    let mut busy = Listener::default();
    busy.callstack.push(CallFrame::new(
        DebankCallType::Call,
        at(1),
        at(2),
        0,
        U256::zero(),
        vec![],
    ));
    assert!(busy.has_room());
}

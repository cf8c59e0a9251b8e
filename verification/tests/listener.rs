//! What the listener makes of the reports of a transaction.
use debank_tracing::events::{
    Capture, Context, CreateScheme, Event, EvmEvent, ExitError, ExitReason, ExitRevert, ExitSucceed,
    GasometerEvent, Memory, RuntimeEvent, Snapshot, Stack,
};
use debank_tracing::frame::DebankCallType;
use debank_tracing::listener::Listener;
use debank_tracing::primitives::{H160, H256, U256};

fn address(n: u64) -> H160 {
    let mut bytes = [0u8; 20];
    bytes[12..].copy_from_slice(&n.to_be_bytes());
    H160(bytes)
}

// Test event type enums
enum TestEvmEvent {
    Call,
    Create,
    Suicide,
    Exit,
    TransactCall,
    TransactCreate,
    TransactCreate2,
    Log,
    PrecompileSubcall,
}

enum TestRuntimeEvent {
    Step,
    StepResult,
    StepResultExit,
    SStore,
}

enum TestGasometerEvent {
    RecordCost,
    RecordTransaction,
}

// Test helper functions
fn test_context() -> Context {
    Context {
        address: address(1),
        caller: address(2),
        apparent_value: U256::zero(),
    }
}

fn test_context_with_caller(caller: H160) -> Context {
    Context {
        address: address(1),
        caller,
        apparent_value: U256::zero(),
    }
}

fn test_create_scheme() -> CreateScheme {
    CreateScheme::Legacy {
        caller: H160::zero(),
    }
}

fn test_stack() -> Option<Stack> {
    None
}

fn test_memory() -> Option<Memory> {
    None
}

fn test_snapshot() -> Snapshot {
    Snapshot {
        gas_limit: 1000u64,
        memory_gas: 0u64,
        used_gas: 100u64,
        refunded_gas: 0i64,
    }
}

fn test_emit_evm_event(
    event_type: TestEvmEvent,
    is_static: bool,
    exit_reason: Option<ExitReason>,
) -> EvmEvent {
    match event_type {
        TestEvmEvent::Call => EvmEvent::Call {
            code_address: address(100),
            transfer: None,
            input: Vec::new(),
            target_gas: Some(10000),
            is_static,
            context: test_context(),
        },
        TestEvmEvent::Create => EvmEvent::Create {
            caller: address(2),
            address: address(200),
            scheme: test_create_scheme(),
            value: U256::zero(),
            init_code: Vec::new(),
            target_gas: Some(10000),
        },
        TestEvmEvent::Suicide => EvmEvent::Suicide {
            address: address(100),
            target: address(300),
            balance: U256::from_u64(1000),
        },
        TestEvmEvent::Exit => EvmEvent::Exit {
            reason: exit_reason.unwrap_or(ExitReason::Succeed(ExitSucceed::Returned)),
            return_value: Vec::new(),
        },
        TestEvmEvent::TransactCall => EvmEvent::TransactCall {
            caller: address(1),
            address: address(100),
            value: U256::zero(),
            data: Vec::new(),
            gas_limit: 21000u64,
        },
        TestEvmEvent::TransactCreate => EvmEvent::TransactCreate {
            caller: address(1),
            value: U256::zero(),
            init_code: Vec::new(),
            gas_limit: 21000u64,
            address: address(200),
        },
        TestEvmEvent::TransactCreate2 => EvmEvent::TransactCreate2 {
            caller: address(1),
            value: U256::zero(),
            init_code: Vec::new(),
            salt: H256::zero(),
            gas_limit: 21000u64,
            address: address(200),
        },
        TestEvmEvent::Log => EvmEvent::Log {
            address: address(100),
            topics: vec![H256::from_low_u64_be(1)],
            data: vec![1, 2, 3],
        },
        TestEvmEvent::PrecompileSubcall => EvmEvent::PrecompileSubcall {
            code_address: address(10), // Precompile address
            transfer: None,
            input: Vec::new(),
            target_gas: Some(5000),
            is_static: false,
            context: test_context(),
        },
    }
}

fn test_emit_evm_event_with_caller(
    event_type: TestEvmEvent,
    caller: H160,
    code_address: H160,
) -> EvmEvent {
    match event_type {
        TestEvmEvent::Call => EvmEvent::Call {
            code_address,
            transfer: None,
            input: Vec::new(),
            target_gas: Some(10000),
            is_static: false,
            context: test_context_with_caller(caller),
        },
        TestEvmEvent::PrecompileSubcall => EvmEvent::PrecompileSubcall {
            code_address,
            transfer: None,
            input: Vec::new(),
            target_gas: Some(5000),
            is_static: false,
            context: test_context_with_caller(caller),
        },
        _ => test_emit_evm_event(event_type, false, None),
    }
}

fn test_emit_runtime_event(event_type: TestRuntimeEvent) -> RuntimeEvent {
    match event_type {
        TestRuntimeEvent::Step => RuntimeEvent::Step {
            context: test_context(),
            opcode: Vec::new(),
            position: Ok(0u64),
            stack: test_stack(),
            memory: test_memory(),
        },
        TestRuntimeEvent::StepResult => RuntimeEvent::StepResult {
            result: Ok(()),
            return_value: Vec::new(),
        },
        TestRuntimeEvent::StepResultExit => RuntimeEvent::StepResult {
            result: Err(Capture::Exit(ExitReason::Succeed(ExitSucceed::Returned))),
            return_value: Vec::new(),
        },
        TestRuntimeEvent::SStore => RuntimeEvent::SStore {
            address: address(100),
            index: H256::from_low_u64_be(1),
            value: H256::from_low_u64_be(42),
        },
    }
}

fn test_emit_runtime_event_with_opcode(opcode: u8) -> RuntimeEvent {
    RuntimeEvent::StepResult {
        result: Err(Capture::Trap(vec![opcode])),
        return_value: Vec::new(),
    }
}

fn test_emit_gasometer_event(event_type: TestGasometerEvent) -> GasometerEvent {
    match event_type {
        TestGasometerEvent::RecordCost => GasometerEvent::RecordCost {
            cost: 100u64,
            snapshot: test_snapshot(),
        },
        TestGasometerEvent::RecordTransaction => GasometerEvent::RecordTransaction {
            cost: 21000u64,
            snapshot: test_snapshot(),
        },
    }
}

// Helper functions to emit events to listener
fn do_transact_call_event(listener: &mut Listener) {
    listener.evm_event(test_emit_evm_event(TestEvmEvent::TransactCall, false, None));
}

fn do_transact_create_event(listener: &mut Listener) {
    listener.evm_event(test_emit_evm_event(
        TestEvmEvent::TransactCreate,
        false,
        None,
    ));
}

fn do_gasometer_event(listener: &mut Listener) {
    listener.gasometer_event(test_emit_gasometer_event(
        TestGasometerEvent::RecordTransaction,
    ));
}

fn do_gasometer_cost_event(listener: &mut Listener) {
    listener.gasometer_event(test_emit_gasometer_event(TestGasometerEvent::RecordCost));
}

fn do_exit_event(listener: &mut Listener) {
    listener.evm_event(test_emit_evm_event(
        TestEvmEvent::Exit,
        false,
        Some(ExitReason::Succeed(ExitSucceed::Returned)),
    ));
}

fn do_exit_error_event(listener: &mut Listener) {
    listener.evm_event(test_emit_evm_event(
        TestEvmEvent::Exit,
        false,
        Some(ExitReason::Error(ExitError::OutOfGas)),
    ));
}

fn do_exit_revert_event(listener: &mut Listener) {
    listener.evm_event(test_emit_evm_event(
        TestEvmEvent::Exit,
        false,
        Some(ExitReason::Revert(ExitRevert::Reverted)),
    ));
}

fn do_evm_call_event(listener: &mut Listener) {
    listener.evm_event(test_emit_evm_event(TestEvmEvent::Call, false, None));
}

fn do_evm_static_call_event(listener: &mut Listener) {
    listener.evm_event(test_emit_evm_event(TestEvmEvent::Call, true, None));
}

fn do_evm_create_event(listener: &mut Listener) {
    listener.evm_event(test_emit_evm_event(TestEvmEvent::Create, false, None));
}

fn do_evm_suicide_event(listener: &mut Listener) {
    listener.evm_event(test_emit_evm_event(TestEvmEvent::Suicide, false, None));
}

fn do_evm_log_event(listener: &mut Listener) {
    listener.evm_event(test_emit_evm_event(TestEvmEvent::Log, false, None));
}

fn do_precompile_subcall_event(listener: &mut Listener) {
    listener.evm_event(test_emit_evm_event(
        TestEvmEvent::PrecompileSubcall,
        false,
        None,
    ));
}

fn do_precompile_subcall_event_with_caller(
    listener: &mut Listener,
    caller: H160,
    code_address: H160,
) {
    listener.evm_event(test_emit_evm_event_with_caller(
        TestEvmEvent::PrecompileSubcall,
        caller,
        code_address,
    ));
}

fn do_evm_call_event_with_caller(listener: &mut Listener, caller: H160, code_address: H160) {
    listener.evm_event(test_emit_evm_event_with_caller(
        TestEvmEvent::Call,
        caller,
        code_address,
    ));
}

fn do_runtime_step_event(listener: &mut Listener) {
    listener.runtime_event(test_emit_runtime_event(TestRuntimeEvent::Step));
}

fn do_runtime_step_result_event(listener: &mut Listener) {
    listener.runtime_event(test_emit_runtime_event(TestRuntimeEvent::StepResult));
}

fn do_runtime_step_result_exit_event(listener: &mut Listener) {
    listener.runtime_event(test_emit_runtime_event(TestRuntimeEvent::StepResultExit));
}

fn do_runtime_sstore_event(listener: &mut Listener) {
    listener.runtime_event(test_emit_runtime_event(TestRuntimeEvent::SStore));
}

fn do_runtime_delegatecall_opcode_event(listener: &mut Listener) {
    listener.runtime_event(test_emit_runtime_event_with_opcode(0xF4)); // DELEGATECALL
}

#[test]
fn basic_transact_call() {
    let mut listener = Listener::default();
    do_transact_call_event(&mut listener);
    do_gasometer_event(&mut listener);
    do_exit_event(&mut listener);
    listener.finish_transaction();

    assert_eq!(listener.completed_frames.len(), 1);
    assert_eq!(listener.completed_frames[0].call_type, DebankCallType::Call);
    assert!(!listener.completed_frames[0].failed);
}

#[test]
fn basic_transact_call_with_error() {
    let mut listener = Listener::default();
    do_transact_call_event(&mut listener);
    do_gasometer_event(&mut listener);
    do_exit_error_event(&mut listener);
    listener.finish_transaction();

    assert_eq!(listener.completed_frames.len(), 1);
    assert!(listener.completed_frames[0].failed);
    assert_eq!(listener.completed_frames[0].error, "out of gas");
}

#[test]
fn basic_transact_call_with_revert() {
    let mut listener = Listener::default();
    do_transact_call_event(&mut listener);
    do_gasometer_event(&mut listener);
    do_exit_revert_event(&mut listener);
    listener.finish_transaction();

    assert_eq!(listener.completed_frames.len(), 1);
    assert!(listener.completed_frames[0].failed);
    assert_eq!(listener.completed_frames[0].error, "execution reverted");
}

#[test]
fn basic_transact_create() {
    let mut listener = Listener::default();
    do_transact_create_event(&mut listener);
    do_gasometer_event(&mut listener);
    do_exit_event(&mut listener);
    listener.finish_transaction();

    assert_eq!(listener.completed_frames.len(), 1);
    assert_eq!(
        listener.completed_frames[0].call_type,
        DebankCallType::Create
    );
    assert!(!listener.completed_frames[0].failed);
    assert!(listener.created_accounts.contains(&address(200)));
}

#[test]
fn basic_transact_create_with_error() {
    let mut listener = Listener::default();
    do_transact_create_event(&mut listener);
    do_gasometer_event(&mut listener);
    do_exit_error_event(&mut listener);
    listener.finish_transaction();

    assert_eq!(listener.completed_frames.len(), 1);
    assert!(listener.completed_frames[0].failed);
    // Created account should be removed on failure
    assert!(!listener.created_accounts.contains(&address(200)));
}

#[test]
fn nested_call() {
    let mut listener = Listener::default();
    // Main call
    do_transact_call_event(&mut listener);
    do_gasometer_event(&mut listener);
    do_evm_call_event(&mut listener);
    do_runtime_step_event(&mut listener);
    do_runtime_step_result_event(&mut listener);
    // Nested call
    do_evm_call_event(&mut listener);
    do_exit_event(&mut listener);
    // Main exit
    do_exit_event(&mut listener);
    listener.finish_transaction();

    assert_eq!(listener.completed_frames.len(), 1);
    assert_eq!(listener.completed_frames[0].calls.len(), 1);
    assert_eq!(
        listener.completed_frames[0].calls[0].trace_address,
        vec![0]
    );
}

#[test]
fn deeply_nested_calls() {
    let depth = 5;
    let mut listener = Listener::default();

    // Main call
    do_transact_call_event(&mut listener);
    do_gasometer_event(&mut listener);
    do_evm_call_event(&mut listener);
    do_runtime_step_event(&mut listener);
    do_runtime_step_result_event(&mut listener);

    // Nested calls
    for _ in 0..depth {
        do_evm_call_event(&mut listener);
        do_runtime_step_event(&mut listener);
        do_runtime_step_result_event(&mut listener);
    }

    // Exit all
    for _ in 0..=depth {
        do_exit_event(&mut listener);
    }

    listener.finish_transaction();

    assert_eq!(listener.completed_frames.len(), 1);

    // Check nested structure
    let mut current = &listener.completed_frames[0];
    for i in 0..depth {
        assert_eq!(current.calls.len(), 1);
        current = &current.calls[0];
        // Each nested call should have incrementing trace address
        assert_eq!(current.trace_address.len(), i + 1);
    }
}

#[test]
fn sibling_calls() {
    let mut listener = Listener::default();

    // Main call
    do_transact_call_event(&mut listener);
    do_gasometer_event(&mut listener);
    do_evm_call_event(&mut listener);
    do_runtime_step_event(&mut listener);
    do_runtime_step_result_event(&mut listener);

    // First sibling call
    do_evm_call_event(&mut listener);
    do_exit_event(&mut listener);

    // Second sibling call
    do_evm_call_event(&mut listener);
    do_exit_event(&mut listener);

    // Third sibling call
    do_evm_call_event(&mut listener);
    do_exit_event(&mut listener);

    // Main exit
    do_exit_event(&mut listener);

    listener.finish_transaction();

    assert_eq!(listener.completed_frames.len(), 1);
    assert_eq!(listener.completed_frames[0].calls.len(), 3);
    assert_eq!(
        listener.completed_frames[0].calls[0].trace_address,
        vec![0]
    );
    assert_eq!(
        listener.completed_frames[0].calls[1].trace_address,
        vec![1]
    );
    assert_eq!(
        listener.completed_frames[0].calls[2].trace_address,
        vec![2]
    );
}

#[test]
fn static_call() {
    let mut listener = Listener::default();
    do_transact_call_event(&mut listener);
    do_gasometer_event(&mut listener);
    do_evm_call_event(&mut listener);
    do_runtime_step_event(&mut listener);
    do_runtime_step_result_event(&mut listener);

    // Static call
    do_evm_static_call_event(&mut listener);
    do_exit_event(&mut listener);

    // Main exit
    do_exit_event(&mut listener);
    listener.finish_transaction();

    assert_eq!(listener.completed_frames.len(), 1);
    assert_eq!(listener.completed_frames[0].calls.len(), 1);
    assert_eq!(
        listener.completed_frames[0].calls[0].call_type,
        DebankCallType::StaticCall
    );
}

#[test]
fn delegate_call_with_opcode() {
    let mut listener = Listener::default();
    do_transact_call_event(&mut listener);
    do_gasometer_event(&mut listener);
    do_evm_call_event(&mut listener);
    do_runtime_step_event(&mut listener);

    // Set DELEGATECALL opcode
    do_runtime_delegatecall_opcode_event(&mut listener);

    // Nested call (will use DELEGATECALL type)
    do_evm_call_event(&mut listener);
    do_exit_event(&mut listener);

    // Main exit
    do_exit_event(&mut listener);
    listener.finish_transaction();

    assert_eq!(listener.completed_frames.len(), 1);
    assert_eq!(listener.completed_frames[0].calls.len(), 1);
    assert_eq!(
        listener.completed_frames[0].calls[0].call_type,
        DebankCallType::DelegateCall
    );
}

#[test]
fn call_with_suicide() {
    let mut listener = Listener::default();
    do_transact_call_event(&mut listener);
    do_gasometer_event(&mut listener);
    do_evm_call_event(&mut listener);
    do_runtime_step_event(&mut listener);
    do_runtime_step_result_event(&mut listener);

    do_evm_suicide_event(&mut listener);

    do_exit_event(&mut listener);
    listener.finish_transaction();

    assert_eq!(listener.completed_frames.len(), 1);
    assert_eq!(listener.completed_frames[0].calls.len(), 1);
    assert_eq!(
        listener.completed_frames[0].calls[0].call_type,
        DebankCallType::Suicide
    );
    assert!(listener
        .deleted_accounts
        .contains(&address(100)));
}

#[test]
fn call_with_log() {
    let mut listener = Listener::default();
    do_transact_call_event(&mut listener);
    do_gasometer_event(&mut listener);
    do_evm_call_event(&mut listener);
    do_runtime_step_event(&mut listener);
    do_runtime_step_result_event(&mut listener);

    do_evm_log_event(&mut listener);

    do_exit_event(&mut listener);
    listener.finish_transaction();

    assert_eq!(listener.completed_frames.len(), 1);
    assert_eq!(listener.completed_frames[0].logs.len(), 1);
    assert_eq!(listener.completed_frames[0].logs[0].log_index, 0);
}

#[test]
fn call_with_multiple_logs() {
    let mut listener = Listener::default();
    do_transact_call_event(&mut listener);
    do_gasometer_event(&mut listener);
    do_evm_call_event(&mut listener);

    do_evm_log_event(&mut listener);
    do_evm_log_event(&mut listener);
    do_evm_log_event(&mut listener);

    do_exit_event(&mut listener);
    listener.finish_transaction();

    assert_eq!(listener.completed_frames.len(), 1);
    assert_eq!(listener.completed_frames[0].logs.len(), 3);
    // Log indices should be sequential
    assert_eq!(listener.completed_frames[0].logs[0].log_index, 0);
    assert_eq!(listener.completed_frames[0].logs[1].log_index, 1);
    assert_eq!(listener.completed_frames[0].logs[2].log_index, 2);
}

#[test]
fn call_with_sstore() {
    let mut listener = Listener::default();
    do_transact_call_event(&mut listener);
    do_gasometer_event(&mut listener);
    do_evm_call_event(&mut listener);
    do_runtime_step_event(&mut listener);
    do_runtime_step_result_event(&mut listener);

    do_runtime_sstore_event(&mut listener);

    do_exit_event(&mut listener);
    listener.finish_transaction();

    assert_eq!(listener.completed_frames.len(), 1);
    assert!(listener.completed_frames[0].self_storage_change);
    assert!(listener.completed_frames[0].storage_change);
    assert!(listener
        .storage_changes
        .contains_key(&address(100)));
}

#[test]
fn storage_change_propagates_to_parent() {
    let mut listener = Listener::default();

    // Main call
    do_transact_call_event(&mut listener);
    do_gasometer_event(&mut listener);
    do_evm_call_event(&mut listener);
    do_runtime_step_event(&mut listener);
    do_runtime_step_result_event(&mut listener);

    // Nested call with sstore
    do_evm_call_event(&mut listener);
    do_runtime_sstore_event(&mut listener);
    do_exit_event(&mut listener);

    // Main exit
    do_exit_event(&mut listener);
    listener.finish_transaction();

    assert_eq!(listener.completed_frames.len(), 1);
    // Parent should have storage_change but not self_storage_change
    assert!(!listener.completed_frames[0].self_storage_change);
    assert!(listener.completed_frames[0].storage_change);
    // Child should have both
    assert!(listener.completed_frames[0].calls[0].self_storage_change);
    assert!(listener.completed_frames[0].calls[0].storage_change);
}

#[test]
fn precompile_capture_exit_no_subcall() {
    // Precompile that returns via Capture::Exit (no Exit event)
    let mut listener = Listener::default();

    // Main call
    do_transact_call_event(&mut listener);
    do_gasometer_event(&mut listener);
    do_evm_call_event(&mut listener);
    do_runtime_step_event(&mut listener);
    do_runtime_step_result_event(&mut listener);

    // Precompile subcall (no Exit event will follow for precompile itself)
    do_precompile_subcall_event(&mut listener);
    // Precompile returns via Capture::Exit, continuing parent execution
    // Next event could be LOG or SSTORE from parent
    do_evm_log_event(&mut listener);

    // Main exit
    do_exit_event(&mut listener);
    listener.finish_transaction();

    assert_eq!(listener.completed_frames.len(), 1);
    // Precompile should be flushed as a child call
    assert_eq!(listener.completed_frames[0].calls.len(), 1);
    assert!(listener.completed_frames[0].calls[0].is_precompile);
    // Log should be on the main call
    assert_eq!(listener.completed_frames[0].logs.len(), 1);
}

#[test]
fn precompile_capture_trap_with_subcall() {
    // Precompile that makes a subcall via Capture::Trap (has Exit event)
    let mut listener = Listener::default();
    let precompile_addr = address(10);

    // Main call
    do_transact_call_event(&mut listener);
    do_gasometer_event(&mut listener);
    do_evm_call_event(&mut listener);
    do_runtime_step_event(&mut listener);
    do_runtime_step_result_event(&mut listener);

    // Precompile subcall
    do_precompile_subcall_event_with_caller(
        &mut listener,
        address(100), // from main call
        precompile_addr,
    );

    // Precompile makes a subcall (Capture::Trap path)
    do_evm_call_event_with_caller(&mut listener, precompile_addr, address(500));
    // Subcall exits
    do_exit_event(&mut listener);
    // Precompile exits (it gets Exit event because Capture::Trap)
    do_exit_event(&mut listener);

    // Main exit
    do_exit_event(&mut listener);
    listener.finish_transaction();

    assert_eq!(listener.completed_frames.len(), 1);
    // Main call should have precompile as child
    assert_eq!(listener.completed_frames[0].calls.len(), 1);
    // Precompile should have its subcall as child
    assert_eq!(listener.completed_frames[0].calls[0].calls.len(), 1);
}

#[test]
fn precompile_exit_belongs_to_parent_not_precompile() {
    // Test that Exit event after precompile without subcall goes to parent
    let mut listener = Listener::default();

    // Main call
    do_transact_call_event(&mut listener);
    do_gasometer_event(&mut listener);
    do_evm_call_event(&mut listener);
    do_runtime_step_event(&mut listener);
    do_runtime_step_result_event(&mut listener);

    // Nested call
    do_evm_call_event(&mut listener);

    // Precompile subcall (Capture::Exit, no Exit event for precompile)
    do_precompile_subcall_event(&mut listener);

    // This Exit should close the nested call, not the precompile
    do_exit_event(&mut listener);

    // Main exit
    do_exit_event(&mut listener);
    listener.finish_transaction();

    assert_eq!(listener.completed_frames.len(), 1);
    // Main should have one child (the nested call)
    assert_eq!(listener.completed_frames[0].calls.len(), 1);
    // Nested call should have precompile as child
    assert_eq!(listener.completed_frames[0].calls[0].calls.len(), 1);
    assert!(listener.completed_frames[0].calls[0].calls[0].is_precompile);
}

#[test]
fn mixed_call_and_create() {
    let mut listener = Listener::default();

    // Main call
    do_transact_call_event(&mut listener);
    do_gasometer_event(&mut listener);
    do_evm_call_event(&mut listener);
    do_runtime_step_event(&mut listener);
    do_runtime_step_result_event(&mut listener);

    // Nested call
    do_evm_call_event(&mut listener);
    do_exit_event(&mut listener);

    // Nested create
    do_evm_create_event(&mut listener);
    do_exit_event(&mut listener);

    // Main exit
    do_exit_event(&mut listener);
    listener.finish_transaction();

    assert_eq!(listener.completed_frames.len(), 1);
    assert_eq!(listener.completed_frames[0].calls.len(), 2);
    assert_eq!(
        listener.completed_frames[0].calls[0].call_type,
        DebankCallType::Call
    );
    assert_eq!(
        listener.completed_frames[0].calls[1].call_type,
        DebankCallType::Create
    );
}

#[test]
fn parent_failed_propagates() {
    let mut listener = Listener::default();

    // Main call
    do_transact_call_event(&mut listener);
    do_gasometer_event(&mut listener);
    do_evm_call_event(&mut listener);
    do_runtime_step_event(&mut listener);
    do_runtime_step_result_event(&mut listener);

    // Nested call (succeeds)
    do_evm_call_event(&mut listener);
    do_exit_event(&mut listener);

    // Main exits with error
    do_exit_error_event(&mut listener);
    listener.finish_transaction();

    assert_eq!(listener.completed_frames.len(), 1);
    assert!(listener.completed_frames[0].failed);
    // Child should have parent_failed set
    assert!(listener.completed_frames[0].calls[0].parent_failed);
}

#[test]
fn multiple_transactions() {
    let mut listener = Listener::default();

    // First transaction
    do_transact_call_event(&mut listener);
    do_gasometer_event(&mut listener);
    do_exit_event(&mut listener);
    listener.finish_transaction();

    // Second transaction
    do_transact_create_event(&mut listener);
    do_gasometer_event(&mut listener);
    do_exit_event(&mut listener);
    listener.finish_transaction();

    assert_eq!(listener.completed_frames.len(), 2);
    assert_eq!(listener.completed_frames[0].call_type, DebankCallType::Call);
    assert_eq!(
        listener.completed_frames[1].call_type,
        DebankCallType::Create
    );
}

#[test]
fn pos_in_parent_trace_with_mixed_calls_and_logs() {
    let mut listener = Listener::default();

    // Main call
    do_transact_call_event(&mut listener);
    do_gasometer_event(&mut listener);
    do_evm_call_event(&mut listener);
    do_runtime_step_event(&mut listener);
    do_runtime_step_result_event(&mut listener);

    // Log at position 0
    do_evm_log_event(&mut listener);

    // Call at position 1
    do_evm_call_event(&mut listener);
    do_exit_event(&mut listener);

    // Log at position 2
    do_evm_log_event(&mut listener);

    // Call at position 3
    do_evm_call_event(&mut listener);
    do_exit_event(&mut listener);

    // Main exit
    do_exit_event(&mut listener);
    listener.finish_transaction();

    assert_eq!(listener.completed_frames.len(), 1);
    assert_eq!(listener.completed_frames[0].logs.len(), 2);
    assert_eq!(listener.completed_frames[0].calls.len(), 2);

    // Check positions
    assert_eq!(listener.completed_frames[0].logs[0].position, 0);
    assert_eq!(listener.completed_frames[0].calls[0].pos_in_parent_trace, 1);
    assert_eq!(listener.completed_frames[0].logs[1].position, 2);
    assert_eq!(listener.completed_frames[0].calls[1].pos_in_parent_trace, 3);
}

#[test]
fn call_list_new_event_starts_new_transaction() {
    let mut listener = Listener::default();

    // First transaction via CallListNew
    listener.event(Event::CallListNew());
    do_transact_call_event(&mut listener);
    do_gasometer_event(&mut listener);
    do_exit_event(&mut listener);

    // Second transaction via CallListNew
    listener.event(Event::CallListNew());
    do_transact_create_event(&mut listener);
    do_gasometer_event(&mut listener);
    do_exit_event(&mut listener);

    // Finish last transaction
    listener.finish_transaction();

    assert_eq!(listener.completed_frames.len(), 2);
}

#[test]
fn runtime_capture_exit_closes_frame() {
    let mut listener = Listener::default();

    // Main call
    do_transact_call_event(&mut listener);
    do_gasometer_event(&mut listener);
    do_evm_call_event(&mut listener);
    do_runtime_step_event(&mut listener);
    do_runtime_step_result_event(&mut listener);

    // Nested call
    do_evm_call_event(&mut listener);
    // Exit via RuntimeEvent::StepResult with Capture::Exit
    do_runtime_step_result_exit_event(&mut listener);

    // Main exit
    do_exit_event(&mut listener);
    listener.finish_transaction();

    assert_eq!(listener.completed_frames.len(), 1);
    assert_eq!(listener.completed_frames[0].calls.len(), 1);
}

#[test]
fn no_double_pop_when_step_result_and_evm_exit_both_fire() {
    // In EarlyTransact mode, StepResult(Capture::Exit) + EvmEvent::Exit both
    // fire for the same subcall. Without the flag, this would double-pop.
    let mut listener = Listener::default();

    // Main call
    do_transact_call_event(&mut listener);
    do_gasometer_event(&mut listener);
    do_evm_call_event(&mut listener);
    do_runtime_step_event(&mut listener);
    do_runtime_step_result_event(&mut listener);

    // Nested call
    do_evm_call_event(&mut listener);
    do_runtime_step_event(&mut listener);

    // Both StepResult(Exit) and EvmEvent::Exit fire for the nested call
    do_runtime_step_result_exit_event(&mut listener);
    do_exit_event(&mut listener);

    // Main exit
    do_exit_event(&mut listener);
    listener.finish_transaction();

    assert_eq!(listener.completed_frames.len(), 1);
    assert_eq!(listener.completed_frames[0].calls.len(), 1);
    assert!(!listener.completed_frames[0].failed);
}

#[test]
fn no_double_pop_deeply_nested() {
    // Deeper nesting: without fix, double-pop would pop the parent too.
    let mut listener = Listener::default();

    // Main call
    do_transact_call_event(&mut listener);
    do_gasometer_event(&mut listener);
    do_evm_call_event(&mut listener);
    do_runtime_step_event(&mut listener);
    do_runtime_step_result_event(&mut listener);

    // Level 1 call
    do_evm_call_event(&mut listener);
    do_runtime_step_event(&mut listener);
    do_runtime_step_result_event(&mut listener);

    // Level 2 call
    do_evm_call_event(&mut listener);
    do_runtime_step_event(&mut listener);

    // Both events fire for level 2
    do_runtime_step_result_exit_event(&mut listener);
    do_exit_event(&mut listener);

    // Both events fire for level 1
    do_runtime_step_result_exit_event(&mut listener);
    do_exit_event(&mut listener);

    // Main exit
    do_exit_event(&mut listener);
    listener.finish_transaction();

    assert_eq!(listener.completed_frames.len(), 1);
    // Level 1 should be child of root
    assert_eq!(listener.completed_frames[0].calls.len(), 1);
    // Level 2 should be child of level 1
    assert_eq!(listener.completed_frames[0].calls[0].calls.len(), 1);
}

#[test]
fn legacy_basic_call() {
    // Legacy mode: no TransactX, no EvmEvent::Exit.
    // Root frame created from EvmEvent::Call, exit from StepResult(Capture::Exit).
    let mut listener = Listener::default();
    do_gasometer_event(&mut listener);
    do_evm_call_event(&mut listener);
    do_runtime_step_event(&mut listener);
    do_runtime_step_result_exit_event(&mut listener);
    listener.finish_transaction();

    assert_eq!(listener.completed_frames.len(), 1);
    assert_eq!(listener.completed_frames[0].call_type, DebankCallType::Call);
}

#[test]
fn legacy_nested_call() {
    let mut listener = Listener::default();
    do_gasometer_event(&mut listener);

    // Root call
    do_evm_call_event(&mut listener);
    do_runtime_step_event(&mut listener);
    do_runtime_step_result_event(&mut listener);

    // Nested call
    do_evm_call_event(&mut listener);
    do_runtime_step_event(&mut listener);
    do_runtime_step_result_exit_event(&mut listener);

    // Root exit
    do_runtime_step_result_exit_event(&mut listener);
    listener.finish_transaction();

    assert_eq!(listener.completed_frames.len(), 1);
    assert_eq!(listener.completed_frames[0].calls.len(), 1);
}

#[test]
fn legacy_early_exit_no_runtime() {
    // Legacy mode: call exits before any runtime stepping (e.g. precompile).
    // finish_transaction should handle the leftover frame.
    let mut listener = Listener::default();
    do_gasometer_event(&mut listener);
    do_evm_call_event(&mut listener);
    // No StepResult exit, frame is leftover
    listener.finish_transaction();

    assert_eq!(listener.completed_frames.len(), 1);
    assert!(listener.completed_frames[0].failed);
    assert!(listener.completed_frames[0]
        .error
        .contains("early exit"));
}

#[test]
fn legacy_record_transaction_only() {
    // Transaction cannot pay for data cost: only RecordTransaction fires, no frames.
    let mut listener = Listener::default();
    do_gasometer_event(&mut listener);
    listener.finish_transaction();

    assert_eq!(listener.completed_frames.len(), 1);
    assert!(listener.completed_frames[0].failed);
    assert!(listener.completed_frames[0]
        .error
        .contains("data cost"));
}

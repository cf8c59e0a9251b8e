//! Collects call traces, logs and touched state from the reports of the virtual machine.
use crate::events::{
    Capture, Context, Event, EvmEvent, ExitReason, GasometerEvent, RuntimeEvent, StepEventFilter,
};
use crate::frame::{
    call_type_from_opcode, fresh_frame, frames_view, opcode_call_type, path_view,
    set_parent_failed, set_storage_change, storage_writers, with_gas_settled, with_outcome,
    with_parent_failed, with_storage_change, CallFrame, DebankCallType, EventLog, FrameModel,
    LogModel,
};
use crate::ordered::{SortedMap, SortedSet};
use crate::primitives::{H160, H256, U256};
use vstd::prelude::*;

verus! {

/// What the runtime reports.
#[derive(Clone, Copy, Debug, PartialEq, Eq, Structural)]
pub enum TracingVersion {
    /// Older runtimes: the end of a frame comes from the interpreter only.
    Legacy,
    /// Runtimes that report the start of a transaction and the end of every frame; the
    /// interpreter may report the end too.
    EarlyTransact,
}

/// Collects what is reported of the transactions of a block.
pub struct Listener {
    /// The frames that are open, the innermost last.
    pub callstack: Vec<CallFrame>,
    pub transaction_cost: u64,
    /// The root frame of each finished transaction.
    pub completed_frames: Vec<CallFrame>,
    pub created_accounts: SortedSet<H160>,
    pub deleted_accounts: SortedSet<H160>,
    /// The accounts whose balance or nonce may have changed.
    pub touched_accounts: SortedSet<H160>,
    /// The last value written to each slot of each account.
    pub storage_changes: SortedMap<H160, SortedMap<H256, H256>>,
    pub storage_contracts: SortedSet<H160>,
    /// The type that the last call opcode announced.
    pub call_type: Option<DebankCallType>,
    /// The next frame was already opened by the start of the transaction.
    pub skip_next_context: bool,
    pub first_transaction: bool,
    pub global_log_index: usize,
    pub version: TracingVersion,
    /// How many frame ends the interpreter reported that the machine has yet to repeat.
    pub step_result_exit_count: usize,
    /// Nothing but the cost of the transaction was reported so far.
    pub record_transaction_event_only: bool,
}

/// The listener as a mathematical value.
#[verifier::ext_equal]
pub struct ListenerModel {
    pub callstack: Seq<FrameModel>,
    pub transaction_cost: u64,
    pub completed_frames: Seq<FrameModel>,
    pub created_accounts: Set<H160>,
    pub deleted_accounts: Set<H160>,
    pub touched_accounts: Set<H160>,
    pub storage_changes: Map<H160, Map<H256, H256>>,
    pub storage_contracts: Set<H160>,
    pub call_type: Option<DebankCallType>,
    pub skip_next_context: bool,
    pub first_transaction: bool,
    pub global_log_index: nat,
    pub version: TracingVersion,
    pub step_result_exit_count: nat,
    pub record_transaction_event_only: bool,
}

/// What is stored in the slots of each account.
pub open spec fn storage_view(m: Map<H160, SortedMap<H256, H256>>) -> Map<H160, Map<H256, H256>> {
    m.map_values(|slots: SortedMap<H256, H256>| slots@)
}

impl View for Listener {
    type V = ListenerModel;

    open spec fn view(&self) -> ListenerModel {
        ListenerModel {
            callstack: frames_view(self.callstack@),
            transaction_cost: self.transaction_cost,
            completed_frames: frames_view(self.completed_frames@),
            created_accounts: self.created_accounts@,
            deleted_accounts: self.deleted_accounts@,
            touched_accounts: self.touched_accounts@,
            storage_changes: storage_view(self.storage_changes@),
            storage_contracts: self.storage_contracts@,
            call_type: self.call_type,
            skip_next_context: self.skip_next_context,
            first_transaction: self.first_transaction,
            global_log_index: self.global_log_index as nat,
            version: self.version,
            step_result_exit_count: self.step_result_exit_count as nat,
            record_transaction_event_only: self.record_transaction_event_only,
        }
    }
}

/// `parent` with `child` as its next call, placed behind the calls and logs it has.
pub open spec fn with_call(parent: FrameModel, child: FrameModel) -> FrameModel {
    FrameModel {
        calls: parent.calls.push(
            FrameModel { pos_in_parent_trace: parent.calls.len() + parent.logs.len(), ..child },
        ),
        ..parent
    }
}

/// The stack once its innermost frame has become a call of the frame around it.
pub open spec fn nested(stack: Seq<FrameModel>) -> Seq<FrameModel> {
    let n = stack.len();
    stack.drop_last().update(n - 2, with_call(stack[n - 2], stack[n - 1]))
}

/// The innermost frame is a precompile, and not the one at the address `keep`.
pub open spec fn is_stale_precompile(stack: Seq<FrameModel>, keep: Option<H160>) -> bool {
    stack.len() > 1 && stack.last().is_precompile && !(keep == Some(stack.last().to))
}

/// The stack without the precompiles at its top that returned without a report: those down to the
/// first frame that is no precompile or is the one at the address `keep`.
pub open spec fn flushed(stack: Seq<FrameModel>, keep: Option<H160>) -> Seq<FrameModel>
    decreases stack.len(),
{
    if is_stale_precompile(stack, keep) {
        flushed(nested(stack), keep)
    } else {
        stack
    }
}

/// The innermost frame is a precompile that never called back.
pub open spec fn is_idle_precompile(stack: Seq<FrameModel>) -> bool {
    stack.len() > 1 && stack.last().is_precompile && !stack.last().had_subcall
}

/// The stack without the precompiles at its top that never called back.
pub open spec fn idle_flushed(stack: Seq<FrameModel>) -> Seq<FrameModel>
    decreases stack.len(),
{
    if is_idle_precompile(stack) {
        idle_flushed(nested(stack))
    } else {
        stack
    }
}

/// The stack with `f` as its innermost frame in place of the one it has.
pub open spec fn with_top(stack: Seq<FrameModel>, f: FrameModel) -> Seq<FrameModel> {
    stack.update(stack.len() - 1, f)
}

/// The stack once a call from `caller` is seen: a precompile at that address is the one calling.
pub open spec fn subcall_marked(stack: Seq<FrameModel>, caller: H160) -> Seq<FrameModel> {
    if stack.len() > 0 && stack.last().is_precompile && stack.last().to == caller {
        with_top(stack, FrameModel { had_subcall: true, ..stack.last() })
    } else {
        stack
    }
}

/// The path of the next call of the innermost frame.
pub open spec fn next_path(stack: Seq<FrameModel>) -> Seq<nat> {
    if stack.len() > 0 {
        stack.last().trace_address.push(stack.last().calls.len())
    } else {
        seq![]
    }
}

/// The frame once it ended with `reason` and `output`.
pub open spec fn ended(f: FrameModel, output: Seq<u8>, reason: ExitReason) -> FrameModel {
    with_gas_settled(with_outcome(f, output, reason))
}

/// The frame has room for `n` more calls and logs.
pub open spec fn frame_room(f: FrameModel, n: int) -> bool {
    f.calls.len() + f.logs.len() + n <= usize::MAX
}

/// The innermost frame has room for `n` more calls and logs, and each one around it for one more.
pub open spec fn spare(stack: Seq<FrameModel>, n: int) -> bool {
    &&& forall|i: int| 0 <= i < stack.len() - 1 ==> frame_room(#[trigger] stack[i], n + 1)
    &&& stack.len() > 0 ==> frame_room(stack.last(), n)
}

impl ListenerModel {
    /// No count passes the largest machine number when it grows by `n`.
    pub open spec fn room(self, n: nat) -> bool {
        &&& forall|i: int| 0 <= i < self.callstack.len() ==> frame_room(#[trigger] self.callstack[i], n as int)
        &&& self.global_log_index + n <= usize::MAX
        &&& self.step_result_exit_count + n <= usize::MAX
    }

    /// The event can be taken in: a gas reading for an open frame is consistent.
    pub open spec fn accepts(self, event: Event) -> bool {
        self.callstack.len() > 0 ==> event.consistent()
    }

    /// The listener once the innermost frame ended.
    pub open spec fn after_exit(self, reason: ExitReason, output: Seq<u8>) -> ListenerModel {
        if self.callstack.len() == 0 {
            self
        } else {
            let top = self.callstack.last();
            let done = ended(top, output, reason);
            ListenerModel {
                callstack: if self.callstack.len() == 1 {
                    seq![done]
                } else {
                    nested(with_top(self.callstack, done))
                },
                created_accounts: if done.failed && top.call_type == DebankCallType::Create {
                    self.created_accounts.remove(top.to)
                } else {
                    self.created_accounts
                },
                ..self
            }
        }
    }

    /// The listener after a report of the gas meter.
    pub open spec fn after_gasometer(self, event: GasometerEvent) -> ListenerModel {
        if event.is_gas_reading() {
            if self.callstack.len() > 0 {
                ListenerModel {
                    callstack: with_top(
                        self.callstack,
                        with_gas_reading(self.callstack.last(), event.snapshot().gas_left()),
                    ),
                    ..self
                }
            } else {
                self
            }
        } else {
            match event {
                GasometerEvent::RecordTransaction { cost, .. } => ListenerModel {
                    transaction_cost: cost,
                    record_transaction_event_only: true,
                    ..self
                },
                _ => self,
            }
        }
    }

    /// The listener after the interpreter trapped on `opcode`.
    pub open spec fn after_trap(self, opcode: Seq<u8>) -> ListenerModel {
        match opcode_call_type(opcode) {
            Some(t) => ListenerModel { call_type: Some(t), ..self },
            None => self,
        }
    }

    /// The listener after the interpreter reported the end of a frame.
    pub open spec fn after_step_exit(self, reason: ExitReason, output: Seq<u8>) -> ListenerModel {
        let done = ListenerModel { callstack: idle_flushed(self.callstack), ..self }.after_exit(
            reason,
            output,
        );
        ListenerModel {
            step_result_exit_count: if self.version == TracingVersion::EarlyTransact {
                self.step_result_exit_count + 1
            } else {
                self.step_result_exit_count
            },
            ..done
        }
    }

    /// The listener after a write to storage.
    pub open spec fn after_sstore(self, address: H160, index: H256, value: H256) -> ListenerModel {
        let stack = flushed(self.callstack, None);
        let slots = if self.storage_changes.contains_key(address) {
            self.storage_changes[address]
        } else {
            Map::empty()
        };
        ListenerModel {
            callstack: if stack.len() > 0 {
                with_top(
                    stack,
                    FrameModel { self_storage_change: true, storage_change: true, ..stack.last() },
                )
            } else {
                stack
            },
            storage_changes: self.storage_changes.insert(address, slots.insert(index, value)),
            ..self
        }
    }

    /// The listener after a report of the interpreter.
    pub open spec fn after_runtime(self, event: RuntimeEvent) -> ListenerModel {
        match event {
            RuntimeEvent::StepResult { result: Err(Capture::Trap(opcode)), .. } => self.after_trap(
                opcode@,
            ),
            RuntimeEvent::StepResult {
                result: Err(Capture::Exit(reason)),
                return_value,
            } => self.after_step_exit(reason, return_value@),
            RuntimeEvent::SStore { address, index, value } => self.after_sstore(
                address,
                index,
                value,
            ),
            _ => self,
        }
    }

    /// The listener after a transaction started with a call.
    pub open spec fn after_transact_call(
        self,
        caller: H160,
        address: H160,
        value: U256,
        data: Seq<u8>,
        gas_limit: u64,
    ) -> ListenerModel {
        ListenerModel {
            version: TracingVersion::EarlyTransact,
            record_transaction_event_only: false,
            touched_accounts: if value.value() != 0 {
                self.touched_accounts.insert(caller).insert(address)
            } else {
                self.touched_accounts.insert(caller)
            },
            callstack: self.callstack.push(
                fresh_frame(DebankCallType::Call, caller, address, gas_limit, value, data),
            ),
            skip_next_context: true,
            ..self
        }
    }

    /// The listener after a transaction started with a contract creation.
    pub open spec fn after_transact_create(
        self,
        caller: H160,
        value: U256,
        init_code: Seq<u8>,
        gas_limit: u64,
        address: H160,
    ) -> ListenerModel {
        ListenerModel {
            version: TracingVersion::EarlyTransact,
            record_transaction_event_only: false,
            touched_accounts: self.touched_accounts.insert(caller).insert(address),
            created_accounts: self.created_accounts.insert(address),
            callstack: self.callstack.push(
                fresh_frame(DebankCallType::Create, caller, address, gas_limit, value, init_code),
            ),
            skip_next_context: true,
            ..self
        }
    }

    /// The listener once precompiles that did not make a call from `caller` are closed and the
    /// one that did is marked.
    pub open spec fn called_from(self, caller: H160) -> ListenerModel {
        ListenerModel {
            callstack: subcall_marked(flushed(self.callstack, Some(caller)), caller),
            ..self
        }
    }

    /// The listener once a call with a value is known to touch both sides.
    pub open spec fn touching(self, value: U256, caller: H160, callee: H160) -> ListenerModel {
        if value.value() != 0 {
            ListenerModel {
                touched_accounts: self.touched_accounts.insert(caller).insert(callee),
                ..self
            }
        } else {
            self
        }
    }

    /// The listener after a call.
    pub open spec fn after_call(
        self,
        code_address: H160,
        input: Seq<u8>,
        target_gas: Option<u64>,
        is_static: bool,
        context: Context,
    ) -> ListenerModel {
        let s = self.called_from(context.caller).touching(
            context.apparent_value,
            context.caller,
            code_address,
        );
        if self.skip_next_context {
            ListenerModel { record_transaction_event_only: false, skip_next_context: false, ..s }
        } else {
            let call_type = match self.call_type {
                Some(t) => t,
                None => if is_static {
                    DebankCallType::StaticCall
                } else {
                    DebankCallType::Call
                },
            };
            let from = if s.callstack.len() > 0 {
                s.callstack.last().to
            } else {
                context.caller
            };
            let gas = match target_gas {
                Some(g) => g,
                None => 0,
            };
            let frame = fresh_frame(call_type, from, code_address, gas, context.apparent_value, input);
            ListenerModel {
                record_transaction_event_only: false,
                call_type: None,
                callstack: s.callstack.push(
                    FrameModel { trace_address: next_path(s.callstack), ..frame },
                ),
                ..s
            }
        }
    }

    /// The listener after a contract creation.
    pub open spec fn after_create(
        self,
        caller: H160,
        address: H160,
        value: U256,
        init_code: Seq<u8>,
        target_gas: Option<u64>,
    ) -> ListenerModel {
        let s = self.called_from(caller);
        let gas = match target_gas {
            Some(g) => g,
            None => 0,
        };
        let frame = fresh_frame(DebankCallType::Create, caller, address, gas, value, init_code);
        ListenerModel {
            record_transaction_event_only: false,
            touched_accounts: if value.value() != 0 {
                s.touched_accounts.insert(caller).insert(address)
            } else {
                s.touched_accounts.insert(address)
            },
            created_accounts: s.created_accounts.insert(address),
            callstack: if self.skip_next_context {
                s.callstack
            } else {
                s.callstack.push(FrameModel { trace_address: next_path(s.callstack), ..frame })
            },
            skip_next_context: false,
            ..s
        }
    }

    /// The listener after a contract destroyed itself.
    pub open spec fn after_suicide(self, address: H160, target: H160, balance: U256) -> ListenerModel {
        let stack = flushed(self.callstack, None);
        let frame = FrameModel {
            trace_address: next_path(stack),
            ..fresh_frame(DebankCallType::Suicide, address, target, 0, balance, seq![])
        };
        ListenerModel {
            deleted_accounts: self.deleted_accounts.insert(address),
            touched_accounts: if balance.value() != 0 {
                self.touched_accounts.insert(address).insert(target)
            } else {
                self.touched_accounts.insert(address)
            },
            callstack: if stack.len() > 0 {
                with_top(stack, with_call(stack.last(), frame))
            } else {
                stack
            },
            ..self
        }
    }

    /// The listener after the machine reported the end of a frame: nothing is left to do if the
    /// interpreter reported it first.
    pub open spec fn after_evm_exit(self, reason: ExitReason, output: Seq<u8>) -> ListenerModel {
        if self.step_result_exit_count > 0 {
            ListenerModel {
                record_transaction_event_only: false,
                step_result_exit_count: (self.step_result_exit_count - 1) as nat,
                ..self
            }
        } else {
            ListenerModel {
                record_transaction_event_only: false,
                callstack: idle_flushed(self.callstack),
                ..self
            }.after_exit(reason, output)
        }
    }

    /// The listener after a precompile was called.
    pub open spec fn after_precompile_subcall(
        self,
        code_address: H160,
        input: Seq<u8>,
        target_gas: Option<u64>,
        context: Context,
    ) -> ListenerModel {
        let s = self.called_from(context.caller).touching(
            context.apparent_value,
            context.caller,
            code_address,
        );
        let gas = match target_gas {
            Some(g) => g,
            None => 0,
        };
        let frame = fresh_frame(
            DebankCallType::Call,
            context.caller,
            code_address,
            gas,
            context.apparent_value,
            input,
        );
        ListenerModel {
            callstack: s.callstack.push(
                FrameModel { trace_address: next_path(s.callstack), is_precompile: true, ..frame },
            ),
            ..s
        }
    }

    /// The listener after a log was emitted.
    pub open spec fn after_log(self, address: H160, topics: Seq<H256>, data: Seq<u8>) -> ListenerModel {
        let stack = flushed(self.callstack, None);
        if stack.len() > 0 {
            let top = stack.last();
            let log = LogModel {
                address,
                topics,
                data,
                position: top.calls.len() + top.logs.len(),
                log_index: self.global_log_index,
            };
            ListenerModel {
                callstack: with_top(stack, FrameModel { logs: top.logs.push(log), ..top }),
                global_log_index: self.global_log_index + 1,
                ..self
            }
        } else {
            ListenerModel { callstack: stack, ..self }
        }
    }

    /// The listener after a report of the call machinery.
    pub open spec fn after_evm(self, event: EvmEvent) -> ListenerModel {
        match event {
            EvmEvent::TransactCall { caller, address, value, data, gas_limit } => self.after_transact_call(
                caller,
                address,
                value,
                data@,
                gas_limit,
            ),
            EvmEvent::TransactCreate {
                caller,
                value,
                init_code,
                gas_limit,
                address,
            } => self.after_transact_create(caller, value, init_code@, gas_limit, address),
            EvmEvent::TransactCreate2 {
                caller,
                value,
                init_code,
                salt: _,
                gas_limit,
                address,
            } => self.after_transact_create(caller, value, init_code@, gas_limit, address),
            EvmEvent::Call {
                code_address,
                transfer: _,
                input,
                target_gas,
                is_static,
                context,
            } => self.after_call(code_address, input@, target_gas, is_static, context),
            EvmEvent::Create {
                caller,
                address,
                scheme: _,
                value,
                init_code,
                target_gas,
            } => self.after_create(caller, address, value, init_code@, target_gas),
            EvmEvent::Suicide { address, target, balance } => self.after_suicide(
                address,
                target,
                balance,
            ),
            EvmEvent::Exit { reason, return_value } => self.after_evm_exit(reason, return_value@),
            EvmEvent::PrecompileSubcall {
                code_address,
                transfer: _,
                input,
                target_gas,
                is_static: _,
                context,
            } => self.after_precompile_subcall(code_address, input@, target_gas, context),
            EvmEvent::Log { address, topics, data } => self.after_log(address, topics@, data@),
        }
    }

    /// The root frame as it is kept: one whose end was never reported counts as failed, and the
    /// flags that depend on the whole tree are worked out.
    pub open spec fn kept_root(root: FrameModel) -> FrameModel {
        with_storage_change(Self::settled_root(root))
    }

    /// The root frame with `parent_failed` worked out.
    pub open spec fn settled_root(root: FrameModel) -> FrameModel {
        let closed = if root.exited {
            root
        } else {
            with_gas_settled(
                FrameModel {
                    failed: true,
                    error: "early exit (out of gas, stack overflow, direct call to precompile, ...)"@,
                    ..root
                },
            )
        };
        with_parent_failed(closed, false)
    }

    /// The frame that stands for a transaction that could not even pay for its data.
    pub open spec fn unpaid_frame() -> FrameModel {
        FrameModel {
            failed: true,
            error: "transaction could not pay its own data cost"@,
            ..fresh_frame(DebankCallType::Call, H160::zero(), H160::zero(), 0, U256::zero(), seq![])
        }
    }

    /// The listener after the end of a transaction.
    pub open spec fn finished(self) -> ListenerModel {
        let stack = flushed(self.callstack, None);
        ListenerModel {
            completed_frames: if stack.len() > 0 {
                self.completed_frames.push(Self::kept_root(stack[0]))
            } else if self.record_transaction_event_only {
                self.completed_frames.push(Self::unpaid_frame())
            } else {
                self.completed_frames
            },
            storage_contracts: if stack.len() > 0 {
                self.storage_contracts + storage_writers(Self::settled_root(stack[0]))
            } else {
                self.storage_contracts
            },
            callstack: seq![],
            skip_next_context: false,
            call_type: None,
            step_result_exit_count: 0,
            record_transaction_event_only: false,
            ..self
        }
    }

    /// The listener after any report.
    pub open spec fn after(self, event: Event) -> ListenerModel {
        match event {
            Event::Gasometer(e) => self.after_gasometer(e),
            Event::Runtime(e) => self.after_runtime(e),
            Event::Evm(e) => self.after_evm(e),
            Event::CallListNew() => if self.first_transaction {
                ListenerModel { first_transaction: false, ..self }
            } else {
                self.finished()
            },
        }
    }

    /// The listener before anything was reported.
    pub open spec fn initial() -> ListenerModel {
        ListenerModel {
            callstack: seq![],
            transaction_cost: 0,
            completed_frames: seq![],
            created_accounts: set![],
            deleted_accounts: set![],
            touched_accounts: set![],
            storage_changes: map![],
            storage_contracts: set![],
            call_type: None,
            skip_next_context: false,
            first_transaction: true,
            global_log_index: 0,
            version: TracingVersion::Legacy,
            step_result_exit_count: 0,
            record_transaction_event_only: false,
        }
    }
}

/// The frame after a reading of its gas meter.
pub open spec fn with_gas_reading(f: FrameModel, gas: u64) -> FrameModel {
    FrameModel {
        start_gas: if f.start_gas is None {
            Some(gas)
        } else {
            f.start_gas
        },
        gas_remaining: gas,
        ..f
    }
}

/// Notes a reading of the gas meter.
fn read_gas(frame: &mut CallFrame, gas: u64)
    ensures
        final(frame)@ == with_gas_reading(old(frame)@, gas),
{
    let ghost before = *frame;
    if frame.start_gas.is_none() {
        frame.start_gas = Some(gas);
    }
    frame.gas_remaining = gas;
    assert(frame@.calls =~= before@.calls);
}

/// Makes `child` the next call of `parent`.
fn add_call(parent: &mut CallFrame, mut child: CallFrame)
    requires
        frame_room(old(parent)@, 1),
    ensures
        final(parent)@ == with_call(old(parent)@, child@),
{
    let ghost parent_before = *parent;
    let ghost child_before = child;
    child.pos_in_parent_trace = parent.calls.len() + parent.logs.len();
    assert(child@.calls =~= child_before@.calls);
    parent.calls.push(child);
    assert(parent@.calls =~= with_call(parent_before@, child_before@).calls);
}

/// The innermost frame becomes a call of the frame around it.
fn nest_top(stack: &mut Vec<CallFrame>)
    requires
        old(stack)@.len() > 1,
        frame_room(old(stack)@[old(stack)@.len() - 2]@, 1),
    ensures
        frames_view(final(stack)@) == nested(frames_view(old(stack)@)),
        final(stack)@.len() == old(stack)@.len() - 1,
{
    let ghost before = stack@;
    let n: usize = stack.len();
    match stack.pop() {
        Some(frame) => {
            add_call(&mut stack[n - 2], frame);
        },
        None => {},
    }
    assert(frames_view(stack@) =~= nested(frames_view(before)));
}

/// Nesting the innermost frame takes the room of one call.
proof fn nested_spare(stack: Seq<FrameModel>, n: int)
    requires
        stack.len() > 1,
        spare(stack, n),
    ensures
        spare(nested(stack), n),
{
    assert forall|i: int| 0 <= i < nested(stack).len() - 1 implies frame_room(
        #[trigger] nested(stack)[i],
        n + 1,
    ) by {
        assert(nested(stack)[i] == stack[i]);
    }
}

/// Closing the precompiles at the top leaves the frames around the innermost one their room.
pub proof fn flushed_spare(stack: Seq<FrameModel>, keep: Option<H160>, n: int)
    requires
        spare(stack, n),
    ensures
        spare(flushed(stack, keep), n),
    decreases stack.len(),
{
    if is_stale_precompile(stack, keep) {
        nested_spare(stack, n);
        flushed_spare(nested(stack), keep, n);
    }
}

/// Closing the idle precompiles leaves the frames around the innermost one their room.
pub proof fn idle_flushed_spare(stack: Seq<FrameModel>, n: int)
    requires
        spare(stack, n),
    ensures
        spare(idle_flushed(stack), n),
    decreases stack.len(),
{
    if is_idle_precompile(stack) {
        nested_spare(stack, n);
        idle_flushed_spare(nested(stack), n);
    }
}

/// With room for one more call everywhere there is room to close precompiles.
pub proof fn room_spare(s: ListenerModel, n: nat)
    requires
        s.room(n),
        n > 0,
    ensures
        spare(s.callstack, n - 1),
{
}

impl Default for Listener {
    /// A listener that was told nothing yet.
    fn default() -> (r: Self)
        ensures
            r@ == ListenerModel::initial(),
    {
        let r = Listener {
            callstack: Vec::new(),
            transaction_cost: 0,
            completed_frames: Vec::new(),
            created_accounts: SortedSet::new(),
            deleted_accounts: SortedSet::new(),
            touched_accounts: SortedSet::new(),
            storage_changes: SortedMap::new(),
            storage_contracts: SortedSet::new(),
            call_type: None,
            skip_next_context: false,
            first_transaction: true,
            global_log_index: 0,
            version: TracingVersion::Legacy,
            step_result_exit_count: 0,
            record_transaction_event_only: false,
        };
        assert(r@ =~= ListenerModel::initial());
        r
    }
}

impl Listener {
    /// A listener that was told nothing yet.
    pub fn new() -> (r: Self)
        ensures
            r@ == ListenerModel::initial(),
    {
        Self::default()
    }

    /// Closes the precompiles at the top of the stack that returned without a report. The one at
    /// the address `expected_caller` is still running and stays.
    pub fn flush_pending_precompiles(&mut self, expected_caller: Option<H160>)
        requires
            spare(old(self)@.callstack, 0),
        ensures
            final(self)@ == (ListenerModel {
                callstack: flushed(old(self)@.callstack, expected_caller),
                ..old(self)@
            }),
    {
        let ghost before = *self;
        while self.callstack.len() > 1
            invariant_except_break
                spare(self@.callstack, 0),
                flushed(self@.callstack, expected_caller) == flushed(
                    before@.callstack,
                    expected_caller,
                ),
            invariant
                (Listener { callstack: before.callstack, ..*self }) == before,
            ensures
                self@.callstack == flushed(before@.callstack, expected_caller),
            decreases self.callstack.len(),
        {
            let frame = &self.callstack[self.callstack.len() - 1];
            assert(frame@ == self@.callstack.last());
            if !frame.is_precompile {
                break ;
            }
            if let Some(caller) = expected_caller {
                if frame.to == caller {
                    break ;
                }
            }
            proof {
                nested_spare(self@.callstack, 0);
            }
            assert(self@.callstack[self@.callstack.len() - 2] == self.callstack@[self.callstack@.len()
                - 2]@);
            self.pop_frame_to_parent();
        }
        assert(self@ =~= (ListenerModel {
            callstack: flushed(before@.callstack, expected_caller),
            ..before@
        }));
    }

    /// Marks the innermost frame as one that called back, if it is a precompile at `caller`.
    pub fn mark_precompile_has_subcall(&mut self, caller: H160)
        ensures
            final(self)@ == (ListenerModel {
                callstack: subcall_marked(old(self)@.callstack, caller),
                ..old(self)@
            }),
    {
        let ghost before = *self;
        let n: usize = self.callstack.len();
        if n > 0 {
            let frame = &mut self.callstack[n - 1];
            let ghost frame_before = *frame;
            if frame.is_precompile && frame.to == caller {
                frame.had_subcall = true;
                assert(frame@ =~= (FrameModel { had_subcall: true, ..frame_before@ }));
            }
        }
        assert(self@.callstack =~= subcall_marked(before@.callstack, caller));
        assert(self@ =~= (ListenerModel {
            callstack: subcall_marked(before@.callstack, caller),
            ..before@
        }));
    }

    /// Takes the innermost frame off the stack and makes it a call of the frame around it, if
    /// there is one.
    pub fn pop_frame_to_parent(&mut self)
        requires
            spare(old(self)@.callstack, 0),
        ensures
            final(self)@ == (ListenerModel {
                callstack: if old(self)@.callstack.len() > 1 {
                    nested(old(self)@.callstack)
                } else {
                    seq![]
                },
                ..old(self)@
            }),
            (Listener { callstack: old(self).callstack, ..*final(self) }) == *old(self),
            old(self).callstack@.len() > 0 ==> final(self).callstack@.len()
                == old(self).callstack@.len() - 1,
    {
        let ghost before = *self;
        if self.callstack.len() > 1 {
            assert(self@.callstack[self@.callstack.len() - 2] == self.callstack@[self.callstack@.len()
                - 2]@);
            nest_top(&mut self.callstack);
        } else {
            self.callstack.pop();
            assert(self@.callstack =~= seq![]);
        }
        assert(self@ =~= (ListenerModel { callstack: self@.callstack, ..before@ }));
    }

    /// The path of the next call of the innermost frame.
    pub fn next_trace_address(&self) -> (r: Vec<usize>)
        ensures
            path_view(r@) == next_path(self@.callstack),
    {
        let n: usize = self.callstack.len();
        if n > 0 {
            let parent = &self.callstack[n - 1];
            let mut path = parent.trace_address.clone();
            path.push(parent.calls.len());
            assert(parent@ == self@.callstack.last());
            assert(path_view(path@) =~= next_path(self@.callstack));
            path
        } else {
            let path: Vec<usize> = Vec::new();
            assert(path_view(path@) =~= next_path(self@.callstack));
            path
        }
    }

    /// Closes the precompiles at the top of the stack that never called back.
    pub fn flush_precompiles_without_subcalls(&mut self)
        requires
            spare(old(self)@.callstack, 0),
        ensures
            final(self)@ == (ListenerModel {
                callstack: idle_flushed(old(self)@.callstack),
                ..old(self)@
            }),
    {
        let ghost before = *self;
        while self.callstack.len() > 1
            invariant_except_break
                spare(self@.callstack, 0),
                idle_flushed(self@.callstack) == idle_flushed(before@.callstack),
            invariant
                (Listener { callstack: before.callstack, ..*self }) == before,
            ensures
                self@.callstack == idle_flushed(before@.callstack),
            decreases self.callstack.len(),
        {
            let frame = &self.callstack[self.callstack.len() - 1];
            assert(frame@ == self@.callstack.last());
            if !(frame.is_precompile && !frame.had_subcall) {
                break ;
            }
            proof {
                nested_spare(self@.callstack, 0);
            }
            self.pop_frame_to_parent();
        }
        assert(self@ =~= (ListenerModel {
            callstack: idle_flushed(before@.callstack),
            ..before@
        }));
    }

    /// Takes in that the innermost frame ended. The root frame stays on the stack.
    pub fn capture_exit(&mut self, reason: &ExitReason, return_value: Vec<u8>)
        requires
            spare(old(self)@.callstack, 0),
        ensures
            final(self)@ == old(self)@.after_exit(*reason, return_value@),
    {
        let ghost before = *self;
        let ghost output = return_value@;
        let n: usize = self.callstack.len();
        if n == 0 {
            return ;
        }
        let frame = &mut self.callstack[n - 1];
        let ghost top = *frame;
        let created = if frame.call_type == DebankCallType::Create {
            Some(frame.to)
        } else {
            None
        };
        frame.process_output(return_value, reason);
        frame.settle_gas();
        let failed = frame.failed;
        let ghost done = frame@;
        assert(done == ended(top@, output, *reason));
        assert(top@ == before@.callstack.last());
        if failed {
            if let Some(address) = created {
                self.created_accounts.remove(&address);
            }
        }
        assert(self@.callstack =~= with_top(before@.callstack, done));
        if n > 1 {
            assert(self.callstack@[n - 2]@ == before@.callstack[n - 2]);
            nest_top(&mut self.callstack);
        } else {
            assert(self@.callstack =~= seq![done]);
        }
        assert(self@ =~= before@.after_exit(*reason, output));
    }

    /// Takes in a report of the gas meter.
    pub fn gasometer_event(&mut self, event: GasometerEvent)
        requires
            old(self)@.accepts(Event::Gasometer(event)),
        ensures
            final(self)@ == old(self)@.after_gasometer(event),
    {
        let ghost before = *self;
        match event {
            GasometerEvent::RecordCost { snapshot, .. }
            | GasometerEvent::RecordDynamicCost { snapshot, .. }
            | GasometerEvent::RecordStipend { snapshot, .. } => {
                let n: usize = self.callstack.len();
                if n > 0 {
                    read_gas(&mut self.callstack[n - 1], snapshot.gas());
                }
                assert(self@.callstack =~= before@.after_gasometer(event).callstack);
            },
            GasometerEvent::RecordTransaction { cost, .. } => {
                self.transaction_cost = cost;
                self.record_transaction_event_only = true;
            },
            _ => {},
        }
        assert(self@ =~= before@.after_gasometer(event));
    }

    /// Notes the value written to a slot of an account.
    fn note_storage_change(&mut self, address: H160, index: H256, value: H256)
        ensures
            final(self)@ == (ListenerModel {
                storage_changes: old(self)@.storage_changes.insert(
                    address,
                    if old(self)@.storage_changes.contains_key(address) {
                        old(self)@.storage_changes[address].insert(index, value)
                    } else {
                        Map::empty().insert(index, value)
                    },
                ),
                ..old(self)@
            }),
            (Listener { storage_changes: old(self).storage_changes, ..*final(self) }) == *old(self),
    {
        let ghost before = *self;
        let mut slots = match self.storage_changes.remove(&address) {
            Some(slots) => slots,
            None => SortedMap::new(),
        };
        slots.insert(index, value);
        self.storage_changes.insert(address, slots);
        assert(self@.storage_changes =~= before@.storage_changes.insert(address, slots@));
        assert(self@ =~= (ListenerModel {
            storage_changes: before@.storage_changes.insert(address, slots@),
            ..before@
        }));
    }

    /// Takes in a report of the interpreter.
    pub fn runtime_event(&mut self, event: RuntimeEvent)
        requires
            old(self)@.room(2),
        ensures
            final(self)@ == old(self)@.after_runtime(event),
    {
        let ghost before = *self;
        proof {
            room_spare(self@, 2);
            idle_flushed_spare(self@.callstack, 0);
        }
        match event {
            RuntimeEvent::StepResult { result: Err(Capture::Trap(opcode)), .. } => {
                if let Some(call_type) = call_type_from_opcode(&opcode) {
                    self.call_type = Some(call_type);
                }
            },
            RuntimeEvent::StepResult { result: Err(Capture::Exit(reason)), return_value } => {
                self.flush_precompiles_without_subcalls();
                match self.version {
                    TracingVersion::Legacy => {
                        self.capture_exit(&reason, return_value);
                    },
                    TracingVersion::EarlyTransact => {
                        self.capture_exit(&reason, return_value);
                        self.step_result_exit_count += 1;
                    },
                }
            },
            RuntimeEvent::SStore { address, index, value } => {
                self.flush_pending_precompiles(None);
                let ghost flat = *self;
                self.note_storage_change(address, index, value);
                let n: usize = self.callstack.len();
                if n > 0 {
                    let frame = &mut self.callstack[n - 1];
                    let ghost top = *frame;
                    frame.self_storage_change = true;
                    frame.storage_change = true;
                    assert(frame@.calls =~= top@.calls);
                }
                assert(self@.callstack =~= before@.after_sstore(address, index, value).callstack);
            },
            _ => {},
        }
        assert(self@ =~= before@.after_runtime(event));
    }

    /// Opens the root frame of a transaction.
    fn open_transaction(&mut self, frame: CallFrame)
        ensures
            final(self)@ == (ListenerModel {
                version: TracingVersion::EarlyTransact,
                record_transaction_event_only: false,
                callstack: old(self)@.callstack.push(frame@),
                skip_next_context: true,
                ..old(self)@
            }),
    {
        let ghost before = *self;
        self.version = TracingVersion::EarlyTransact;
        self.record_transaction_event_only = false;
        self.callstack.push(frame);
        self.skip_next_context = true;
        assert(self@.callstack =~= before@.callstack.push(frame@));
    }

    /// Opens a frame below the innermost one.
    fn open_frame(&mut self, mut frame: CallFrame)
        ensures
            final(self)@ == (ListenerModel {
                callstack: old(self)@.callstack.push(
                    FrameModel { trace_address: next_path(old(self)@.callstack), ..frame@ },
                ),
                ..old(self)@
            }),
    {
        let ghost before = *self;
        let ghost fresh = frame;
        frame.trace_address = self.next_trace_address();
        assert(frame@.calls =~= fresh@.calls);
        self.callstack.push(frame);
        assert(self@.callstack =~= before@.callstack.push(frame@));
    }

    /// Closes the precompiles that did not make a call from `caller` and marks the one that did.
    fn note_caller(&mut self, caller: H160)
        requires
            spare(old(self)@.callstack, 0),
        ensures
            final(self)@ == old(self)@.called_from(caller),
    {
        self.flush_pending_precompiles(Some(caller));
        self.mark_precompile_has_subcall(caller);
    }

    /// Notes the accounts that a call with a value touches.
    fn note_transfer(&mut self, value: U256, caller: H160, callee: H160)
        ensures
            final(self)@ == old(self)@.touching(value, caller, callee),
    {
        if !value.is_zero() {
            self.touched_accounts.insert(caller);
            self.touched_accounts.insert(callee);
        }
    }

    /// Takes in a call.
    fn on_call(
        &mut self,
        code_address: H160,
        input: Vec<u8>,
        target_gas: Option<u64>,
        is_static: bool,
        context: Context,
    )
        requires
            spare(old(self)@.callstack, 0),
        ensures
            final(self)@ == old(self)@.after_call(
                code_address,
                input@,
                target_gas,
                is_static,
                context,
            ),
    {
        self.record_transaction_event_only = false;
        self.note_caller(context.caller);
        self.note_transfer(context.apparent_value, context.caller, code_address);
        if !self.skip_next_context {
            let call_type = match (self.call_type.take(), is_static) {
                (None, true) => DebankCallType::StaticCall,
                (None, false) => DebankCallType::Call,
                (Some(call_type), _) => call_type,
            };
            let n: usize = self.callstack.len();
            let from = if n > 0 {
                self.callstack[n - 1].to
            } else {
                context.caller
            };
            let gas: u64 = target_gas.unwrap_or(0);
            self.open_frame(
                CallFrame::new(call_type, from, code_address, gas, context.apparent_value, input),
            );
        } else {
            self.skip_next_context = false;
        }
    }

    /// Takes in a contract creation.
    fn on_create(
        &mut self,
        caller: H160,
        address: H160,
        value: U256,
        init_code: Vec<u8>,
        target_gas: Option<u64>,
    )
        requires
            spare(old(self)@.callstack, 0),
        ensures
            final(self)@ == old(self)@.after_create(caller, address, value, init_code@, target_gas),
    {
        self.record_transaction_event_only = false;
        self.note_caller(caller);
        if !value.is_zero() {
            self.touched_accounts.insert(caller);
        }
        self.created_accounts.insert(address);
        self.touched_accounts.insert(address);
        if !self.skip_next_context {
            let gas: u64 = target_gas.unwrap_or(0);
            self.open_frame(
                CallFrame::new(DebankCallType::Create, caller, address, gas, value, init_code),
            );
        } else {
            self.skip_next_context = false;
        }
    }

    /// Takes in that a contract destroyed itself.
    fn on_suicide(&mut self, address: H160, target: H160, balance: U256)
        requires
            spare(old(self)@.callstack, 1),
        ensures
            final(self)@ == old(self)@.after_suicide(address, target, balance),
    {
        let ghost before = *self;
        proof {
            flushed_spare(self@.callstack, None, 1);
        }
        self.flush_pending_precompiles(None);
        self.deleted_accounts.insert(address);
        self.touched_accounts.insert(address);
        if !balance.is_zero() {
            self.touched_accounts.insert(target);
        }
        let trace_address = self.next_trace_address();
        let n: usize = self.callstack.len();
        if n > 0 {
            assert(self.callstack@[n - 1]@ == self@.callstack.last());
            let mut frame = CallFrame::new(
                DebankCallType::Suicide,
                address,
                target,
                0,
                balance,
                Vec::new(),
            );
            let ghost fresh = frame;
            frame.trace_address = trace_address;
            assert(frame@.calls =~= fresh@.calls);
            add_call(&mut self.callstack[n - 1], frame);
        }
        assert(self@.callstack =~= before@.after_suicide(address, target, balance).callstack);
        assert(self@ =~= before@.after_suicide(address, target, balance));
    }

    /// Takes in that a precompile was called.
    fn on_precompile_subcall(
        &mut self,
        code_address: H160,
        input: Vec<u8>,
        target_gas: Option<u64>,
        context: Context,
    )
        requires
            spare(old(self)@.callstack, 0),
        ensures
            final(self)@ == old(self)@.after_precompile_subcall(
                code_address,
                input@,
                target_gas,
                context,
            ),
    {
        self.note_caller(context.caller);
        self.note_transfer(context.apparent_value, context.caller, code_address);
        let gas: u64 = target_gas.unwrap_or(0);
        let mut frame = CallFrame::new(
            DebankCallType::Call,
            context.caller,
            code_address,
            gas,
            context.apparent_value,
            input,
        );
        let ghost fresh = frame;
        frame.is_precompile = true;
        assert(frame@.calls =~= fresh@.calls);
        self.open_frame(frame);
    }

    /// Takes in a log entry.
    fn on_log(&mut self, address: H160, topics: Vec<H256>, data: Vec<u8>)
        requires
            spare(old(self)@.callstack, 1),
            old(self)@.global_log_index < usize::MAX,
        ensures
            final(self)@ == old(self)@.after_log(address, topics@, data@),
    {
        let ghost before = *self;
        proof {
            flushed_spare(self@.callstack, None, 1);
        }
        self.flush_pending_precompiles(None);
        let log_index: usize = self.global_log_index;
        let n: usize = self.callstack.len();
        if n > 0 {
            assert(self.callstack@[n - 1]@ == self@.callstack.last());
            let frame = &mut self.callstack[n - 1];
            let ghost top = *frame;
            let position: usize = frame.calls.len() + frame.logs.len();
            let log = EventLog { address, topics, data, position, log_index };
            frame.logs.push(log);
            assert(frame@.calls =~= top@.calls);
            assert(frame@.logs =~= top@.logs.push(log@));
            self.global_log_index += 1;
        }
        assert(self@.callstack =~= before@.after_log(address, topics@, data@).callstack);
        assert(self@ =~= before@.after_log(address, topics@, data@));
    }

    /// Takes in a report of the call machinery.
    pub fn evm_event(&mut self, event: EvmEvent)
        requires
            old(self)@.room(2),
        ensures
            final(self)@ == old(self)@.after_evm(event),
    {
        let ghost before = *self;
        proof {
            room_spare(self@, 2);
            room_spare(self@, 1);
            idle_flushed_spare(self@.callstack, 0);
        }
        match event {
            EvmEvent::TransactCall { caller, address, value, data, gas_limit } => {
                self.touched_accounts.insert(caller);
                if !value.is_zero() {
                    self.touched_accounts.insert(address);
                }
                self.open_transaction(
                    CallFrame::new(DebankCallType::Call, caller, address, gas_limit, value, data),
                );
            },
            EvmEvent::TransactCreate { caller, value, init_code, gas_limit, address }
            | EvmEvent::TransactCreate2 {
                caller,
                value,
                init_code,
                salt: _,
                gas_limit,
                address,
            } => {
                self.touched_accounts.insert(caller);
                self.created_accounts.insert(address);
                self.touched_accounts.insert(address);
                self.open_transaction(
                    CallFrame::new(
                        DebankCallType::Create,
                        caller,
                        address,
                        gas_limit,
                        value,
                        init_code,
                    ),
                );
            },
            EvmEvent::Call { code_address, transfer: _, input, target_gas, is_static, context } => {
                self.on_call(code_address, input, target_gas, is_static, context);
            },
            EvmEvent::Create { caller, address, scheme: _, value, init_code, target_gas } => {
                self.on_create(caller, address, value, init_code, target_gas);
            },
            EvmEvent::Suicide { address, target, balance } => {
                self.on_suicide(address, target, balance);
            },
            EvmEvent::Exit { reason, return_value } => {
                self.record_transaction_event_only = false;
                if self.step_result_exit_count > 0 {
                    self.step_result_exit_count -= 1;
                } else {
                    self.flush_precompiles_without_subcalls();
                    self.capture_exit(&reason, return_value);
                }
            },
            EvmEvent::PrecompileSubcall {
                code_address,
                transfer: _,
                input,
                target_gas,
                is_static: _,
                context,
            } => {
                self.on_precompile_subcall(code_address, input, target_gas, context);
            },
            EvmEvent::Log { address, topics, data } => {
                self.on_log(address, topics, data);
            },
        }
        assert(self@ =~= before@.after_evm(event));
    }

    /// Ends a transaction: its root frame is kept, with the flags that depend on the whole tree
    /// worked out, and the listener is ready for the next one.
    pub fn finish_transaction(&mut self)
        requires
            spare(old(self)@.callstack, 0),
        ensures
            final(self)@ == old(self)@.finished(),
    {
        let ghost before = *self;
        self.flush_pending_precompiles(None);
        let ghost stack = self@.callstack;
        let mut callstack: Vec<CallFrame> = Vec::new();
        core::mem::swap(&mut self.callstack, &mut callstack);
        assert(frames_view(callstack@) == stack);
        if callstack.len() > 0 {
            let mut root = callstack.remove(0);
            let ghost first = root;
            assert(first@ == stack[0]);
            if !root.exited {
                root.failed = true;
                root.error =
                "early exit (out of gas, stack overflow, direct call to precompile, ...)".to_string();
                assert(root@.calls =~= first@.calls);
                root.settle_gas();
            }
            set_parent_failed(&mut root, false);
            assert(root@ == ListenerModel::settled_root(first@));
            set_storage_change(&mut root, &mut self.storage_contracts);
            self.completed_frames.push(root);
            assert(self@.completed_frames =~= before@.completed_frames.push(root@));
        } else if self.record_transaction_event_only {
            let mut frame = CallFrame::new(
                DebankCallType::Call,
                H160::zero(),
                H160::zero(),
                0,
                U256::zero(),
                Vec::new(),
            );
            let ghost fresh = frame;
            frame.failed = true;
            frame.error = "transaction could not pay its own data cost".to_string();
            assert(frame@.calls =~= fresh@.calls);
            assert(frame@ =~= ListenerModel::unpaid_frame());
            self.completed_frames.push(frame);
            assert(self@.completed_frames =~= before@.completed_frames.push(frame@));
        }
        self.skip_next_context = false;
        self.call_type = None;
        self.step_result_exit_count = 0;
        self.record_transaction_event_only = false;
        assert(self@.callstack =~= seq![]);
        assert(self@ =~= before@.finished());
    }

    /// Takes in any report. The marker before the first transaction ends none.
    pub fn event(&mut self, event: Event)
        requires
            old(self)@.room(2),
            old(self)@.accepts(event),
        ensures
            final(self)@ == old(self)@.after(event),
    {
        proof {
            room_spare(self@, 1);
        }
        match event {
            Event::Gasometer(e) => self.gasometer_event(e),
            Event::Runtime(e) => self.runtime_event(e),
            Event::Evm(e) => self.evm_event(e),
            Event::CallListNew() => {
                if !self.first_transaction {
                    self.finish_transaction();
                } else {
                    self.first_transaction = false;
                }
            },
        }
    }

    /// The listener needs neither the memory nor the stack.
    pub fn step_event_filter(&self) -> (r: StepEventFilter)
        ensures
            r == (StepEventFilter { enable_memory: false, enable_stack: false }),
    {
        StepEventFilter { enable_memory: false, enable_stack: false }
    }

    /// The report can be taken in: there is room for it, and a gas reading for an open frame is
    /// consistent.
    pub fn can_take(&self, event: &Event) -> (r: bool)
        ensures
            r == (self@.room(2) && self@.accepts(*event)),
    {
        let consistent = match event {
            Event::Gasometer(
                GasometerEvent::RecordCost { snapshot, .. }
                | GasometerEvent::RecordDynamicCost { snapshot, .. }
                | GasometerEvent::RecordStipend { snapshot, .. },
            ) => snapshot.memory_gas <= snapshot.gas_limit && snapshot.used_gas
                <= snapshot.gas_limit - snapshot.memory_gas,
            _ => true,
        };
        (self.callstack.len() == 0 || consistent) && self.has_room()
    }

    /// There is room to take in one more report.
    pub fn has_room(&self) -> (r: bool)
        ensures
            r == self@.room(2),
    {
        let limit: usize = usize::MAX - 2;
        if self.global_log_index > limit || self.step_result_exit_count > limit {
            return false;
        }
        let mut i: usize = 0;
        while i < self.callstack.len()
            invariant
                i <= self.callstack@.len(),
                limit == usize::MAX - 2,
                forall|j: int| 0 <= j < i ==> frame_room(#[trigger] self@.callstack[j], 2),
            decreases self.callstack@.len() - i,
        {
            let frame = &self.callstack[i];
            assert(frame@ == self@.callstack[i as int]);
            if frame.calls.len() > limit || frame.logs.len() > limit - frame.calls.len() {
                assert(!frame_room(self@.callstack[i as int], 2));
                return false;
            }
            i += 1;
        }
        true
    }
}

} // verus!

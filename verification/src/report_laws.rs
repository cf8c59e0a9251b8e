//! What each report does to the listener, field by field.
use crate::events::{
    Capture, Context, CreateScheme, Event, EvmEvent, ExitError, ExitReason, GasometerEvent,
    RuntimeEvent, Snapshot, Transfer,
};
use crate::frame::{
    storage_writers, storage_writers_below, with_parent_failed, with_storage_change,
    DebankCallType, FrameModel,
};
use crate::frame_laws::{
    failed_above, frame_at, parent_failed_means_failure_above, storage_change_moves_nothing,
};
use crate::listener::{ended, flushed, idle_flushed, nested, ListenerModel, TracingVersion};
use crate::primitives::{H160, H256, U256};
use vstd::prelude::*;

verus! {

/// The frame is one that was only just entered: it carries what it was entered with, and nothing
/// has happened in it.
pub open spec fn is_entered(
    f: FrameModel,
    call_type: DebankCallType,
    from: H160,
    to: H160,
    gas: u64,
    value: U256,
    input: Seq<u8>,
) -> bool {
    &&& f.call_type == call_type
    &&& f.from == from
    &&& f.to == to
    &&& f.gas == gas
    &&& f.gas_remaining == gas
    &&& f.value == value
    &&& f.input == input
    &&& f.pos_in_parent_trace == 0
    &&& f.gas_used == 0
    &&& f.start_gas is None
    &&& f.output.len() == 0
    &&& f.error.len() == 0
    &&& !f.self_storage_change
    &&& !f.storage_change
    &&& !f.failed
    &&& !f.parent_failed
    &&& f.calls.len() == 0
    &&& f.logs.len() == 0
    &&& !f.exited
    &&& !f.had_subcall
}

/// The stack whose innermost frame became the last call of the frame around it, behind all calls
/// and logs that this one has.
pub open spec fn top_closed(stack: Seq<FrameModel>) -> Seq<FrameModel> {
    let n = stack.len();
    let parent = stack[n - 2];
    let child = FrameModel {
        pos_in_parent_trace: parent.calls.len() + parent.logs.len(),
        ..stack[n - 1]
    };
    stack.take(n - 2).push(FrameModel { calls: parent.calls.push(child), ..parent })
}

/// The innermost frame is a precompile inside another frame.
pub open spec fn ends_in_precompile(stack: Seq<FrameModel>) -> bool {
    stack.len() > 1 && stack[stack.len() - 1].is_precompile
}

/// Closing the innermost frame by hand is what the listener does.
proof fn closing_is_nesting(stack: Seq<FrameModel>)
    requires
        stack.len() > 1,
    ensures
        nested(stack) == top_closed(stack),
{
    assert(nested(stack) =~= top_closed(stack));
}

/// A precompile that cannot be the one reporting has returned: the report does what it does once
/// that precompile is closed. So it is for a call that it did not make, for anything that a
/// precompile does not do, and for the end of a frame if it never called back.
pub proof fn returned_precompile_is_closed_first(s: ListenerModel, event: Event)
    requires
        ends_in_precompile(s.callstack),
        match event {
            Event::Evm(EvmEvent::Call { context, .. }) => s.callstack.last().to != context.caller,
            Event::Evm(EvmEvent::Create { caller, .. }) => s.callstack.last().to != caller,
            Event::Evm(EvmEvent::PrecompileSubcall { context, .. }) => s.callstack.last().to
                != context.caller,
            Event::Evm(EvmEvent::Suicide { .. }) => true,
            Event::Evm(EvmEvent::Log { .. }) => true,
            Event::Evm(EvmEvent::Exit { .. }) => s.step_result_exit_count == 0
                && !s.callstack.last().had_subcall,
            Event::Runtime(RuntimeEvent::SStore { .. }) => true,
            Event::Runtime(
                RuntimeEvent::StepResult { result: Err(Capture::Exit(_)), .. },
            ) => !s.callstack.last().had_subcall,
            Event::CallListNew() => !s.first_transaction,
            _ => false,
        },
    ensures
        s.after(event) == (ListenerModel { callstack: top_closed(s.callstack), ..s }).after(event),
{
    closing_is_nesting(s.callstack);
    let t = ListenerModel { callstack: top_closed(s.callstack), ..s };
    match event {
        Event::Evm(EvmEvent::Call { context, .. }) => {
            assert(flushed(s.callstack, Some(context.caller)) == flushed(
                t.callstack,
                Some(context.caller),
            ));
        },
        Event::Evm(EvmEvent::Create { caller, .. }) => {
            assert(flushed(s.callstack, Some(caller)) == flushed(t.callstack, Some(caller)));
        },
        Event::Evm(EvmEvent::PrecompileSubcall { context, .. }) => {
            assert(flushed(s.callstack, Some(context.caller)) == flushed(
                t.callstack,
                Some(context.caller),
            ));
        },
        Event::Evm(EvmEvent::Exit { .. }) => {
            assert(idle_flushed(s.callstack) == idle_flushed(t.callstack));
        },
        Event::Runtime(RuntimeEvent::StepResult { .. }) => {
            assert(idle_flushed(s.callstack) == idle_flushed(t.callstack));
        },
        _ => {
            assert(flushed(s.callstack, None) == flushed(t.callstack, None));
        },
    }
}

/// The same for the end of a transaction.
pub proof fn finishing_closes_precompiles_first(s: ListenerModel)
    requires
        ends_in_precompile(s.callstack),
    ensures
        s.finished() == (ListenerModel { callstack: top_closed(s.callstack), ..s }).finished(),
{
    closing_is_nesting(s.callstack);
    assert(flushed(s.callstack, None) == flushed(top_closed(s.callstack), None));
}

/// The frames under a new one are those that were open; a precompile that made the call is marked.
pub open spec fn are_under_call(
    under: Seq<FrameModel>,
    stack: Seq<FrameModel>,
    caller: H160,
) -> bool {
    let n = stack.len();
    &&& under.len() == n
    &&& forall|i: int| 0 <= i < n - 1 ==> #[trigger] under[i] == stack[i]
    &&& n > 0 ==> under[n - 1] == FrameModel {
        had_subcall: stack[n - 1].had_subcall || (stack[n - 1].is_precompile && stack[n - 1].to
            == caller),
        ..stack[n - 1]
    }
}

/// The frame on top of the others has the path of the next call of the one around it; a root has
/// the empty path.
pub open spec fn has_next_path(stack: Seq<FrameModel>) -> bool {
    let n = stack.len();
    if n == 1 {
        stack[0].trace_address.len() == 0
    } else {
        stack[n - 1].trace_address == stack[n - 2].trace_address.push(stack[n - 2].calls.len())
    }
}

/// The accounts are those there were, and both sides of a call that sends something.
pub open spec fn touches_both(
    after: Set<H160>,
    before: Set<H160>,
    value: U256,
    caller: H160,
    callee: H160,
) -> bool {
    forall|a: H160| #[trigger]
        after.contains(a) <==> before.contains(a) || (value.value() != 0 && (a == caller || a
            == callee))
}

/// A call opens a frame that carries what the report says: who is called, with which input, value
/// and gas. It is called by the frame around it, or by the caller if there is none. The opcode that
/// announced it tells its type, or else whether it is static.
#[verifier::rlimit(40)]
pub proof fn call_opens_its_frame(
    s: ListenerModel,
    code_address: H160,
    transfer: Option<Transfer>,
    input: Vec<u8>,
    target_gas: Option<u64>,
    is_static: bool,
    context: Context,
)
    requires
        !s.skip_next_context,
        ends_in_precompile(s.callstack) ==> s.callstack.last().to == context.caller,
    ensures
        ({
            let t = s.after(
                Event::Evm(
                    EvmEvent::Call {
                        code_address,
                        transfer,
                        input,
                        target_gas,
                        is_static,
                        context,
                    },
                ),
            );
            let n = s.callstack.len() as int;
            let top = t.callstack[n];
            &&& t.callstack.len() == n + 1
            &&& are_under_call(t.callstack.take(n), s.callstack, context.caller)
            &&& is_entered(
                top,
                top.call_type,
                top.from,
                code_address,
                if target_gas is Some {
                    target_gas->0
                } else {
                    0
                },
                context.apparent_value,
                input@,
            )
            &&& top.from == if n > 0 {
                s.callstack[n - 1].to
            } else {
                context.caller
            }
            &&& s.call_type is Some ==> top.call_type == s.call_type->0
            &&& s.call_type is None && is_static ==> top.call_type == DebankCallType::StaticCall
            &&& s.call_type is None && !is_static ==> top.call_type == DebankCallType::Call
            &&& !top.is_precompile
            &&& has_next_path(t.callstack)
            &&& t.call_type is None
            &&& !t.record_transaction_event_only
            &&& touches_both(
                t.touched_accounts,
                s.touched_accounts,
                context.apparent_value,
                context.caller,
                code_address,
            )
            &&& s == (ListenerModel {
                callstack: s.callstack,
                call_type: s.call_type,
                record_transaction_event_only: s.record_transaction_event_only,
                touched_accounts: s.touched_accounts,
                ..t
            })
        }),
{
    let t = s.after(
        Event::Evm(
            EvmEvent::Call { code_address, transfer, input, target_gas, is_static, context },
        ),
    );
    assert(flushed(s.callstack, Some(context.caller)) == s.callstack);
}

/// Whatever is open, the innermost frame after a call that does not repeat the start of the
/// transaction is the one it opened: it carries the value, input, gas and called account of the
/// report, and nothing has happened in it.
pub proof fn innermost_frame_is_that_of_the_call(
    s: ListenerModel,
    code_address: H160,
    transfer: Option<Transfer>,
    input: Vec<u8>,
    target_gas: Option<u64>,
    is_static: bool,
    context: Context,
)
    requires
        !s.skip_next_context,
    ensures
        ({
            let t = s.after(
                Event::Evm(
                    EvmEvent::Call {
                        code_address,
                        transfer,
                        input,
                        target_gas,
                        is_static,
                        context,
                    },
                ),
            );
            let top = t.callstack[t.callstack.len() - 1];
            &&& t.callstack.len() > 0
            &&& top.value == context.apparent_value
            &&& top.input == input@
            &&& top.to == code_address
            &&& target_gas is Some ==> top.gas == target_gas->0
            &&& target_gas is None ==> top.gas == 0
            &&& is_entered(
                top,
                top.call_type,
                top.from,
                code_address,
                top.gas,
                context.apparent_value,
                input@,
            )
            &&& !top.is_precompile
            &&& has_next_path(t.callstack)
            &&& t.callstack.len() == 1 ==> top.from == context.caller
            &&& t.callstack.len() > 1 ==> top.from == t.callstack[t.callstack.len() - 2].to
            &&& t.completed_frames == s.completed_frames
            &&& t.storage_changes == s.storage_changes
            &&& t.created_accounts == s.created_accounts
            &&& t.deleted_accounts == s.deleted_accounts
        }),
{
}

/// Whatever is open, the innermost frame after a creation that does not repeat the start of the
/// transaction is the one it opened.
pub proof fn innermost_frame_is_that_of_the_creation(
    s: ListenerModel,
    caller: H160,
    address: H160,
    scheme: CreateScheme,
    value: U256,
    init_code: Vec<u8>,
    target_gas: Option<u64>,
)
    requires
        !s.skip_next_context,
    ensures
        ({
            let t = s.after(
                Event::Evm(
                    EvmEvent::Create { caller, address, scheme, value, init_code, target_gas },
                ),
            );
            let top = t.callstack[t.callstack.len() - 1];
            &&& t.callstack.len() > 0
            &&& is_entered(
                top,
                DebankCallType::Create,
                caller,
                address,
                top.gas,
                value,
                init_code@,
            )
            &&& target_gas is Some ==> top.gas == target_gas->0
            &&& target_gas is None ==> top.gas == 0
            &&& !top.is_precompile
            &&& has_next_path(t.callstack)
            &&& t.created_accounts.contains(address)
            &&& t.touched_accounts.contains(address)
        }),
{
}

/// Whatever is open, the innermost frame after the call of a precompile is that of the precompile.
pub proof fn innermost_frame_is_that_of_the_precompile(
    s: ListenerModel,
    code_address: H160,
    transfer: Option<Transfer>,
    input: Vec<u8>,
    target_gas: Option<u64>,
    is_static: bool,
    context: Context,
)
    ensures
        ({
            let t = s.after(
                Event::Evm(
                    EvmEvent::PrecompileSubcall {
                        code_address,
                        transfer,
                        input,
                        target_gas,
                        is_static,
                        context,
                    },
                ),
            );
            let top = t.callstack[t.callstack.len() - 1];
            &&& t.callstack.len() > 0
            &&& is_entered(
                top,
                DebankCallType::Call,
                context.caller,
                code_address,
                top.gas,
                context.apparent_value,
                input@,
            )
            &&& target_gas is Some ==> top.gas == target_gas->0
            &&& target_gas is None ==> top.gas == 0
            &&& top.is_precompile
            &&& has_next_path(t.callstack)
        }),
{
}

/// A call or creation that repeats the start of the transaction opens no frame: it only touches the
/// accounts it touches, and the next one counts again.
#[verifier::rlimit(40)]
pub proof fn repeated_call_opens_no_frame(
    s: ListenerModel,
    code_address: H160,
    transfer: Option<Transfer>,
    input: Vec<u8>,
    target_gas: Option<u64>,
    is_static: bool,
    context: Context,
)
    requires
        s.skip_next_context,
        ends_in_precompile(s.callstack) ==> s.callstack.last().to == context.caller,
    ensures
        ({
            let t = s.after(
                Event::Evm(
                    EvmEvent::Call {
                        code_address,
                        transfer,
                        input,
                        target_gas,
                        is_static,
                        context,
                    },
                ),
            );
            &&& are_under_call(t.callstack, s.callstack, context.caller)
            &&& !t.skip_next_context
            &&& !t.record_transaction_event_only
            &&& touches_both(
                t.touched_accounts,
                s.touched_accounts,
                context.apparent_value,
                context.caller,
                code_address,
            )
            &&& s == (ListenerModel {
                callstack: s.callstack,
                skip_next_context: true,
                record_transaction_event_only: s.record_transaction_event_only,
                touched_accounts: s.touched_accounts,
                ..t
            })
        }),
{
    assert(flushed(s.callstack, Some(context.caller)) == s.callstack);
}

/// A creation notes the account as created and touched, and its creator as touched if it sends
/// something. Unless it repeats the start of the transaction it opens a frame that carries what the
/// report says.
pub proof fn create_opens_its_frame(
    s: ListenerModel,
    caller: H160,
    address: H160,
    scheme: CreateScheme,
    value: U256,
    init_code: Vec<u8>,
    target_gas: Option<u64>,
)
    requires
        ends_in_precompile(s.callstack) ==> s.callstack.last().to == caller,
    ensures
        ({
            let t = s.after(
                Event::Evm(
                    EvmEvent::Create { caller, address, scheme, value, init_code, target_gas },
                ),
            );
            let n = s.callstack.len() as int;
            &&& t.callstack.len() == if s.skip_next_context {
                n
            } else {
                n + 1
            }
            &&& are_under_call(t.callstack.take(n), s.callstack, caller)
            &&& !s.skip_next_context ==> {
                &&& is_entered(
                    t.callstack[n],
                    DebankCallType::Create,
                    caller,
                    address,
                    if target_gas is Some {
                        target_gas->0
                    } else {
                        0
                    },
                    value,
                    init_code@,
                )
                &&& !t.callstack[n].is_precompile
                &&& has_next_path(t.callstack)
            }
            &&& !t.skip_next_context
            &&& !t.record_transaction_event_only
            &&& forall|a: H160| #[trigger]
                t.created_accounts.contains(a) <==> s.created_accounts.contains(a) || a == address
            &&& forall|a: H160| #[trigger]
                t.touched_accounts.contains(a) <==> s.touched_accounts.contains(a) || a == address
                    || (value.value() != 0 && a == caller)
            &&& s == (ListenerModel {
                callstack: s.callstack,
                skip_next_context: s.skip_next_context,
                record_transaction_event_only: s.record_transaction_event_only,
                created_accounts: s.created_accounts,
                touched_accounts: s.touched_accounts,
                ..t
            })
        }),
{
    assert(flushed(s.callstack, Some(caller)) == s.callstack);
}

/// The call of a precompile opens a frame of its own, which carries what the report says, and is
/// marked as a precompile.
#[verifier::rlimit(40)]
pub proof fn precompile_opens_its_frame(
    s: ListenerModel,
    code_address: H160,
    transfer: Option<Transfer>,
    input: Vec<u8>,
    target_gas: Option<u64>,
    is_static: bool,
    context: Context,
)
    requires
        ends_in_precompile(s.callstack) ==> s.callstack.last().to == context.caller,
    ensures
        ({
            let t = s.after(
                Event::Evm(
                    EvmEvent::PrecompileSubcall {
                        code_address,
                        transfer,
                        input,
                        target_gas,
                        is_static,
                        context,
                    },
                ),
            );
            let n = s.callstack.len() as int;
            &&& t.callstack.len() == n + 1
            &&& are_under_call(t.callstack.take(n), s.callstack, context.caller)
            &&& is_entered(
                t.callstack[n],
                DebankCallType::Call,
                context.caller,
                code_address,
                if target_gas is Some {
                    target_gas->0
                } else {
                    0
                },
                context.apparent_value,
                input@,
            )
            &&& t.callstack[n].is_precompile
            &&& has_next_path(t.callstack)
            &&& touches_both(
                t.touched_accounts,
                s.touched_accounts,
                context.apparent_value,
                context.caller,
                code_address,
            )
            &&& s == (ListenerModel {
                callstack: s.callstack,
                touched_accounts: s.touched_accounts,
                ..t
            })
        }),
{
    assert(flushed(s.callstack, Some(context.caller)) == s.callstack);
}

/// The start of a transaction that calls an account opens its root frame, which carries what the
/// report says; the report that repeats it is to be skipped.
pub proof fn transaction_opens_its_root(
    s: ListenerModel,
    caller: H160,
    address: H160,
    value: U256,
    data: Vec<u8>,
    gas_limit: u64,
)
    ensures
        ({
            let t = s.after(
                Event::Evm(EvmEvent::TransactCall { caller, address, value, data, gas_limit }),
            );
            let n = s.callstack.len() as int;
            &&& t.callstack.len() == n + 1
            &&& t.callstack.take(n) == s.callstack
            &&& is_entered(
                t.callstack[n],
                DebankCallType::Call,
                caller,
                address,
                gas_limit,
                value,
                data@,
            )
            &&& !t.callstack[n].is_precompile
            &&& t.callstack[n].trace_address.len() == 0
            &&& t.skip_next_context
            &&& t.version == TracingVersion::EarlyTransact
            &&& !t.record_transaction_event_only
            &&& forall|a: H160| #[trigger]
                t.touched_accounts.contains(a) <==> s.touched_accounts.contains(a) || a == caller
                    || (value.value() != 0 && a == address)
            &&& s == (ListenerModel {
                callstack: s.callstack,
                skip_next_context: s.skip_next_context,
                version: s.version,
                record_transaction_event_only: s.record_transaction_event_only,
                touched_accounts: s.touched_accounts,
                ..t
            })
        }),
{
    let t = s.after(
        Event::Evm(EvmEvent::TransactCall { caller, address, value, data, gas_limit }),
    );
    assert(t.callstack.take(s.callstack.len() as int) =~= s.callstack);
}

/// The start of a transaction that creates a contract, in either way, opens its root frame, which
/// carries what the report says, and notes the account as created.
pub proof fn creating_transaction_opens_its_root(
    s: ListenerModel,
    caller: H160,
    value: U256,
    init_code: Vec<u8>,
    salt: H256,
    gas_limit: u64,
    address: H160,
)
    ensures
        ({
            let t = s.after(
                Event::Evm(
                    EvmEvent::TransactCreate { caller, value, init_code, gas_limit, address },
                ),
            );
            let n = s.callstack.len() as int;
            &&& t == s.after(
                Event::Evm(
                    EvmEvent::TransactCreate2 {
                        caller,
                        value,
                        init_code,
                        salt,
                        gas_limit,
                        address,
                    },
                ),
            )
            &&& t.callstack.len() == n + 1
            &&& t.callstack.take(n) == s.callstack
            &&& is_entered(
                t.callstack[n],
                DebankCallType::Create,
                caller,
                address,
                gas_limit,
                value,
                init_code@,
            )
            &&& !t.callstack[n].is_precompile
            &&& t.callstack[n].trace_address.len() == 0
            &&& t.skip_next_context
            &&& t.version == TracingVersion::EarlyTransact
            &&& !t.record_transaction_event_only
            &&& forall|a: H160| #[trigger]
                t.touched_accounts.contains(a) <==> s.touched_accounts.contains(a) || a == caller
                    || a == address
            &&& forall|a: H160| #[trigger]
                t.created_accounts.contains(a) <==> s.created_accounts.contains(a) || a == address
            &&& s == (ListenerModel {
                callstack: s.callstack,
                skip_next_context: s.skip_next_context,
                version: s.version,
                record_transaction_event_only: s.record_transaction_event_only,
                touched_accounts: s.touched_accounts,
                created_accounts: s.created_accounts,
                ..t
            })
        }),
{
    let t = s.after(
        Event::Evm(EvmEvent::TransactCreate { caller, value, init_code, gas_limit, address }),
    );
    assert(t.callstack.take(s.callstack.len() as int) =~= s.callstack);
}

/// A contract that destroys itself is noted as deleted, and becomes the last call of the frame it
/// does so in: from the contract to the one that gets its balance.
pub proof fn destruction_is_a_call(s: ListenerModel, address: H160, target: H160, balance: U256)
    requires
        !ends_in_precompile(s.callstack),
    ensures
        ({
            let t = s.after(Event::Evm(EvmEvent::Suicide { address, target, balance }));
            let n = s.callstack.len() as int;
            &&& t.callstack.len() == n
            &&& forall|i: int| 0 <= i < n - 1 ==> #[trigger] t.callstack[i] == s.callstack[i]
            &&& n > 0 ==> {
                let f = s.callstack[n - 1];
                let g = t.callstack[n - 1];
                let c = g.calls.last();
                &&& f == (FrameModel { calls: f.calls, ..g })
                &&& g.calls.len() == f.calls.len() + 1
                &&& g.calls.drop_last() == f.calls
                &&& is_entered(
                    FrameModel { pos_in_parent_trace: 0, ..c },
                    DebankCallType::Suicide,
                    address,
                    target,
                    0,
                    balance,
                    seq![],
                )
                &&& !c.is_precompile
                &&& c.trace_address == f.trace_address.push(f.calls.len())
                &&& c.pos_in_parent_trace == f.calls.len() + f.logs.len()
            }
            &&& forall|a: H160| #[trigger]
                t.deleted_accounts.contains(a) <==> s.deleted_accounts.contains(a) || a == address
            &&& forall|a: H160| #[trigger]
                t.touched_accounts.contains(a) <==> s.touched_accounts.contains(a) || a == address
                    || (balance.value() != 0 && a == target)
            &&& s == (ListenerModel {
                callstack: s.callstack,
                deleted_accounts: s.deleted_accounts,
                touched_accounts: s.touched_accounts,
                ..t
            })
        }),
{
    let t = s.after(Event::Evm(EvmEvent::Suicide { address, target, balance }));
    let n = s.callstack.len() as int;
    assert(flushed(s.callstack, None) == s.callstack);
    if n > 0 {
        assert(t.callstack[n - 1].calls.drop_last() =~= s.callstack[n - 1].calls);
    }
}

/// A log becomes the last log of the frame it is emitted in, with its address, topics and data, its
/// place behind all calls and logs there are, and the next running number.
pub proof fn log_is_noted(s: ListenerModel, address: H160, topics: Vec<H256>, data: Vec<u8>)
    requires
        !ends_in_precompile(s.callstack),
    ensures
        ({
            let t = s.after(Event::Evm(EvmEvent::Log { address, topics, data }));
            let n = s.callstack.len() as int;
            &&& n == 0 ==> t == s
            &&& n > 0 ==> {
                let f = s.callstack[n - 1];
                let g = t.callstack[n - 1];
                let l = g.logs.last();
                &&& t.callstack.len() == n
                &&& forall|i: int| 0 <= i < n - 1 ==> #[trigger] t.callstack[i] == s.callstack[i]
                &&& f == (FrameModel { logs: f.logs, ..g })
                &&& g.logs.len() == f.logs.len() + 1
                &&& g.logs.drop_last() == f.logs
                &&& l.address == address
                &&& l.topics == topics@
                &&& l.data == data@
                &&& l.position == f.calls.len() + f.logs.len()
                &&& l.log_index == s.global_log_index
                &&& t.global_log_index == s.global_log_index + 1
                &&& s == (ListenerModel {
                    callstack: s.callstack,
                    global_log_index: s.global_log_index,
                    ..t
                })
            }
        }),
{
    let t = s.after(Event::Evm(EvmEvent::Log { address, topics, data }));
    let n = s.callstack.len() as int;
    assert(flushed(s.callstack, None) == s.callstack);
    if n > 0 {
        assert(t.callstack[n - 1].logs.drop_last() =~= s.callstack[n - 1].logs);
    }
}

/// After a write to storage the slot of the account holds the value; every other slot of every
/// account holds what it did. The frame that wrote is marked.
pub proof fn write_is_noted(s: ListenerModel, address: H160, index: H256, value: H256)
    requires
        !ends_in_precompile(s.callstack),
    ensures
        ({
            let t = s.after(Event::Runtime(RuntimeEvent::SStore { address, index, value }));
            let n = s.callstack.len() as int;
            &&& t.storage_changes.contains_key(address)
            &&& t.storage_changes[address].contains_key(index)
            &&& t.storage_changes[address][index] == value
            &&& forall|k: H256|
                k != index ==> {
                    &&& (#[trigger] t.storage_changes[address].contains_key(k)) == (
                    s.storage_changes.contains_key(address)
                        && s.storage_changes[address].contains_key(k))
                    &&& t.storage_changes[address].contains_key(k) ==> t.storage_changes[address][k]
                        == s.storage_changes[address][k]
                }
            &&& forall|a: H160|
                a != address ==> {
                    &&& (#[trigger] t.storage_changes.contains_key(a))
                        == s.storage_changes.contains_key(a)
                    &&& t.storage_changes.contains_key(a) ==> t.storage_changes[a]
                        == s.storage_changes[a]
                }
            &&& t.callstack.len() == n
            &&& forall|i: int| 0 <= i < n - 1 ==> #[trigger] t.callstack[i] == s.callstack[i]
            &&& n > 0 ==> {
                let f = s.callstack[n - 1];
                let g = t.callstack[n - 1];
                &&& g.self_storage_change
                &&& g.storage_change
                &&& f == (FrameModel {
                    self_storage_change: f.self_storage_change,
                    storage_change: f.storage_change,
                    ..g
                })
            }
            &&& s == (ListenerModel {
                callstack: s.callstack,
                storage_changes: s.storage_changes,
                ..t
            })
        }),
{
    assert(flushed(s.callstack, None) == s.callstack);
}

/// A reading of the gas meter tells the innermost frame what it has left: the limit less what is
/// used and held by memory. The first reading is also what the frame started with.
pub proof fn gas_is_read(s: ListenerModel, event: GasometerEvent, snapshot: Snapshot)
    requires
        match event {
            GasometerEvent::RecordCost { snapshot: x, .. } => x == snapshot,
            GasometerEvent::RecordStipend { snapshot: x, .. } => x == snapshot,
            GasometerEvent::RecordDynamicCost { snapshot: x, .. } => x == snapshot,
            _ => false,
        },
        snapshot.used_gas + snapshot.memory_gas <= snapshot.gas_limit,
    ensures
        ({
            let t = s.after(Event::Gasometer(event));
            let n = s.callstack.len() as int;
            &&& n == 0 ==> t == s
            &&& n > 0 ==> {
                let f = s.callstack[n - 1];
                let g = t.callstack[n - 1];
                &&& t.callstack.len() == n
                &&& forall|i: int| 0 <= i < n - 1 ==> #[trigger] t.callstack[i] == s.callstack[i]
                &&& g.gas_remaining + snapshot.used_gas + snapshot.memory_gas == snapshot.gas_limit
                &&& f.start_gas is None ==> g.start_gas == Some(g.gas_remaining)
                &&& f.start_gas is Some ==> g.start_gas == f.start_gas
                &&& f == (FrameModel {
                    gas_remaining: f.gas_remaining,
                    start_gas: f.start_gas,
                    ..g
                })
                &&& s == (ListenerModel { callstack: s.callstack, ..t })
            }
        }),
{
}

/// The cost of a transaction is kept, and it is noted that nothing else was reported; a refund
/// changes nothing.
pub proof fn cost_is_kept(s: ListenerModel, cost: u64, refund: i64, snapshot: Snapshot)
    ensures
        ({
            let t = s.after(Event::Gasometer(GasometerEvent::RecordTransaction { cost, snapshot }));
            &&& t.transaction_cost == cost
            &&& t.record_transaction_event_only
            &&& s == (ListenerModel {
                transaction_cost: s.transaction_cost,
                record_transaction_event_only: s.record_transaction_event_only,
                ..t
            })
        }),
        s.after(Event::Gasometer(GasometerEvent::RecordRefund { refund, snapshot })) == s,
{
}

/// A call opcode announces the type of the next call; any other opcode that stops the interpreter
/// announces nothing.
pub proof fn opcode_announces_a_call(s: ListenerModel, opcode: Vec<u8>, return_value: Vec<u8>)
    ensures
        ({
            let t = s.after(
                Event::Runtime(
                    RuntimeEvent::StepResult { result: Err(Capture::Trap(opcode)), return_value },
                ),
            );
            &&& s == (ListenerModel { call_type: s.call_type, ..t })
            &&& opcode@.len() > 0 && opcode@[0] == 0xF1 ==> t.call_type == Some(
                DebankCallType::Call,
            )
            &&& opcode@.len() > 0 && opcode@[0] == 0xF2 ==> t.call_type == Some(
                DebankCallType::CallCode,
            )
            &&& opcode@.len() > 0 && opcode@[0] == 0xF4 ==> t.call_type == Some(
                DebankCallType::DelegateCall,
            )
            &&& opcode@.len() > 0 && opcode@[0] == 0xFA ==> t.call_type == Some(
                DebankCallType::StaticCall,
            )
            &&& opcode@.len() == 0 || (opcode@[0] != 0xF1 && opcode@[0] != 0xF2 && opcode@[0]
                != 0xF4 && opcode@[0] != 0xFA) ==> t == s
        }),
{
}

/// Steps, steps that go on, and reads of storage change nothing.
pub proof fn other_steps_change_nothing(s: ListenerModel, event: RuntimeEvent)
    requires
        match event {
            RuntimeEvent::Step { .. } => true,
            RuntimeEvent::SLoad { .. } => true,
            RuntimeEvent::StepResult { result, .. } => result is Ok,
            _ => false,
        },
    ensures
        s.after(Event::Runtime(event)) == s,
{
}

/// `g` is the frame `f` once it ended with `reason` and `output`. One that succeeded or was reverted
/// hands its output back; one that did not succeed has failed, and says why; a contract whose
/// creation broke down has no address. Its gas is what it started with, and what is no longer left
/// of that was used.
pub open spec fn is_ended(g: FrameModel, f: FrameModel, output: Seq<u8>, reason: ExitReason) -> bool {
    &&& g.exited
    &&& f.start_gas is Some ==> g.gas == f.start_gas->0
    &&& f.start_gas is None ==> g.gas == f.gas
    &&& g.gas >= f.gas_remaining ==> g.gas_used + f.gas_remaining == g.gas
    &&& g.gas < f.gas_remaining ==> g.gas_used == 0
    &&& match reason {
        ExitReason::Succeed(_) => g.output == output && g.failed == f.failed && g.error == f.error
            && g.to == f.to,
        ExitReason::Revert(_) => g.output == output && g.failed && g.error == "execution reverted"@
            && g.to == f.to,
        ExitReason::Error(e) => {
            &&& g.output == f.output
            &&& g.failed
            &&& says_why(g.error, e)
            &&& f.call_type == DebankCallType::Create ==> g.to.0@ == Seq::new(20, |i: int| 0u8)
            &&& f.call_type != DebankCallType::Create ==> g.to == f.to
        },
        ExitReason::Fatal(_) => g.output == f.output && g.failed && g.error == "fatal error"@
            && g.to == f.to,
    }
    &&& f == (FrameModel {
        exited: f.exited,
        gas: f.gas,
        gas_used: f.gas_used,
        output: f.output,
        failed: f.failed,
        error: f.error,
        to: f.to,
        ..g
    })
}

/// The text is the one for the error; one from outside brings its own.
pub open spec fn says_why(text: Seq<char>, e: ExitError) -> bool {
    &&& e is StackUnderflow ==> text == "stack underflow"@
    &&& e is StackOverflow ==> text == "stack overflow"@
    &&& e is InvalidJump ==> text == "invalid jump"@
    &&& e is InvalidRange ==> text == "invalid range"@
    &&& e is DesignatedInvalid ==> text == "designated invalid"@
    &&& e is CallTooDeep ==> text == "call too deep"@
    &&& e is CreateCollision ==> text == "create collision"@
    &&& e is CreateContractLimit ==> text == "create contract limit"@
    &&& e is OutOfOffset ==> text == "out of offset"@
    &&& e is OutOfGas ==> text == "out of gas"@
    &&& e is OutOfFund ==> text == "out of funds"@
    &&& e matches ExitError::Other(message) ==> text == message@
    &&& e is InvalidCode || e is PCUnderflow || e is CreateEmpty || e is MaxNonce ==> text
        == "unexpected error"@
}

/// `t` is `s` once its innermost frame ended: a root stays where it is, any other frame becomes the
/// last call of the frame around it. A contract whose creation failed is no longer noted as created.
pub open spec fn has_ended(
    t: ListenerModel,
    s: ListenerModel,
    output: Seq<u8>,
    reason: ExitReason,
) -> bool {
    let n = s.callstack.len() as int;
    &&& n == 0 ==> t.callstack == s.callstack && t.created_accounts == s.created_accounts
    &&& n == 1 ==> t.callstack.len() == 1 && is_ended(
        t.callstack[0],
        s.callstack[0],
        output,
        reason,
    )
    &&& n > 1 ==> {
        let p = s.callstack[n - 2];
        let q = t.callstack[n - 2];
        let c = q.calls.last();
        &&& t.callstack.len() == n - 1
        &&& forall|i: int| 0 <= i < n - 2 ==> #[trigger] t.callstack[i] == s.callstack[i]
        &&& p == (FrameModel { calls: p.calls, ..q })
        &&& q.calls.len() == p.calls.len() + 1
        &&& q.calls.drop_last() == p.calls
        &&& c.pos_in_parent_trace == p.calls.len() + p.logs.len()
        &&& is_ended(
            FrameModel { pos_in_parent_trace: s.callstack[n - 1].pos_in_parent_trace, ..c },
            s.callstack[n - 1],
            output,
            reason,
        )
    }
    &&& n > 0 ==> forall|a: H160| #[trigger]
        t.created_accounts.contains(a) <==> s.created_accounts.contains(a) && !(a
            == s.callstack[n - 1].to && s.callstack[n - 1].call_type == DebankCallType::Create && (
        s.callstack[n - 1].failed || reason !is Succeed))
}

/// A frame that ends is ended.
proof fn frame_is_ended(f: FrameModel, output: Seq<u8>, reason: ExitReason)
    ensures
        is_ended(ended(f, output, reason), f, output, reason),
        ended(f, output, reason).failed == (f.failed || reason !is Succeed),
{
    assert(H160::zero().0@ =~= Seq::new(20, |i: int| 0u8));
}

/// The end of a frame that is not idle, taken in.
proof fn end_is_taken_in(s: ListenerModel, reason: ExitReason, output: Seq<u8>)
    ensures
        has_ended(s.after_exit(reason, output), s, output, reason),
        ({
            let t = s.after_exit(reason, output);
            s == (ListenerModel {
                callstack: s.callstack,
                created_accounts: s.created_accounts,
                ..t
            })
        }),
{
    let t = s.after_exit(reason, output);
    let n = s.callstack.len() as int;
    if n > 0 {
        let top = s.callstack[n - 1];
        let done = ended(top, output, reason);
        frame_is_ended(top, output, reason);
        if n == 1 {
            assert(t.callstack[0] == done);
        } else {
            let q = t.callstack[n - 2];
            assert(q.calls.drop_last() =~= s.callstack[n - 2].calls);
            assert((FrameModel { pos_in_parent_trace: top.pos_in_parent_trace, ..q.calls.last() })
                == done);
        }
    }
}

/// The end of a frame that the interpreter reports. Where the machine will report it too, that is
/// noted.
pub proof fn step_ends_a_frame(s: ListenerModel, reason: ExitReason, return_value: Vec<u8>)
    requires
        ends_in_precompile(s.callstack) ==> s.callstack.last().had_subcall,
    ensures
        ({
            let t = s.after(
                Event::Runtime(
                    RuntimeEvent::StepResult { result: Err(Capture::Exit(reason)), return_value },
                ),
            );
            &&& has_ended(t, s, return_value@, reason)
            &&& s.version == TracingVersion::EarlyTransact ==> t.step_result_exit_count
                == s.step_result_exit_count + 1
            &&& s.version == TracingVersion::Legacy ==> t.step_result_exit_count
                == s.step_result_exit_count
            &&& s == (ListenerModel {
                callstack: s.callstack,
                created_accounts: s.created_accounts,
                step_result_exit_count: s.step_result_exit_count,
                ..t
            })
        }),
{
    assert(idle_flushed(s.callstack) == s.callstack);
    end_is_taken_in(s, reason, return_value@);
}

/// The end of a frame that the machine reports: it ends the frame, unless the interpreter has
/// reported it already, which is then settled.
pub proof fn exit_ends_a_frame(s: ListenerModel, reason: ExitReason, return_value: Vec<u8>)
    requires
        s.step_result_exit_count == 0 && ends_in_precompile(s.callstack)
            ==> s.callstack.last().had_subcall,
    ensures
        ({
            let t = s.after(Event::Evm(EvmEvent::Exit { reason, return_value }));
            &&& !t.record_transaction_event_only
            &&& s.step_result_exit_count > 0 ==> {
                &&& t.step_result_exit_count == s.step_result_exit_count - 1
                &&& s == (ListenerModel {
                    step_result_exit_count: s.step_result_exit_count,
                    record_transaction_event_only: s.record_transaction_event_only,
                    ..t
                })
            }
            &&& s.step_result_exit_count == 0 ==> {
                &&& has_ended(t, s, return_value@, reason)
                &&& s == (ListenerModel {
                    callstack: s.callstack,
                    created_accounts: s.created_accounts,
                    record_transaction_event_only: s.record_transaction_event_only,
                    ..t
                })
            }
        }),
{
    if s.step_result_exit_count == 0 {
        assert(idle_flushed(s.callstack) == s.callstack);
        end_is_taken_in(
            ListenerModel { record_transaction_event_only: false, ..s },
            reason,
            return_value@,
        );
    }
}

/// `h` is `g` but for the flags that depend on the tree, which may differ in the calls too.
pub open spec fn differs_in_flags(h: FrameModel, g: FrameModel) -> bool {
    &&& h.calls.len() == g.calls.len()
    &&& g == (FrameModel {
        calls: g.calls,
        parent_failed: g.parent_failed,
        storage_change: g.storage_change,
        ..h
    })
}

/// The frame is marked exactly if it was, or if one of its calls is marked and did not fail.
pub open spec fn is_marked_by_calls(h: FrameModel, g: FrameModel) -> bool {
    h.storage_change == (g.storage_change || exists|i: int|
        0 <= i < h.calls.len() && (#[trigger] h.calls[i]).storage_change && !h.calls[i].failed)
}

/// The frame wrote to the storage of the account: its own, or that of its caller if it is a delegate
/// call.
pub open spec fn wrote_for(f: FrameModel, a: H160) -> bool {
    &&& f.self_storage_change
    &&& a == if f.call_type == DebankCallType::DelegateCall {
        f.from
    } else {
        f.to
    }
}

/// Working out the flags of the tree changes nothing but these flags, anywhere in it.
#[verifier::rlimit(40)]
proof fn only_flags_change(f: FrameModel, above: bool, path: Seq<nat>)
    ensures
        ({
            let t = with_storage_change(with_parent_failed(f, above));
            let h = frame_at(t, path);
            let g = frame_at(f, path);
            &&& (h is Some) == (g is Some)
            &&& g is Some ==> differs_in_flags(h->0, g->0) && is_marked_by_calls(h->0, g->0)
        }),
    decreases path.len(),
{
    let told = with_parent_failed(f, above);
    let t = with_storage_change(told);
    if path.len() > 0 && path[0] < f.calls.len() {
        let i = path[0] as int;
        let failed = f.failed || above;
        let child = f.calls[i];
        let inner = with_parent_failed(child, failed);
        let rest = path.drop_first();
        only_flags_change(child, failed, rest);
        assert(told.calls[i] == (FrameModel { parent_failed: failed, ..inner }));
        assert(t.calls[i] == with_storage_change(told.calls[i]));
        assert(with_storage_change(told.calls[i]).calls =~= with_storage_change(inner).calls);
        assert(with_storage_change(told.calls[i]).storage_change == with_storage_change(
            inner,
        ).storage_change);
        if rest.len() > 0 {
            assert(frame_at(t.calls[i], rest) == frame_at(with_storage_change(inner), rest));
        }
    }
}

/// The contracts noted for a tree are those that one of its frames wrote for.
proof fn writers_are_those_who_wrote(f: FrameModel, a: H160)
    ensures
        storage_writers(f).contains(a) == exists|path: Seq<nat>|
            (#[trigger] frame_at(f, path)) is Some && wrote_for(frame_at(f, path)->0, a),
    decreases f, f.calls.len() + 1,
{
    writers_below_are_those_who_wrote(f, f.calls.len() as int, a);
    let none: Seq<nat> = seq![];
    assert(frame_at(f, none) == Some(f));
    if storage_writers_below(f, f.calls.len() as int).contains(a) {
        let (i, rest) = choose|i: int, rest: Seq<nat>|
            0 <= i < f.calls.len() && (#[trigger] frame_at(f.calls[i], rest)) is Some && wrote_for(
                frame_at(f.calls[i], rest)->0,
                a,
            );
        let path = seq![i as nat] + rest;
        assert(path.drop_first() =~= rest);
        assert(frame_at(f, path) == frame_at(f.calls[i], rest));
    }
    if exists|path: Seq<nat>|
        (#[trigger] frame_at(f, path)) is Some && wrote_for(frame_at(f, path)->0, a) {
        let path = choose|path: Seq<nat>|
            (#[trigger] frame_at(f, path)) is Some && wrote_for(frame_at(f, path)->0, a);
        if path.len() > 0 {
            let i = path[0] as int;
            let rest = path.drop_first();
            assert(frame_at(f.calls[i], rest) is Some);
            assert(storage_writers_below(f, f.calls.len() as int).contains(a));
        }
    }
}

/// The same for the first `n` calls of a frame.
proof fn writers_below_are_those_who_wrote(f: FrameModel, n: int, a: H160)
    requires
        0 <= n <= f.calls.len(),
    ensures
        storage_writers_below(f, n).contains(a) == exists|i: int, rest: Seq<nat>|
            0 <= i < n && (#[trigger] frame_at(f.calls[i], rest)) is Some && wrote_for(
                frame_at(f.calls[i], rest)->0,
                a,
            ),
    decreases f, n,
{
    if n > 0 {
        writers_below_are_those_who_wrote(f, n - 1, a);
        writers_are_those_who_wrote(f.calls[n - 1], a);
        if storage_writers(f.calls[n - 1]).contains(a) {
            let rest = choose|rest: Seq<nat>|
                (#[trigger] frame_at(f.calls[n - 1], rest)) is Some && wrote_for(
                    frame_at(f.calls[n - 1], rest)->0,
                    a,
                );
            assert(frame_at(f.calls[n - 1], rest) is Some);
        }
        if exists|i: int, rest: Seq<nat>|
            0 <= i < n && (#[trigger] frame_at(f.calls[i], rest)) is Some && wrote_for(
                frame_at(f.calls[i], rest)->0,
                a,
            ) {
            let (i, rest) = choose|i: int, rest: Seq<nat>|
                0 <= i < n && (#[trigger] frame_at(f.calls[i], rest)) is Some && wrote_for(
                    frame_at(f.calls[i], rest)->0,
                    a,
                );
            if i < n - 1 {
                assert(storage_writers_below(f, n - 1).contains(a));
            } else {
                assert(storage_writers(f.calls[n - 1]).contains(a));
            }
        }
    }
}

/// The end of a transaction hands over its root frame and forgets what belongs to the transaction.
/// A root whose end was reported is kept as it is, but for its flag for storage; one whose end was
/// not reported counts as failed, and its gas is settled.
pub proof fn finishing_keeps_the_root(s: ListenerModel)
    requires
        !ends_in_precompile(s.callstack),
        s.callstack.len() > 0,
    ensures
        ({
            let t = s.finished();
            let n = s.completed_frames.len() as int;
            let f = s.callstack[0];
            let g = t.completed_frames[n];
            &&& t.completed_frames.len() == n + 1
            &&& t.completed_frames.take(n) == s.completed_frames
            &&& g.calls.len() == f.calls.len()
            &&& f.exited ==> differs_in_flags(g, f)
            &&& !f.exited ==> {
                &&& g.failed
                &&& g.error
                    == "early exit (out of gas, stack overflow, direct call to precompile, ...)"@
                &&& f.start_gas is Some ==> g.gas == f.start_gas->0
                &&& f.start_gas is None ==> g.gas == f.gas
                &&& g.gas >= f.gas_remaining ==> g.gas_used + f.gas_remaining == g.gas
                &&& g.gas < f.gas_remaining ==> g.gas_used == 0
                &&& differs_in_flags(
                    FrameModel {
                        failed: f.failed,
                        error: f.error,
                        gas: f.gas,
                        gas_used: f.gas_used,
                        ..g
                    },
                    f,
                )
            }
            &&& g.parent_failed == f.parent_failed
            &&& is_marked_by_calls(g, f)
            &&& t.callstack.len() == 0
            &&& !t.skip_next_context
            &&& t.call_type is None
            &&& t.step_result_exit_count == 0
            &&& !t.record_transaction_event_only
            &&& s == (ListenerModel {
                completed_frames: s.completed_frames,
                storage_contracts: s.storage_contracts,
                callstack: s.callstack,
                skip_next_context: s.skip_next_context,
                call_type: s.call_type,
                step_result_exit_count: s.step_result_exit_count,
                record_transaction_event_only: s.record_transaction_event_only,
                ..t
            })
        }),
{
    let t = s.finished();
    assert(flushed(s.callstack, None) == s.callstack);
    assert(t.completed_frames.take(s.completed_frames.len() as int) =~= s.completed_frames);
    let f = s.callstack[0];
    let none: Seq<nat> = seq![];
    let closed = if f.exited {
        f
    } else {
        crate::frame::with_gas_settled(
            FrameModel {
                failed: true,
                error: "early exit (out of gas, stack overflow, direct call to precompile, ...)"@,
                ..f
            },
        )
    };
    only_flags_change(closed, false, none);
}

/// The end of a transaction keeps every frame below the root in its place and as it was, but for the
/// flags that depend on the tree: a frame knows whether one above it failed, and is marked exactly if
/// it was or if one of its calls is marked and did not fail.
pub proof fn finishing_keeps_the_tree(s: ListenerModel, path: Seq<nat>)
    requires
        !ends_in_precompile(s.callstack),
        s.callstack.len() > 0,
        path.len() > 0,
    ensures
        ({
            let root = s.finished().completed_frames.last();
            let g = frame_at(s.callstack[0], path);
            let h = frame_at(root, path);
            &&& (h is Some) == (g is Some)
            &&& g is Some ==> {
                &&& differs_in_flags(h->0, g->0)
                &&& is_marked_by_calls(h->0, g->0)
                &&& h->0.parent_failed == failed_above(root, path)
            }
        }),
{
    assert(flushed(s.callstack, None) == s.callstack);
    let f = s.callstack[0];
    let closed = if f.exited {
        f
    } else {
        crate::frame::with_gas_settled(
            FrameModel {
                failed: true,
                error: "early exit (out of gas, stack overflow, direct call to precompile, ...)"@,
                ..f
            },
        )
    };
    assert(frame_at(closed, path) == frame_at(f, path));
    only_flags_change(closed, false, path);
    if frame_at(f, path) is Some {
        parent_failed_means_failure_above(f, path);
    }
}

/// After the end of a transaction the contracts with changed storage are those there were, and those
/// that a frame of the transaction wrote for.
pub proof fn finishing_notes_who_wrote(s: ListenerModel, a: H160)
    requires
        !ends_in_precompile(s.callstack),
        s.callstack.len() > 0,
    ensures
        s.finished().storage_contracts.contains(a) == (s.storage_contracts.contains(a) || exists|
            path: Seq<nat>,
        |
            (#[trigger] frame_at(s.finished().completed_frames.last(), path)) is Some && wrote_for(
                frame_at(s.finished().completed_frames.last(), path)->0,
                a,
            )),
{
    assert(flushed(s.callstack, None) == s.callstack);
    let root = s.finished().completed_frames.last();
    let settled = ListenerModel::settled_root(s.callstack[0]);
    assert(root == with_storage_change(settled));
    writers_are_those_who_wrote(settled, a);
    if exists|path: Seq<nat>|
        (#[trigger] frame_at(settled, path)) is Some && wrote_for(frame_at(settled, path)->0, a) {
        let path = choose|path: Seq<nat>|
            (#[trigger] frame_at(settled, path)) is Some && wrote_for(
                frame_at(settled, path)->0,
                a,
            );
        storage_change_moves_nothing(settled, path);
        assert(frame_at(root, path) is Some);
    }
    if exists|path: Seq<nat>|
        (#[trigger] frame_at(root, path)) is Some && wrote_for(frame_at(root, path)->0, a) {
        let path = choose|path: Seq<nat>|
            (#[trigger] frame_at(root, path)) is Some && wrote_for(frame_at(root, path)->0, a);
        storage_change_moves_nothing(settled, path);
        assert(frame_at(settled, path) is Some);
    }
}

/// A transaction of which nothing but its cost was reported leaves a failed call without anything in
/// it; one of which nothing at all was reported leaves nothing.
pub proof fn finishing_without_frames(s: ListenerModel)
    requires
        s.callstack.len() == 0,
    ensures
        ({
            let t = s.finished();
            let n = s.completed_frames.len() as int;
            &&& t.storage_contracts == s.storage_contracts
            &&& t.callstack.len() == 0
            &&& !s.record_transaction_event_only ==> t.completed_frames == s.completed_frames
            &&& s.record_transaction_event_only ==> {
                let g = t.completed_frames[n];
                let zeros = Seq::new(20, |i: int| 0u8);
                &&& t.completed_frames.len() == n + 1
                &&& t.completed_frames.take(n) == s.completed_frames
                &&& g.failed
                &&& g.error == "transaction could not pay its own data cost"@
                &&& g.from.0@ == zeros
                &&& g.to.0@ == zeros
                &&& g.value.value() == 0
                &&& g.trace_address.len() == 0
                &&& !g.is_precompile
                &&& is_entered(
                    FrameModel { failed: false, error: seq![], ..g },
                    DebankCallType::Call,
                    g.from,
                    g.to,
                    0,
                    g.value,
                    seq![],
                )
            }
        }),
{
    let t = s.finished();
    assert(H160::zero().0@ =~= Seq::new(20, |i: int| 0u8));
    if s.record_transaction_event_only {
        assert(t.completed_frames.take(s.completed_frames.len() as int) =~= s.completed_frames);
    }
}

/// The first marker between transactions only says that the first one starts; any later one ends the
/// transaction before it.
pub proof fn marker_ends_the_transaction(s: ListenerModel)
    ensures
        !s.first_transaction ==> s.after(Event::CallListNew()) == s.finished(),
        s.first_transaction ==> {
            &&& !s.after(Event::CallListNew()).first_transaction
            &&& s == (ListenerModel { first_transaction: true, ..s.after(Event::CallListNew()) })
        },
{
}

/// Before anything is reported there is nothing: no frames, no accounts, no writes, and the first
/// log has number zero.
pub proof fn nothing_at_first()
    ensures
        ({
            let s = ListenerModel::initial();
            &&& s.callstack.len() == 0
            &&& s.completed_frames.len() == 0
            &&& s.transaction_cost == 0
            &&& forall|a: H160| !(#[trigger] s.created_accounts.contains(a))
            &&& forall|a: H160| !(#[trigger] s.deleted_accounts.contains(a))
            &&& forall|a: H160| !(#[trigger] s.touched_accounts.contains(a))
            &&& forall|a: H160| !(#[trigger] s.storage_contracts.contains(a))
            &&& forall|a: H160| !(#[trigger] s.storage_changes.contains_key(a))
            &&& s.call_type is None
            &&& !s.skip_next_context
            &&& s.first_transaction
            &&& s.global_log_index == 0
            &&& s.version == TracingVersion::Legacy
            &&& s.step_result_exit_count == 0
            &&& !s.record_transaction_event_only
        }),
{
}

/// An event is refused only if a frame is open and the meter it reports has spent more than it
/// had.
pub proof fn sound_meters_are_accepted(s: ListenerModel, event: Event, g: Snapshot)
    ensures
        g.balanced() == (g.used_gas + g.memory_gas <= g.gas_limit),
        s.callstack.len() == 0 ==> s.accepts(event),
        !(event is Gasometer) ==> s.accepts(event),
        event matches Event::Gasometer(GasometerEvent::RecordTransaction { .. }) ==> s.accepts(event),
        event matches Event::Gasometer(GasometerEvent::RecordRefund { .. }) ==> s.accepts(event),
        event matches Event::Gasometer(GasometerEvent::RecordCost { snapshot, .. })
            ==> snapshot.balanced() ==> s.accepts(event),
        event matches Event::Gasometer(GasometerEvent::RecordStipend { snapshot, .. })
            ==> snapshot.balanced() ==> s.accepts(event),
        event matches Event::Gasometer(GasometerEvent::RecordDynamicCost { snapshot, .. })
            ==> snapshot.balanced() ==> s.accepts(event),
{
}

} // verus!

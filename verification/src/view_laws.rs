//! The mathematical value of each type shows each of its fields.
use crate::block_trace::{
    tx_traces_view, TransactionTrace, TransactionTraceAction, TransactionTraceOutput,
    TransactionTraceResult,
};
use crate::cache::WaitListEntry;
use crate::formatter::{events_view, replies_view, texts_view, traces_view, Reply};
use crate::frame::{frames_view, logs_view, path_view, CallFrame, EventLog};
use crate::listener::Listener;
use crate::overlay::{entries_view, OverlayStateDelta};
use crate::primitives::H160;
use crate::simulate::{
    wire_events_view, wire_traces_view, DebankSingleCallResult, DebankSingleSimulateResult,
};
use crate::state_diff::{
    AccountStorageDiff, BlockStorageDiff, IndexValuePair, NewAccount, NewCode,
};
use vstd::prelude::*;

verus! {

/// A log entry is shown with its contract, topics, data, place and number.
pub proof fn log_shows_its_fields(l: EventLog)
    ensures
        l@.address == l.address,
        l@.topics == l.topics@,
        l@.data == l.data@,
        l@.position == l.position,
        l@.log_index == l.log_index,
{
}

/// A frame is shown with all its fields, and with its calls and logs in their order.
pub proof fn frame_shows_its_fields(f: CallFrame)
    ensures
        f@.call_type == f.call_type,
        f@.from == f.from,
        f@.to == f.to,
        f@.gas == f.gas,
        f@.gas_used == f.gas_used,
        f@.gas_remaining == f.gas_remaining,
        f@.start_gas == f.start_gas,
        f@.value == f.value,
        f@.pos_in_parent_trace == f.pos_in_parent_trace,
        f@.self_storage_change == f.self_storage_change,
        f@.storage_change == f.storage_change,
        f@.failed == f.failed,
        f@.parent_failed == f.parent_failed,
        f@.exited == f.exited,
        f@.is_precompile == f.is_precompile,
        f@.had_subcall == f.had_subcall,
        f@.input == f.input@,
        f@.output == f.output@,
        f@.error == f.error@,
        f@.calls.len() == f.calls@.len(),
        forall|i: int|
            0 <= i < f.calls@.len() ==> #[trigger] f@.calls[i] == f.calls@[i]@,
        f@.logs.len() == f.logs@.len(),
        forall|i: int|
            0 <= i < f.logs@.len() ==> #[trigger] f@.logs[i] == f.logs@[i]@,
        f@.trace_address.len() == f.trace_address@.len(),
        forall|i: int|
            0 <= i < f.trace_address@.len() ==> #[trigger] f@.trace_address[i]
                == f.trace_address@[i],
{
}

/// A listener is shown with all its fields: its frames in their order, its accounts, and what was
/// written to each account.
pub proof fn listener_shows_its_fields(l: Listener)
    ensures
        l@.transaction_cost == l.transaction_cost,
        l@.call_type == l.call_type,
        l@.skip_next_context == l.skip_next_context,
        l@.first_transaction == l.first_transaction,
        l@.global_log_index == l.global_log_index,
        l@.version == l.version,
        l@.step_result_exit_count == l.step_result_exit_count,
        l@.record_transaction_event_only == l.record_transaction_event_only,
        l@.created_accounts == l.created_accounts@,
        l@.deleted_accounts == l.deleted_accounts@,
        l@.touched_accounts == l.touched_accounts@,
        l@.storage_contracts == l.storage_contracts@,
        l@.callstack.len() == l.callstack@.len(),
        forall|i: int|
            0 <= i < l.callstack@.len() ==> #[trigger] l@.callstack[i] == l.callstack@[i]@,
        l@.completed_frames.len() == l.completed_frames@.len(),
        forall|i: int|
            0 <= i < l.completed_frames@.len() ==> #[trigger] l@.completed_frames[i]
                == l.completed_frames@[i]@,
        forall|a: H160| #[trigger]
            l@.storage_changes.contains_key(a) == l.storage_changes@.contains_key(a),
        forall|a: H160| #[trigger]
            l.storage_changes@.contains_key(a) ==> l@.storage_changes[a] == l.storage_changes@[a]@,
{
}

/// A trace is shown with all its fields.
pub proof fn trace_shows_its_fields(t: crate::formatter::DebankTrace)
    ensures
        t@.from_addr == t.from_addr,
        t@.gas_limit == t.gas_limit,
        t@.to_addr == t.to_addr,
        t@.value == t.value,
        t@.gas_used == t.gas_used,
        t@.tx_id == t.tx_id,
        t@.pos_in_parent_trace == t.pos_in_parent_trace,
        t@.self_storage_change == t.self_storage_change,
        t@.storage_change == t.storage_change,
        t@.subtraces == t.subtraces,
        t@.id == t.id@,
        t@.input == t.input@,
        t@.output == t.output@,
        t@.call_create_type == t.call_create_type@,
        t@.call_type == t.call_type@,
        t@.parent_trace_id == t.parent_trace_id@,
        t@.error == t.error@,
        t@.trace_address.len() == t.trace_address@.len(),
        forall|i: int|
            0 <= i < t.trace_address@.len() ==> #[trigger] t@.trace_address[i]
                == t.trace_address@[i],
{
}

/// An event is shown with all its fields.
pub proof fn event_shows_its_fields(e: crate::formatter::DebankEvent)
    ensures
        e@.contract_id == e.contract_id,
        e@.tx_id == e.tx_id,
        e@.pos_in_parent_trace == e.pos_in_parent_trace,
        e@.idx == e.idx,
        e@.id == e.id@,
        e@.selector == e.selector@,
        e@.data == e.data@,
        e@.parent_trace_id == e.parent_trace_id@,
        e@.topics.len() == e.topics@.len(),
        forall|i: int|
            0 <= i < e.topics@.len() ==> #[trigger] e@.topics[i] == e.topics@[i]@,
{
}

/// A call of a simulation is shown with all its fields.
pub proof fn simulated_trace_shows_its_fields(t: crate::simulate::DebankTrace)
    ensures
        t@.from_addr == t.from_addr,
        t@.gas_limit == t.gas_limit,
        t@.to_addr == t.to_addr,
        t@.value == t.value,
        t@.gas_used == t.gas_used,
        t@.tx_id == t.tx_id,
        t@.pos_in_parent_trace == t.pos_in_parent_trace,
        t@.self_storage_change == t.self_storage_change,
        t@.storage_change == t.storage_change,
        t@.id == t.id@,
        t@.input == t.input@,
        t@.output == t.output@,
        t@.call_create_type == t.call_create_type@,
        t@.call_type == t.call_type@,
        t@.parent_trace_id == t.parent_trace_id@,
{
}

/// A log entry of a simulation is shown with all its fields.
pub proof fn simulated_event_shows_its_fields(e: crate::simulate::DebankEvent)
    ensures
        e@.contract_id == e.contract_id,
        e@.tx_id == e.tx_id,
        e@.pos_in_parent_trace == e.pos_in_parent_trace,
        e@.id == e.id@,
        e@.selector == e.selector@,
        e@.data == e.data@,
        e@.parent_trace_id == e.parent_trace_id@,
        e@.topics.len() == e.topics@.len(),
        forall|i: int|
            0 <= i < e.topics@.len() ==> #[trigger] e@.topics[i] == e.topics@[i]@,
{
}

/// The results of simulations and read-only calls are shown with all their fields.
pub proof fn results_show_their_fields(s: DebankSingleSimulateResult, c: DebankSingleCallResult)
    ensures
        s@.code == s.code,
        s@.err == s.err@,
        s@.gas_used == s.gas_used,
        s@.traces.len() == s.traces@.len(),
        forall|i: int|
            0 <= i < s.traces@.len() ==> #[trigger] s@.traces[i] == s.traces@[i]@,
        s@.events.len() == s.events@.len(),
        forall|i: int|
            0 <= i < s.events@.len() ==> #[trigger] s@.events[i] == s.events@[i]@,
        c@.code == c.code,
        c@.err == c.err@,
        c@.from_cache == c.from_cache,
        c@.result == c.result@,
        c@.gas_used == c.gas_used,
{
}

/// A state diff and each of its parts is shown with all its fields, and with its lists in their
/// order.
pub proof fn diff_shows_its_fields(
    d: BlockStorageDiff,
    a: NewAccount,
    c: NewCode,
    p: IndexValuePair,
    t: AccountStorageDiff,
)
    ensures
        d@.hash == d.hash,
        d@.parent_hash == d.parent_hash,
        d@.deleted_accounts == d.deleted_accounts@,
        d@.new_accounts.len() == d.new_accounts@.len(),
        forall|i: int|
            0 <= i < d.new_accounts@.len() ==> #[trigger] d@.new_accounts[i] == d.new_accounts@[i]@,
        d@.storage_diff.len() == d.storage_diff@.len(),
        forall|i: int|
            0 <= i < d.storage_diff@.len() ==> #[trigger] d@.storage_diff[i] == d.storage_diff@[i]@,
        d@.new_codes.len() == d.new_codes@.len(),
        forall|i: int|
            0 <= i < d.new_codes@.len() ==> #[trigger] d@.new_codes[i] == d.new_codes@[i]@,
        a@.address == a.address,
        a@.balance == a.balance.value(),
        a@.nonce == a.nonce,
        a@.code_hash == a.code_hash,
        c@.code_hash == c.code_hash,
        c@.code == c.code@,
        p@.index == p.index,
        p@.value == p.value.value(),
        t@.address == t.address,
        t@.values.len() == t.values@.len(),
        forall|i: int|
            0 <= i < t.values@.len() ==> #[trigger] t@.values[i] == t.values@[i]@,
{
}

/// The trace of a call of a block is shown with all its fields.
pub proof fn block_trace_shows_its_fields(t: TransactionTrace)
    ensures
        t@.action == t.action@,
        t@.block_hash == t.block_hash,
        t@.block_number == t.block_number,
        t@.output == t.output@,
        t@.subtraces == t.subtraces,
        t@.trace_address == t.trace_address@,
        t@.transaction_hash == t.transaction_hash,
        t@.transaction_position == t.transaction_position,
{
}

/// What a call did is shown under its own name, with all its fields.
pub proof fn action_shows_its_fields(a: TransactionTraceAction)
    ensures
        a matches TransactionTraceAction::Call { call_type, from, gas, input, to, value } ==> {
            &&& a@ is Call
            &&& a@->Call_call_type == call_type
            &&& a@->Call_from == from
            &&& a@->Call_gas == gas
            &&& a@->input == input@
            &&& a@->to == to
            &&& a@->Call_value == value
        },
        a matches TransactionTraceAction::Create { creation_method, from, gas, init, value } ==> {
            &&& a@ is Create
            &&& a@->creation_method == creation_method
            &&& a@->Create_from == from
            &&& a@->Create_gas == gas
            &&& a@->init == init@
            &&& a@->Create_value == value
        },
        a matches TransactionTraceAction::Suicide { address, balance, refund_address } ==> {
            &&& a@ is Suicide
            &&& a@->address == address
            &&& a@->balance == balance
            &&& a@->refund_address == refund_address
        },
{
}

/// How a call ended is shown under its own name, with all its fields.
pub proof fn outcome_shows_its_fields(o: TransactionTraceOutput)
    ensures
        o matches TransactionTraceOutput::Error(message) ==> o@ is Error && o@->message == message@,
        o matches TransactionTraceOutput::Result(
            TransactionTraceResult::Call { gas_used, output },
        ) ==> {
            &&& o@ is Call
            &&& o@->Call_gas_used == gas_used
            &&& o@->output == output@
        },
        o matches TransactionTraceOutput::Result(
            TransactionTraceResult::Create { address, code, gas_used },
        ) ==> {
            &&& o@ is Create
            &&& o@->address == address
            &&& o@->code == code@
            &&& o@->Create_gas_used == gas_used
        },
        o matches TransactionTraceOutput::Result(TransactionTraceResult::Suicide) ==> o@ is Suicide,
{
}

/// What a block changed is shown with all its fields.
pub proof fn delta_shows_its_fields(d: OverlayStateDelta)
    ensures
        d@.changed_accounts == d.changed_accounts@,
        d@.deleted_accounts == d.deleted_accounts@,
        forall|a: H160| #[trigger]
            d@.storage_diff.contains_key(a) == d.storage_diff@.contains_key(a),
        forall|a: H160| #[trigger]
            d.storage_diff@.contains_key(a) ==> d@.storage_diff[a] == d.storage_diff@[a]@,
        forall|a: H160| #[trigger]
            d@.code_updates.contains_key(a) == d.code_updates@.contains_key(a),
        forall|a: H160| #[trigger]
            d.code_updates@.contains_key(a) ==> d@.code_updates[a] == d.code_updates@[a]@,
{
}

/// What waits for a block is shown with the time and the waiting requests.
pub proof fn entry_shows_its_fields(e: WaitListEntry)
    ensures
        e@.created_at == e.created_at,
        e@.waiters == e.waiters@,
{
}

/// Lists are shown item by item, in their order.
pub proof fn lists_show_their_items(
    frames: Seq<CallFrame>,
    logs: Seq<EventLog>,
    traces: Seq<crate::formatter::DebankTrace>,
    events: Seq<crate::formatter::DebankEvent>,
    calls: Seq<crate::simulate::DebankTrace>,
    notes: Seq<crate::simulate::DebankEvent>,
    all: Seq<TransactionTrace>,
    texts: Seq<String>,
    path: Seq<usize>,
)
    ensures
        frames_view(frames).len() == frames.len(),
        forall|i: int|
            0 <= i < frames.len() ==> #[trigger] frames_view(frames)[i] == frames[i]@,
        logs_view(logs).len() == logs.len(),
        forall|i: int|
            0 <= i < logs.len() ==> #[trigger] logs_view(logs)[i] == logs[i]@,
        traces_view(traces).len() == traces.len(),
        forall|i: int|
            0 <= i < traces.len() ==> #[trigger] traces_view(traces)[i] == traces[i]@,
        events_view(events).len() == events.len(),
        forall|i: int|
            0 <= i < events.len() ==> #[trigger] events_view(events)[i] == events[i]@,
        wire_traces_view(calls).len() == calls.len(),
        forall|i: int|
            0 <= i < calls.len() ==> #[trigger] wire_traces_view(calls)[i] == calls[i]@,
        wire_events_view(notes).len() == notes.len(),
        forall|i: int|
            0 <= i < notes.len() ==> #[trigger] wire_events_view(notes)[i] == notes[i]@,
        tx_traces_view(all).len() == all.len(),
        forall|i: int|
            0 <= i < all.len() ==> #[trigger] tx_traces_view(all)[i] == all[i]@,
        texts_view(texts).len() == texts.len(),
        forall|i: int|
            0 <= i < texts.len() ==> #[trigger] texts_view(texts)[i] == texts[i]@,
        path_view(path).len() == path.len(),
        forall|i: int|
            0 <= i < path.len() ==> #[trigger] path_view(path)[i] == path[i],
{
}

/// Storage entries and answers about accounts are shown item by item, in their order.
pub proof fn entries_show_their_items(
    entries: Seq<(Vec<u8>, Option<Vec<u8>>)>,
    replies: Seq<Reply>,
    i: int,
)
    ensures
        entries_view(entries).len() == entries.len(),
        replies_view(replies).len() == replies.len(),
        0 <= i < entries.len() ==> {
            &&& entries_view(entries)[i].0 == entries[i].0@
            &&& entries[i].1 is None ==> entries_view(entries)[i].1 is None
            &&& entries[i].1 is Some ==> entries_view(entries)[i].1 == Some((entries[i].1->0)@)
        },
        0 <= i < replies.len() ==> {
            &&& replies_view(replies)[i].0 == replies[i].0
            &&& replies[i].1 is None ==> replies_view(replies)[i].1 is None
            &&& replies[i].1 is Some ==> replies_view(replies)[i].1 == Some(
                ((replies[i].1->0).0@, (replies[i].1->0).1@),
            )
        },
{
}

} // verus!

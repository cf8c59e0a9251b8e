//! Turns what the listener collected into traces, events and a state diff.
use crate::frame::{path_view, CallFrame, DebankCallType, EventLog, FrameModel, LogModel};
use crate::listener::{spare, storage_view, Listener, ListenerModel};
use crate::ordered::{ascending, is_sorted_list, sorted, sorted_is_unique, SortedMap, SortedSet};
use crate::primitives::{be_value, bytes_lt, ByteKey, H160, H256, U256};
use crate::state_diff::{
    accounts_view, address_to_hash, codes_view, hashed, slots_view, storages_view, AccountModel,
    AccountStorageDiff, BlockStorageDiff, CodeModel, DiffModel, IndexValuePair, NewAccount, NewCode,
    SlotModel, StorageModel,
};
use crate::text::{
    calculate_debank_id, chars_of, debank_id, decimal, hash_text, hash_to_text, number_text,
};
use vstd::prelude::*;

verus! {

/// One call or contract creation, as it is handed out.
#[derive(Debug)]
pub struct DebankTrace {
    pub id: String,
    pub from_addr: H160,
    pub gas_limit: u64,
    pub input: Vec<u8>,
    pub to_addr: H160,
    pub value: U256,
    pub gas_used: u64,
    pub output: Vec<u8>,
    pub call_create_type: String,
    pub call_type: String,
    pub tx_id: H256,
    pub parent_trace_id: String,
    pub pos_in_parent_trace: usize,
    pub self_storage_change: bool,
    pub storage_change: bool,
    pub subtraces: usize,
    pub trace_address: Vec<usize>,
    pub error: String,
}

/// One log entry, as it is handed out.
#[derive(Debug)]
pub struct DebankEvent {
    pub id: String,
    pub contract_id: H160,
    pub selector: String,
    pub topics: Vec<String>,
    pub data: Vec<u8>,
    pub tx_id: H256,
    pub parent_trace_id: String,
    pub pos_in_parent_trace: usize,
    pub idx: usize,
}

/// All that is handed out of a block.
#[derive(Debug)]
pub struct DebankBlockOutput {
    pub traces: Vec<DebankTrace>,
    /// The traces of calls that failed.
    pub error_traces: Vec<DebankTrace>,
    pub events: Vec<DebankEvent>,
    /// The events of calls that failed or were undone with a call above them.
    pub error_events: Vec<DebankEvent>,
    pub storage_contracts: Vec<H160>,
    pub state_diff: BlockStorageDiff,
}

/// A trace as a mathematical value.
#[verifier::ext_equal]
pub struct TraceModel {
    pub id: Seq<char>,
    pub from_addr: H160,
    pub gas_limit: u64,
    pub input: Seq<u8>,
    pub to_addr: H160,
    pub value: U256,
    pub gas_used: u64,
    pub output: Seq<u8>,
    pub call_create_type: Seq<char>,
    pub call_type: Seq<char>,
    pub tx_id: H256,
    pub parent_trace_id: Seq<char>,
    pub pos_in_parent_trace: nat,
    pub self_storage_change: bool,
    pub storage_change: bool,
    pub subtraces: nat,
    pub trace_address: Seq<nat>,
    pub error: Seq<char>,
}

/// An event as a mathematical value.
#[verifier::ext_equal]
pub struct EventModel {
    pub id: Seq<char>,
    pub contract_id: H160,
    pub selector: Seq<char>,
    pub topics: Seq<Seq<char>>,
    pub data: Seq<u8>,
    pub tx_id: H256,
    pub parent_trace_id: Seq<char>,
    pub pos_in_parent_trace: nat,
    pub idx: nat,
}

impl View for DebankTrace {
    type V = TraceModel;

    open spec fn view(&self) -> TraceModel {
        TraceModel {
            id: self.id@,
            from_addr: self.from_addr,
            gas_limit: self.gas_limit,
            input: self.input@,
            to_addr: self.to_addr,
            value: self.value,
            gas_used: self.gas_used,
            output: self.output@,
            call_create_type: self.call_create_type@,
            call_type: self.call_type@,
            tx_id: self.tx_id,
            parent_trace_id: self.parent_trace_id@,
            pos_in_parent_trace: self.pos_in_parent_trace as nat,
            self_storage_change: self.self_storage_change,
            storage_change: self.storage_change,
            subtraces: self.subtraces as nat,
            trace_address: path_view(self.trace_address@),
            error: self.error@,
        }
    }
}

impl View for DebankEvent {
    type V = EventModel;

    open spec fn view(&self) -> EventModel {
        EventModel {
            id: self.id@,
            contract_id: self.contract_id,
            selector: self.selector@,
            topics: texts_view(self.topics@),
            data: self.data@,
            tx_id: self.tx_id,
            parent_trace_id: self.parent_trace_id@,
            pos_in_parent_trace: self.pos_in_parent_trace as nat,
            idx: self.idx as nat,
        }
    }
}

/// The characters of each string.
pub open spec fn texts_view(s: Seq<String>) -> Seq<Seq<char>> {
    s.map_values(|t: String| t@)
}

/// The traces as mathematical values.
pub open spec fn traces_view(s: Seq<DebankTrace>) -> Seq<TraceModel> {
    s.map_values(|t: DebankTrace| t@)
}

/// The events as mathematical values.
pub open spec fn events_view(s: Seq<DebankEvent>) -> Seq<EventModel> {
    s.map_values(|e: DebankEvent| e@)
}

/// What kind of frame it is: a call, a creation or a destruction.
pub open spec fn create_type_text(t: DebankCallType) -> Seq<char> {
    match t {
        DebankCallType::Create => "create"@,
        DebankCallType::Suicide => "suicide"@,
        _ => "call"@,
    }
}

/// What kind of call it is; empty if it is none.
pub open spec fn call_type_text(t: DebankCallType) -> Seq<char> {
    match t {
        DebankCallType::Call => "call"@,
        DebankCallType::CallCode => "callcode"@,
        DebankCallType::DelegateCall => "delegatecall"@,
        DebankCallType::StaticCall => "staticcall"@,
        DebankCallType::Create => seq![],
        DebankCallType::Suicide => seq![],
    }
}

/// The trace of a frame.
pub open spec fn trace_of(
    f: FrameModel,
    tx: H256,
    parent_id: Seq<char>,
    id: Seq<char>,
) -> TraceModel {
    TraceModel {
        id,
        from_addr: f.from,
        gas_limit: f.gas,
        input: f.input,
        to_addr: f.to,
        value: f.value,
        gas_used: f.gas_used,
        output: f.output,
        call_create_type: create_type_text(f.call_type),
        call_type: call_type_text(f.call_type),
        tx_id: tx,
        parent_trace_id: parent_id,
        pos_in_parent_trace: f.pos_in_parent_trace,
        self_storage_change: f.self_storage_change,
        storage_change: f.storage_change,
        subtraces: f.calls.len(),
        trace_address: f.trace_address,
        error: f.error,
    }
}

/// The event of a log entry of the frame whose trace is `parent_id`: the first topic is the
/// selector.
pub open spec fn event_of(l: LogModel, tx: H256, parent_id: Seq<char>) -> EventModel {
    EventModel {
        id: debank_id(seq![parent_id, decimal(l.position)]),
        contract_id: l.address,
        selector: if l.topics.len() > 0 {
            hash_text(l.topics[0])
        } else {
            seq![]
        },
        topics: if l.topics.len() > 1 {
            l.topics.skip(1).map_values(|t: H256| hash_text(t))
        } else {
            seq![]
        },
        data: l.data,
        tx_id: tx,
        parent_trace_id: parent_id,
        pos_in_parent_trace: l.position,
        idx: l.log_index,
    }
}

/// The identifier of the trace of a root frame.
pub open spec fn root_id(tx: H256) -> Seq<char> {
    debank_id(seq![hash_text(tx), ""@, "0"@])
}

/// The identifier of the trace of a call at the position `pos` of the frame whose trace is
/// `parent_id`.
pub open spec fn child_id(tx: H256, parent_id: Seq<char>, pos: nat) -> Seq<char> {
    debank_id(seq![hash_text(tx), parent_id, decimal(pos)])
}

/// The traces of a frame and of those below it, each before those below it, with a mark on those
/// that failed.
pub open spec fn frame_traces(
    f: FrameModel,
    tx: H256,
    parent_id: Seq<char>,
    id: Seq<char>,
) -> Seq<(bool, TraceModel)>
    decreases f,
{
    seq![(f.failed, trace_of(f, tx, parent_id, id))] + calls_traces(f.calls, tx, id)
}

/// The traces of the calls of the frame whose trace is `parent_id` and of those below them.
pub open spec fn calls_traces(calls: Seq<FrameModel>, tx: H256, parent_id: Seq<char>) -> Seq<
    (bool, TraceModel),
>
    decreases calls,
{
    if calls.len() == 0 {
        seq![]
    } else {
        let last = calls.last();
        calls_traces(calls.drop_last(), tx, parent_id) + frame_traces(
            last,
            tx,
            parent_id,
            child_id(tx, parent_id, last.pos_in_parent_trace),
        )
    }
}

/// The events of a frame and of those below it, each frame's after those below it, with a mark on
/// those that did not last: the frame, or one above it, failed.
pub open spec fn frame_events(f: FrameModel, tx: H256, id: Seq<char>) -> Seq<(bool, EventModel)>
    decreases f,
{
    calls_events(f.calls, tx, id) + own_events(f, tx, id)
}

/// The events of the calls of the frame whose trace is `parent_id` and of those below them.
pub open spec fn calls_events(calls: Seq<FrameModel>, tx: H256, parent_id: Seq<char>) -> Seq<
    (bool, EventModel),
>
    decreases calls,
{
    if calls.len() == 0 {
        seq![]
    } else {
        let last = calls.last();
        calls_events(calls.drop_last(), tx, parent_id) + frame_events(
            last,
            tx,
            child_id(tx, parent_id, last.pos_in_parent_trace),
        )
    }
}

/// The events that the frame itself emitted.
pub open spec fn own_events(f: FrameModel, tx: H256, id: Seq<char>) -> Seq<(bool, EventModel)> {
    f.logs.map_values(|l: LogModel| (f.failed || f.parent_failed, event_of(l, tx, id)))
}

/// The items whose mark is `mark`, in their order.
pub open spec fn marked<T>(s: Seq<(bool, T)>, mark: bool) -> Seq<T>
    decreases s.len(),
{
    if s.len() == 0 {
        seq![]
    } else if s.last().0 == mark {
        marked(s.drop_last(), mark).push(s.last().1)
    } else {
        marked(s.drop_last(), mark)
    }
}

/// The marked items of two lists in turn.
pub proof fn marked_add<T>(s: Seq<(bool, T)>, t: Seq<(bool, T)>, mark: bool)
    ensures
        marked(s + t, mark) == marked(s, mark) + marked(t, mark),
    decreases t.len(),
{
    if t.len() == 0 {
        assert(s + t =~= s);
        assert(marked(s, mark) + marked(t, mark) =~= marked(s, mark));
    } else {
        marked_add(s, t.drop_last(), mark);
        assert((s + t).drop_last() =~= s + t.drop_last());
        assert((s + t).last() == t.last());
        assert(marked(s + t, mark) =~= marked(s, mark) + marked(t, mark));
    }
}

/// One item more.
proof fn marked_push<T>(s: Seq<(bool, T)>, item: (bool, T), mark: bool)
    ensures
        marked(s.push(item), mark) == if item.0 == mark {
            marked(s, mark).push(item.1)
        } else {
            marked(s, mark)
        },
{
    assert(s.push(item).drop_last() =~= s);
}

/// Every item is in one of the two lists, and in one only.
pub proof fn marks_split_the_list<T>(s: Seq<(bool, T)>)
    ensures
        marked(s, true).len() + marked(s, false).len() == s.len(),
    decreases s.len(),
{
    if s.len() > 0 {
        marks_split_the_list(s.drop_last());
    }
}

/// The trace of a frame.
pub fn frame_to_trace(
    frame: &CallFrame,
    tx_hash: H256,
    parent_trace_id: String,
    trace_id: &str,
) -> (r: DebankTrace)
    ensures
        r@ == trace_of(frame@, tx_hash, parent_trace_id@, trace_id@),
{
    let (call_create_type, call_type) = match frame.call_type {
        DebankCallType::Call => ("call".to_string(), "call".to_string()),
        DebankCallType::CallCode => ("call".to_string(), "callcode".to_string()),
        DebankCallType::DelegateCall => ("call".to_string(), "delegatecall".to_string()),
        DebankCallType::StaticCall => ("call".to_string(), "staticcall".to_string()),
        DebankCallType::Create => ("create".to_string(), String::new()),
        DebankCallType::Suicide => ("suicide".to_string(), String::new()),
    };
    let r = DebankTrace {
        id: trace_id.to_string(),
        from_addr: frame.from,
        gas_limit: frame.gas,
        input: frame.input.clone(),
        to_addr: frame.to,
        value: frame.value,
        gas_used: frame.gas_used,
        output: frame.output.clone(),
        call_create_type,
        call_type,
        tx_id: tx_hash,
        parent_trace_id,
        pos_in_parent_trace: frame.pos_in_parent_trace,
        self_storage_change: frame.self_storage_change,
        storage_change: frame.storage_change,
        subtraces: frame.calls.len(),
        trace_address: frame.trace_address.clone(),
        error: frame.error.clone(),
    };
    assert(r@ =~= trace_of(frame@, tx_hash, parent_trace_id@, trace_id@));
    r
}

/// The event of a log entry of the frame whose trace is `parent_trace_id`.
fn log_to_event(log: &EventLog, tx_hash: H256, parent_trace_id: &str) -> (r: DebankEvent)
    ensures
        r@ == event_of(log@, tx_hash, parent_trace_id@),
{
    let position = number_text(log.position);
    let parts: [&str; 2] = [parent_trace_id, position.as_str()];
    let id = calculate_debank_id(&parts);
    assert(chars_of(parts@) =~= seq![parent_trace_id@, decimal(log.position as nat)]);
    let selector = if log.topics.len() > 0 {
        hash_to_text(&log.topics[0])
    } else {
        String::new()
    };
    let mut topics: Vec<String> = Vec::new();
    let mut i: usize = 1;
    while i < log.topics.len()
        invariant
            1 <= i,
            log.topics@.len() > 0 ==> i <= log.topics@.len(),
            log.topics@.len() == 0 ==> i == 1,
            topics@.len() == i - 1,
            forall|j: int| 0 <= j < i - 1 ==> (#[trigger] topics@[j])@ == hash_text(log.topics@[j + 1]),
        decreases log.topics@.len() - i,
    {
        topics.push(hash_to_text(&log.topics[i]));
        i += 1;
    }
    let r = DebankEvent {
        id,
        contract_id: log.address,
        selector,
        topics,
        data: log.data.clone(),
        tx_id: tx_hash,
        parent_trace_id: parent_trace_id.to_string(),
        pos_in_parent_trace: log.position,
        idx: log.log_index,
    };
    proof {
        let wanted = event_of(log@, tx_hash, parent_trace_id@).topics;
        assert(r@.topics.len() == wanted.len());
        assert forall|j: int| 0 <= j < wanted.len() implies r@.topics[j] == wanted[j] by {
            assert(r@.topics[j] == topics@[j]@);
        }
        assert(r@.topics =~= wanted);
    }
    assert(r@ =~= event_of(log@, tx_hash, parent_trace_id@));
    r
}

/// The identifier of the trace of a root frame.
fn root_trace_id(tx_hash: &H256) -> (r: String)
    ensures
        r@ == root_id(*tx_hash),
{
    let tx = hash_to_text(tx_hash);
    let parts: [&str; 3] = [tx.as_str(), "", "0"];
    assert(chars_of(parts@) =~= seq![hash_text(*tx_hash), ""@, "0"@]);
    calculate_debank_id(&parts)
}

/// The identifier of the trace of a call.
fn child_trace_id(tx_hash: &H256, parent_trace_id: &str, pos: usize) -> (r: String)
    ensures
        r@ == child_id(*tx_hash, parent_trace_id@, pos as nat),
{
    let tx = hash_to_text(tx_hash);
    let position = number_text(pos);
    let parts: [&str; 3] = [tx.as_str(), parent_trace_id, position.as_str()];
    assert(chars_of(parts@) =~= seq![hash_text(*tx_hash), parent_trace_id@, decimal(pos as nat)]);
    calculate_debank_id(&parts)
}

/// Hands out the traces and events below `frame`, whose own trace is `parent_trace_id`. Those of
/// calls that failed go to `error_traces`, and events that did not last to `error_events`.
pub fn process_frame_children(
    frame: &CallFrame,
    tx_hash: H256,
    parent_trace_id: &str,
    traces: &mut Vec<DebankTrace>,
    error_traces: &mut Vec<DebankTrace>,
    events: &mut Vec<DebankEvent>,
    error_events: &mut Vec<DebankEvent>,
)
    ensures
        traces_view(final(traces)@) == traces_view(old(traces)@) + marked(
            calls_traces(frame@.calls, tx_hash, parent_trace_id@),
            false,
        ),
        traces_view(final(error_traces)@) == traces_view(old(error_traces)@) + marked(
            calls_traces(frame@.calls, tx_hash, parent_trace_id@),
            true,
        ),
        events_view(final(events)@) == events_view(old(events)@) + marked(
            frame_events(frame@, tx_hash, parent_trace_id@),
            false,
        ),
        events_view(final(error_events)@) == events_view(old(error_events)@) + marked(
            frame_events(frame@, tx_hash, parent_trace_id@),
            true,
        ),
    decreases *frame,
{
    let ghost calls = frame@.calls;
    let ghost id = parent_trace_id@;
    let ghost t0 = traces_view(traces@);
    let ghost u0 = traces_view(error_traces@);
    let ghost e0 = events_view(events@);
    let ghost f0 = events_view(error_events@);
    let mut i: usize = 0;
    proof {
        assert(calls.take(0) =~= seq![]);
        assert(t0 + marked(calls_traces(calls.take(0), tx_hash, id), false) =~= t0);
        assert(u0 + marked(calls_traces(calls.take(0), tx_hash, id), true) =~= u0);
        assert(e0 + marked(calls_events(calls.take(0), tx_hash, id), false) =~= e0);
        assert(f0 + marked(calls_events(calls.take(0), tx_hash, id), true) =~= f0);
    }
    while i < frame.calls.len()
        invariant
            i <= frame.calls@.len(),
            calls == frame@.calls,
            id == parent_trace_id@,
            traces_view(traces@) == t0 + marked(
                calls_traces(calls.take(i as int), tx_hash, id),
                false,
            ),
            traces_view(error_traces@) == u0 + marked(
                calls_traces(calls.take(i as int), tx_hash, id),
                true,
            ),
            events_view(events@) == e0 + marked(
                calls_events(calls.take(i as int), tx_hash, id),
                false,
            ),
            events_view(error_events@) == f0 + marked(
                calls_events(calls.take(i as int), tx_hash, id),
                true,
            ),
        decreases frame.calls@.len() - i,
    {
        assert(decreases_to!(*frame => frame.calls@[i as int]));
        let child = &frame.calls[i];
        let child_trace = child_trace_id(&tx_hash, parent_trace_id, child.pos_in_parent_trace);
        let ghost t1 = traces_view(traces@);
        let ghost u1 = traces_view(error_traces@);
        let ghost below = calls_traces(child@.calls, tx_hash, child_trace@);
        let trace = frame_to_trace(
            child,
            tx_hash,
            parent_trace_id.to_string(),
            child_trace.as_str(),
        );
        let ghost own = (child@.failed, trace@);
        if child.failed {
            error_traces.push(trace);
        } else {
            traces.push(trace);
        }
        assert(traces_view(traces@) =~= t1 + marked(seq![own], false)) by {
            marked_push(Seq::<(bool, TraceModel)>::empty(), own, false);
            assert(seq![own] =~= Seq::<(bool, TraceModel)>::empty().push(own));
        }
        assert(traces_view(error_traces@) =~= u1 + marked(seq![own], true)) by {
            marked_push(Seq::<(bool, TraceModel)>::empty(), own, true);
            assert(seq![own] =~= Seq::<(bool, TraceModel)>::empty().push(own));
        }
        process_frame_children(
            child,
            tx_hash,
            child_trace.as_str(),
            traces,
            error_traces,
            events,
            error_events,
        );
        proof {
            let prior = calls_traces(calls.take(i as int), tx_hash, id);
            let prior_events = calls_events(calls.take(i as int), tx_hash, id);
            let more = frame_traces(child@, tx_hash, id, child_trace@);
            let more_events = frame_events(child@, tx_hash, child_trace@);
            assert(calls.take(i + 1).drop_last() =~= calls.take(i as int));
            assert(calls.take(i + 1).last() == child@);
            marked_add(seq![own], below, false);
            marked_add(seq![own], below, true);
            marked_add(prior, more, false);
            marked_add(prior, more, true);
            marked_add(prior_events, more_events, false);
            marked_add(prior_events, more_events, true);
            assert(t1 + marked(seq![own], false) + marked(below, false) =~= t0 + (marked(
                prior,
                false,
            ) + (marked(seq![own], false) + marked(below, false))));
            assert(u1 + marked(seq![own], true) + marked(below, true) =~= u0 + (marked(prior, true)
                + (marked(seq![own], true) + marked(below, true))));
            assert(e0 + marked(prior_events, false) + marked(more_events, false) =~= e0 + (marked(
                prior_events,
                false,
            ) + marked(more_events, false)));
            assert(f0 + marked(prior_events, true) + marked(more_events, true) =~= f0 + (marked(
                prior_events,
                true,
            ) + marked(more_events, true)));
        }
        i += 1;
    }
    assert(calls.take(i as int) =~= calls);
    let ghost e1 = events_view(events@);
    let ghost f1 = events_view(error_events@);
    let ghost own = own_events(frame@, tx_hash, id);
    let lost = frame.failed || frame.parent_failed;
    let mut j: usize = 0;
    proof {
        assert(own.take(0) =~= seq![]);
        assert(e1 + marked(own.take(0), false) =~= e1);
        assert(f1 + marked(own.take(0), true) =~= f1);
    }
    while j < frame.logs.len()
        invariant
            j <= frame.logs@.len(),
            id == parent_trace_id@,
            own == own_events(frame@, tx_hash, id),
            lost == (frame.failed || frame.parent_failed),
            events_view(events@) == e1 + marked(own.take(j as int), false),
            events_view(error_events@) == f1 + marked(own.take(j as int), true),
        decreases frame.logs@.len() - j,
    {
        let event = log_to_event(&frame.logs[j], tx_hash, parent_trace_id);
        let ghost item = (lost, event@);
        let ghost e2 = events_view(events@);
        let ghost f2 = events_view(error_events@);
        if lost {
            error_events.push(event);
        } else {
            events.push(event);
        }
        proof {
            assert(own[j as int] == item);
            assert(own.take(j + 1) =~= own.take(j as int).push(item));
            marked_push(own.take(j as int), item, false);
            marked_push(own.take(j as int), item, true);
            assert(own.take(j + 1) == own.take(j as int).push(item));
            if lost {
                assert(events_view(error_events@) =~= f2.push(item.1));
                assert(f2.push(item.1) =~= f1 + marked(own.take(j as int), true).push(item.1));
            } else {
                assert(events_view(events@) =~= e2.push(item.1));
                assert(e2.push(item.1) =~= e1 + marked(own.take(j as int), false).push(item.1));
            }
        }
        j += 1;
    }
    proof {
        assert(own.take(j as int) =~= own);
        let inner = calls_events(calls, tx_hash, id);
        marked_add(inner, own, false);
        marked_add(inner, own, true);
        assert(e0 + marked(inner, false) + marked(own, false) =~= e0 + (marked(inner, false)
            + marked(own, false)));
        assert(f0 + marked(inner, true) + marked(own, true) =~= f0 + (marked(inner, true) + marked(
            own,
            true,
        )));
    }
}

/// What was learned of an account: what it is after the block, and its code.
pub type Reply = (H160, Option<(NewAccount, Vec<u8>)>);

/// What was learned of an account, as a mathematical value.
pub type ReplyModel = (H160, Option<(AccountModel, Seq<u8>)>);

/// What was learned of an account, as a mathematical value.
pub open spec fn reply_view(r: Reply) -> ReplyModel {
    (
        r.0,
        match r.1 {
            Some((account, code)) => Some((account@, code@)),
            None => None,
        },
    )
}

/// What was learned of accounts, as mathematical values.
pub open spec fn replies_view(s: Seq<Reply>) -> Seq<ReplyModel> {
    s.map_values(|r: Reply| reply_view(r))
}

/// The list with `a` put in behind the accounts that do not come after it.
pub open spec fn with_account(s: Seq<AccountModel>, a: AccountModel) -> Seq<AccountModel>
    decreases s.len(),
{
    if s.len() == 0 || !bytes_lt(a.address.0@, s.last().address.0@) {
        s.push(a)
    } else {
        with_account(s.drop_last(), a).push(s.last())
    }
}

/// The accounts that something was learned of, ordered by their hashes; those with equal hashes
/// stay in order.
pub open spec fn known_accounts(replies: Seq<ReplyModel>) -> Seq<AccountModel>
    decreases replies.len(),
{
    if replies.len() == 0 {
        seq![]
    } else {
        let prior = known_accounts(replies.drop_last());
        match replies.last().1 {
            Some((account, _)) => with_account(prior, account),
            None => prior,
        }
    }
}

/// The codes of the created accounts, by their hashes; the last one counts.
pub open spec fn created_codes(replies: Seq<ReplyModel>, created: Set<H160>) -> Map<H256, Seq<u8>>
    decreases replies.len(),
{
    if replies.len() == 0 {
        map![]
    } else {
        let prior = created_codes(replies.drop_last(), created);
        match replies.last().1 {
            Some((account, code)) => if created.contains(replies.last().0) && code.len() > 0 {
                prior.insert(account.code_hash, code)
            } else {
                prior
            },
            None => prior,
        }
    }
}

/// The codes in the order of their hashes.
pub open spec fn code_list(codes: Map<H256, Seq<u8>>) -> Seq<CodeModel> {
    sorted(codes.dom()).map_values(|h: H256| CodeModel { code_hash: h, code: codes[h] })
}

/// The slots in the order of their indices.
pub open spec fn slot_list(slots: Map<H256, H256>) -> Seq<SlotModel> {
    sorted(slots.dom()).map_values(|k: H256| SlotModel { index: k, value: be_value(slots[k].0@) })
}

/// The slots of the accounts `keys`, leaving out accounts without any.
pub open spec fn storage_list(changes: Map<H160, Map<H256, H256>>, keys: Seq<H160>) -> Seq<
    StorageModel,
>
    decreases keys.len(),
{
    if keys.len() == 0 {
        seq![]
    } else {
        let prior = storage_list(changes, keys.drop_last());
        let slots = slot_list(changes[keys.last()]);
        if slots.len() > 0 {
            prior.push(StorageModel { address: hashed(keys.last()), values: slots })
        } else {
            prior
        }
    }
}

/// The accounts to ask for, in order: those touched and not destroyed.
pub open spec fn asked_accounts(s: ListenerModel) -> Seq<H160> {
    sorted(s.touched_accounts.difference(s.deleted_accounts))
}

/// The state diff, given what was learned of the accounts.
pub open spec fn state_diff_of(
    s: ListenerModel,
    hash: H256,
    parent_hash: H256,
    replies: Seq<ReplyModel>,
) -> DiffModel {
    DiffModel {
        hash,
        parent_hash,
        new_accounts: known_accounts(replies),
        deleted_accounts: sorted(s.deleted_accounts).map_values(|a: H160| hashed(a)),
        storage_diff: storage_list(s.storage_changes, sorted(s.storage_changes.dom())),
        new_codes: code_list(created_codes(replies, s.created_accounts)),
    }
}

/// The accounts whose slots were written, and the slots of each, have sorted lists.
pub open spec fn storage_is_listed(changes: Map<H160, Map<H256, H256>>) -> bool {
    &&& is_sorted_list(sorted(changes.dom()), changes.dom())
    &&& forall|a: H160| #[trigger]
        changes.contains_key(a) ==> is_sorted_list(sorted(changes[a].dom()), changes[a].dom())
}

/// The accounts that were destroyed and what was written have sorted lists.
pub open spec fn changes_are_listed(s: ListenerModel) -> bool {
    &&& is_sorted_list(sorted(s.deleted_accounts), s.deleted_accounts)
    &&& storage_is_listed(s.storage_changes)
}

/// The hashes of the codes have a sorted list.
pub open spec fn codes_are_listed(replies: Seq<ReplyModel>, created: Set<H160>) -> bool {
    is_sorted_list(
        sorted(created_codes(replies, created).dom()),
        created_codes(replies, created).dom(),
    )
}

/// Where the account goes: behind those that do not come after it.
proof fn with_account_at(s: Seq<AccountModel>, a: AccountModel, p: int)
    requires
        0 <= p <= s.len(),
        p > 0 ==> !bytes_lt(a.address.0@, s[p - 1].address.0@),
        forall|j: int| p <= j < s.len() ==> bytes_lt(a.address.0@, (#[trigger] s[j]).address.0@),
    ensures
        with_account(s, a) == s.insert(p, a),
    decreases s.len() - p,
{
    if p == s.len() {
        assert(s.insert(p, a) =~= s.push(a));
    } else {
        assert(bytes_lt(a.address.0@, s[s.len() - 1].address.0@));
        with_account_at(s.drop_last(), a, p);
        assert(s.drop_last().insert(p, a).push(s.last()) =~= s.insert(p, a));
    }
}

/// Puts an account in behind those that do not come after it.
fn insert_account(accounts: &mut Vec<NewAccount>, account: NewAccount)
    ensures
        accounts_view(final(accounts)@) == with_account(accounts_view(old(accounts)@), account@),
{
    let ghost before = accounts_view(accounts@);
    let mut p: usize = accounts.len();
    while p > 0 && account.address.key_lt(&accounts[p - 1].address)
        invariant
            p <= accounts@.len(),
            before == accounts_view(accounts@),
            forall|j: int|
                p <= j < before.len() ==> bytes_lt(
                    account.address.0@,
                    (#[trigger] before[j]).address.0@,
                ),
        decreases p,
    {
        assert(before[p - 1].address == accounts@[p - 1].address);
        p -= 1;
    }
    proof {
        if p > 0 {
            assert(before[p - 1].address == accounts@[p - 1].address);
        }
        with_account_at(before, account@, p as int);
    }
    accounts.insert(p, account);
    assert(accounts_view(accounts@) =~= before.insert(p as int, account@));
}

/// The slots of an account in the order of their indices.
fn list_slots(slots: &SortedMap<H256, H256>) -> (r: Vec<IndexValuePair>)
    ensures
        slots_view(r@) == slot_list(slots@),
        is_sorted_list(sorted(slots@.dom()), slots@.dom()),
{
    let mut values: Vec<IndexValuePair> = Vec::new();
    let n: usize = slots.len();
    let ghost wanted = slot_list(slots@);
    let mut i: usize = 0;
    while i < n
        invariant
            i <= n == slots.keys().len(),
            slots.keys() == sorted(slots@.dom()),
            is_sorted_list(slots.keys(), slots@.dom()),
            wanted == slot_list(slots@),
            slots_view(values@) == wanted.take(i as int),
        decreases n - i,
    {
        let (index, value) = slots.entry(i);
        let pair = IndexValuePair {
            index: *index,
            value: U256::from_big_endian(value.0.as_slice()),
        };
        let ghost before = slots_view(values@);
        values.push(pair);
        assert(pair@ == wanted[i as int]);
        assert(slots_view(values@) =~= before.push(pair@));
        assert(wanted.take(i as int).push(wanted[i as int]) =~= wanted.take(i + 1));
        i += 1;
    }
    assert(wanted.take(i as int) =~= wanted);
    values
}

/// The slots written, account by account.
fn list_storage(changes: &SortedMap<H160, SortedMap<H256, H256>>) -> (r: Vec<AccountStorageDiff>)
    ensures
        storages_view(r@) == storage_list(
            storage_view(changes@),
            sorted(storage_view(changes@).dom()),
        ),
        storage_is_listed(storage_view(changes@)),
{
    let mut list: Vec<AccountStorageDiff> = Vec::new();
    let n: usize = changes.len();
    let ghost all = storage_view(changes@);
    let ghost keys = changes.keys();
    let mut i: usize = 0;
    assert(all.dom() =~= changes@.dom());
    assert(keys.take(0) =~= seq![]);
    while i < n
        invariant
            i <= n == keys.len(),
            keys == changes.keys(),
            is_sorted_list(keys, changes@.dom()),
            all == storage_view(changes@),
            storages_view(list@) == storage_list(all, keys.take(i as int)),
            forall|j: int|
                0 <= j < i ==> is_sorted_list(
                    sorted(all[#[trigger] keys[j]].dom()),
                    all[keys[j]].dom(),
                ),
        decreases n - i,
    {
        let (address, slots) = changes.entry(i);
        let values = list_slots(slots);
        let ghost before = storages_view(list@);
        assert(keys.take(i + 1).drop_last() =~= keys.take(i as int));
        assert(keys.take(i + 1).last() == *address);
        assert(all[*address] == slots@);
        assert(slots_view(values@).len() == values@.len());
        if values.len() > 0 {
            let entry = AccountStorageDiff { address: address_to_hash(address), values };
            list.push(entry);
            assert(storages_view(list@) =~= before.push(entry@));
        }
        i += 1;
    }
    assert(keys.take(i as int) =~= keys);
    proof {
        sorted_is_unique(keys, all.dom());
        assert forall|a: H160| #[trigger] all.contains_key(a) implies is_sorted_list(
            sorted(all[a].dom()),
            all[a].dom(),
        ) by {
            assert(keys.contains(a));
            let j = choose|j: int| 0 <= j < keys.len() && keys[j] == a;
            assert(all[keys[j]] == all[a]);
        }
    }
    list
}

/// The hashes of the destroyed accounts, in the order of their addresses.
fn list_deleted(deleted: &SortedSet<H160>) -> (r: Vec<H256>)
    ensures
        r@ == sorted(deleted@).map_values(|a: H160| hashed(a)),
        is_sorted_list(sorted(deleted@), deleted@),
{
    let mut list: Vec<H256> = Vec::new();
    let n: usize = deleted.len();
    let ghost wanted = sorted(deleted@).map_values(|a: H160| hashed(a));
    let mut i: usize = 0;
    while i < n
        invariant
            i <= n == deleted.keys().len(),
            deleted.keys() == sorted(deleted@),
            is_sorted_list(sorted(deleted@), deleted@),
            wanted == sorted(deleted@).map_values(|a: H160| hashed(a)),
            list@ == wanted.take(i as int),
        decreases n - i,
    {
        list.push(address_to_hash(deleted.at(i)));
        assert(list@ =~= wanted.take(i + 1));
        i += 1;
    }
    assert(wanted.take(i as int) =~= wanted);
    list
}

/// The codes as mathematical values.
spec fn code_map(m: Map<H256, Vec<u8>>) -> Map<H256, Seq<u8>> {
    m.map_values(|code: Vec<u8>| code@)
}

/// The codes in the order of their hashes.
fn list_codes(codes: SortedMap<H256, Vec<u8>>) -> (r: Vec<NewCode>)
    ensures
        codes_view(r@) == code_list(code_map(codes@)),
        is_sorted_list(sorted(code_map(codes@).dom()), code_map(codes@).dom()),
{
    let mut list: Vec<NewCode> = Vec::new();
    let n: usize = codes.len();
    let ghost all = code_map(codes@);
    let ghost wanted = code_list(all);
    let mut i: usize = 0;
    assert(all.dom() =~= codes@.dom());
    while i < n
        invariant
            i <= n == codes.keys().len(),
            codes.keys() == sorted(all.dom()),
            is_sorted_list(sorted(all.dom()), all.dom()),
            all == code_map(codes@),
            all.dom() == codes@.dom(),
            wanted == code_list(all),
            codes_view(list@) == wanted.take(i as int),
        decreases n - i,
    {
        let (code_hash, code) = codes.entry(i);
        let entry = NewCode { code_hash: *code_hash, code: code.clone() };
        let ghost before = codes_view(list@);
        list.push(entry);
        assert(entry@ =~= wanted[i as int]);
        assert(codes_view(list@) =~= before.push(entry@));
        assert(wanted.take(i as int).push(wanted[i as int]) =~= wanted.take(i + 1));
        i += 1;
    }
    assert(wanted.take(i as int) =~= wanted);
    list
}

/// The state diff, given what was learned of the accounts.
pub fn build_state_diff(
    listener: &Listener,
    block_hash: H256,
    parent_hash: H256,
    replies: Vec<Reply>,
) -> (r: BlockStorageDiff)
    ensures
        r@ == state_diff_of(listener@, block_hash, parent_hash, replies_view(replies@)),
        changes_are_listed(listener@),
        codes_are_listed(replies_view(replies@), listener@.created_accounts),
{
    let ghost all = replies_view(replies@);
    let ghost created = listener@.created_accounts;
    let mut new_accounts: Vec<NewAccount> = Vec::new();
    let mut codes: SortedMap<H256, Vec<u8>> = SortedMap::new();
    let mut i: usize = 0;
    assert(all.take(0) =~= seq![]);
    assert(accounts_view(new_accounts@) =~= seq![]);
    assert(code_map(codes@) =~= map![]);
    while i < replies.len()
        invariant
            i <= replies@.len(),
            all == replies_view(replies@),
            created == listener@.created_accounts,
            accounts_view(new_accounts@) == known_accounts(all.take(i as int)),
            code_map(codes@) == created_codes(all.take(i as int), created),
        decreases replies@.len() - i,
    {
        assert(all.take(i + 1).drop_last() =~= all.take(i as int));
        assert(all.take(i + 1).last() == reply_view(replies@[i as int]));
        let reply = &replies[i];
        match &reply.1 {
            Some((account, code)) => {
                if listener.created_accounts.contains(&reply.0) && code.len() > 0 {
                    let ghost before = code_map(codes@);
                    codes.insert(account.code_hash, code.clone());
                    assert(code_map(codes@) =~= before.insert(account.code_hash, code@));
                }
                insert_account(&mut new_accounts, *account);
            },
            None => {},
        }
        i += 1;
    }
    assert(all.take(i as int) =~= all);
    let r = BlockStorageDiff {
        hash: block_hash,
        parent_hash,
        new_accounts,
        deleted_accounts: list_deleted(&listener.deleted_accounts),
        storage_diff: list_storage(&listener.storage_changes),
        new_codes: list_codes(codes),
    };
    assert(r@ =~= state_diff_of(listener@, block_hash, parent_hash, all));
    r
}

/// What `f` may answer of the accounts to ask for.
pub open spec fn answered_by<F: Fn(H160) -> Option<(NewAccount, Vec<u8>)>>(
    f: F,
    asked: Seq<H160>,
    replies: Seq<Reply>,
) -> bool {
    &&& replies.len() == asked.len()
    &&& forall|i: int|
        0 <= i < asked.len() ==> (#[trigger] replies[i]).0 == asked[i] && call_ensures(
            f,
            (asked[i],),
            replies[i].1,
        )
}

/// The state diff; `account_info_fn` tells what an account is after the block, and its code.
pub fn format_state_diff<F>(
    listener: &Listener,
    block_hash: H256,
    parent_hash: H256,
    account_info_fn: F,
) -> (r: BlockStorageDiff) where F: Fn(H160) -> Option<(NewAccount, Vec<u8>)>
    requires
        forall|a: H160|
            listener@.touched_accounts.contains(a) && !listener@.deleted_accounts.contains(a)
                ==> call_requires(account_info_fn, (a,)),
    ensures
        changes_are_listed(listener@),
        is_sorted_list(
            asked_accounts(listener@),
            listener@.touched_accounts.difference(listener@.deleted_accounts),
        ),
        exists|replies: Seq<Reply>| #[trigger]
            answered_by(account_info_fn, asked_accounts(listener@), replies) && r@
                == state_diff_of(listener@, block_hash, parent_hash, replies_view(replies))
                && codes_are_listed(replies_view(replies), listener@.created_accounts),
{
    let n: usize = listener.touched_accounts.len();
    let ghost touched = listener@.touched_accounts;
    let ghost deleted = listener@.deleted_accounts;
    let ghost keys = listener.touched_accounts.keys();
    let mut replies: Vec<Reply> = Vec::new();
    let ghost mut asked: Seq<H160> = seq![];
    let mut i: usize = 0;
    while i < n
        invariant
            i <= n == keys.len(),
            keys == listener.touched_accounts.keys(),
            is_sorted_list(keys, touched),
            touched == listener@.touched_accounts,
            deleted == listener@.deleted_accounts,
            ascending(asked),
            forall|k: H160| #[trigger]
                asked.contains(k) <==> keys.take(i as int).contains(k) && !deleted.contains(k),
            answered_by(account_info_fn, asked, replies@),
            forall|a: H160|
                listener@.touched_accounts.contains(a) && !listener@.deleted_accounts.contains(a)
                    ==> call_requires(account_info_fn, (a,)),
        decreases n - i,
    {
        let address: H160 = *listener.touched_accounts.at(i);
        let ghost before = asked;
        if !listener.deleted_accounts.contains(&address) {
            let answer = account_info_fn(address);
            replies.push((address, answer));
            proof {
                asked = asked.push(address);
            }
        }
        proof {
            asked_grows(keys, deleted, i as int, before, asked);
        }
        i += 1;
    }
    proof {
        assert(keys.take(i as int) =~= keys);
        assert forall|k: H160| #[trigger] asked.contains(k) <==> touched.difference(
            deleted,
        ).contains(k) by {
            assert(keys.contains(k) <==> touched.contains(k));
        }
        sorted_is_unique(asked, touched.difference(deleted));
        assert(answered_by(account_info_fn, asked_accounts(listener@), replies@));
    }
    build_state_diff(listener, block_hash, parent_hash, replies)
}

/// The accounts to ask for stay in order as they are found.
proof fn asked_grows(
    keys: Seq<H160>,
    deleted: Set<H160>,
    i: int,
    before: Seq<H160>,
    after: Seq<H160>,
)
    requires
        ascending(keys),
        0 <= i < keys.len(),
        ascending(before),
        forall|k: H160| #[trigger]
            before.contains(k) <==> keys.take(i).contains(k) && !deleted.contains(k),
        after == if deleted.contains(keys[i]) {
            before
        } else {
            before.push(keys[i])
        },
    ensures
        ascending(after),
        forall|k: H160| #[trigger]
            after.contains(k) <==> keys.take(i + 1).contains(k) && !deleted.contains(k),
{
    let shorter = keys.take(i);
    let longer = keys.take(i + 1);
    assert(longer =~= shorter.push(keys[i]));
    assert forall|k: H160| #[trigger] longer.contains(k) <==> (shorter.contains(k) || k
        == keys[i]) by {
        if shorter.contains(k) {
            let j = choose|j: int| 0 <= j < shorter.len() && shorter[j] == k;
            assert(longer[j] == k);
        }
        assert(longer[i] == keys[i]);
    }
    if !deleted.contains(keys[i]) {
        assert forall|a: int, b: int| 0 <= a < b < after.len() implies bytes_lt(
            #[trigger] after[a].key(),
            #[trigger] after[b].key(),
        ) by {
            if b == before.len() {
                assert(before.contains(before[a]));
                let j = choose|j: int| 0 <= j < shorter.len() && shorter[j] == before[a];
                assert(keys[j] == before[a]);
            } else {
                assert(before[a] == after[a] && before[b] == after[b]);
            }
        }
        assert forall|k: H160| #[trigger] after.contains(k) <==> longer.contains(k)
            && !deleted.contains(k) by {
            if before.contains(k) {
                let j = choose|j: int| 0 <= j < before.len() && before[j] == k;
                assert(after[j] == k);
            }
            assert(after[before.len() as int] == keys[i]);
        }
    }
}

/// The hash of the transaction at position `i`; zero if there is none.
pub open spec fn tx_at(txs: Seq<H256>, i: int) -> H256 {
    if 0 <= i < txs.len() {
        txs[i]
    } else {
        H256::zero()
    }
}

/// The traces of the transactions of a block, whose root frames are `roots`.
pub open spec fn block_traces(roots: Seq<FrameModel>, txs: Seq<H256>) -> Seq<(bool, TraceModel)>
    decreases roots.len(),
{
    if roots.len() == 0 {
        seq![]
    } else {
        let tx = tx_at(txs, roots.len() - 1);
        block_traces(roots.drop_last(), txs) + frame_traces(roots.last(), tx, seq![], root_id(tx))
    }
}

/// The events of the transactions of a block.
pub open spec fn block_events(roots: Seq<FrameModel>, txs: Seq<H256>) -> Seq<(bool, EventModel)>
    decreases roots.len(),
{
    if roots.len() == 0 {
        seq![]
    } else {
        let tx = tx_at(txs, roots.len() - 1);
        block_events(roots.drop_last(), txs) + frame_events(roots.last(), tx, root_id(tx))
    }
}

/// Hands out the traces and events of a transaction.
fn process_root(
    frame: &CallFrame,
    tx_hash: H256,
    traces: &mut Vec<DebankTrace>,
    error_traces: &mut Vec<DebankTrace>,
    events: &mut Vec<DebankEvent>,
    error_events: &mut Vec<DebankEvent>,
)
    ensures
        traces_view(final(traces)@) == traces_view(old(traces)@) + marked(
            frame_traces(frame@, tx_hash, seq![], root_id(tx_hash)),
            false,
        ),
        traces_view(final(error_traces)@) == traces_view(old(error_traces)@) + marked(
            frame_traces(frame@, tx_hash, seq![], root_id(tx_hash)),
            true,
        ),
        events_view(final(events)@) == events_view(old(events)@) + marked(
            frame_events(frame@, tx_hash, root_id(tx_hash)),
            false,
        ),
        events_view(final(error_events)@) == events_view(old(error_events)@) + marked(
            frame_events(frame@, tx_hash, root_id(tx_hash)),
            true,
        ),
{
    let ghost t0 = traces_view(traces@);
    let ghost u0 = traces_view(error_traces@);
    let id = root_trace_id(&tx_hash);
    let trace = frame_to_trace(frame, tx_hash, String::new(), id.as_str());
    let ghost own = (frame@.failed, trace@);
    let ghost below = calls_traces(frame@.calls, tx_hash, id@);
    if frame.failed {
        error_traces.push(trace);
    } else {
        traces.push(trace);
    }
    assert(trace@ == trace_of(frame@, tx_hash, seq![], id@));
    assert(traces_view(traces@) =~= t0 + marked(seq![own], false)) by {
        marked_push(Seq::<(bool, TraceModel)>::empty(), own, false);
        assert(seq![own] =~= Seq::<(bool, TraceModel)>::empty().push(own));
    }
    assert(traces_view(error_traces@) =~= u0 + marked(seq![own], true)) by {
        marked_push(Seq::<(bool, TraceModel)>::empty(), own, true);
        assert(seq![own] =~= Seq::<(bool, TraceModel)>::empty().push(own));
    }
    process_frame_children(
        frame,
        tx_hash,
        id.as_str(),
        traces,
        error_traces,
        events,
        error_events,
    );
    proof {
        marked_add(seq![own], below, false);
        marked_add(seq![own], below, true);
        assert(t0 + marked(seq![own], false) + marked(below, false) =~= t0 + (marked(
            seq![own],
            false,
        ) + marked(below, false)));
        assert(u0 + marked(seq![own], true) + marked(below, true) =~= u0 + (marked(seq![own], true)
            + marked(below, true)));
    }
}

/// Makes the output of a block of what a listener collected.
pub struct Formatter;

/// The output is that of a listener whose last transaction is ended, apart from the state diff.
pub open spec fn is_output_of(r: DebankBlockOutput, s: ListenerModel, txs: Seq<H256>) -> bool {
    &&& traces_view(r.traces@) == marked(block_traces(s.completed_frames, txs), false)
    &&& traces_view(r.error_traces@) == marked(block_traces(s.completed_frames, txs), true)
    &&& events_view(r.events@) == marked(block_events(s.completed_frames, txs), false)
    &&& events_view(r.error_events@) == marked(block_events(s.completed_frames, txs), true)
    &&& r.storage_contracts@ == sorted(s.storage_contracts)
    &&& is_sorted_list(r.storage_contracts@, s.storage_contracts)
}

impl Formatter {
    /// The output of a block: ends the last transaction if that is still to do, hands out traces
    /// and events, and works out the state diff. `tx_hashes` are the hashes of the transactions,
    /// and `account_info_fn` tells what an account is after the block, and its code.
    pub fn format<F>(
        mut listener: Listener,
        block_hash: H256,
        parent_hash: H256,
        tx_hashes: &[H256],
        account_info_fn: F,
    ) -> (r: DebankBlockOutput) where F: Fn(H160) -> Option<(NewAccount, Vec<u8>)>
        requires
            spare(listener@.callstack, 0),
            forall|a: H160|
                listener@.touched_accounts.contains(a) && !listener@.deleted_accounts.contains(a)
                    ==> call_requires(account_info_fn, (a,)),
        ensures
            is_output_of(r, listener@.finished(), tx_hashes@),
            changes_are_listed(listener@.finished()),
            is_sorted_list(
                asked_accounts(listener@),
                listener@.touched_accounts.difference(listener@.deleted_accounts),
            ),
            exists|replies: Seq<Reply>| #[trigger]
                answered_by(account_info_fn, asked_accounts(listener@), replies)
                    && r.state_diff@ == state_diff_of(
                    listener@.finished(),
                    block_hash,
                    parent_hash,
                    replies_view(replies),
                ) && codes_are_listed(replies_view(replies), listener@.created_accounts),
    {
        let ghost start = listener@;
        listener.finish_transaction();
        assert(asked_accounts(listener@) == asked_accounts(start));
        let ghost roots = listener@.completed_frames;
        let ghost txs = tx_hashes@;
        let mut traces: Vec<DebankTrace> = Vec::new();
        let mut error_traces: Vec<DebankTrace> = Vec::new();
        let mut events: Vec<DebankEvent> = Vec::new();
        let mut error_events: Vec<DebankEvent> = Vec::new();
        let mut i: usize = 0;
        proof {
            assert(roots.take(0) =~= seq![]);
            assert(traces_view(traces@) =~= seq![]);
            assert(events_view(events@) =~= seq![]);
        }
        while i < listener.completed_frames.len()
            invariant
                i <= listener.completed_frames@.len(),
                roots == listener@.completed_frames,
                txs == tx_hashes@,
                traces_view(traces@) == marked(block_traces(roots.take(i as int), txs), false),
                traces_view(error_traces@) == marked(block_traces(roots.take(i as int), txs), true),
                events_view(events@) == marked(block_events(roots.take(i as int), txs), false),
                events_view(error_events@) == marked(block_events(roots.take(i as int), txs), true),
            decreases listener.completed_frames@.len() - i,
        {
            let tx_hash = if i < tx_hashes.len() {
                tx_hashes[i]
            } else {
                H256::zero()
            };
            let frame = &listener.completed_frames[i];
            proof {
                assert(roots.take(i + 1).drop_last() =~= roots.take(i as int));
                assert(roots.take(i + 1).last() == frame@);
                let prior = block_traces(roots.take(i as int), txs);
                let prior_events = block_events(roots.take(i as int), txs);
                let more = frame_traces(frame@, tx_hash, seq![], root_id(tx_hash));
                let more_events = frame_events(frame@, tx_hash, root_id(tx_hash));
                marked_add(prior, more, false);
                marked_add(prior, more, true);
                marked_add(prior_events, more_events, false);
                marked_add(prior_events, more_events, true);
            }
            process_root(
                frame,
                tx_hash,
                &mut traces,
                &mut error_traces,
                &mut events,
                &mut error_events,
            );
            i += 1;
        }
        assert(roots.take(i as int) =~= roots);
        let state_diff = format_state_diff(&listener, block_hash, parent_hash, account_info_fn);
        let storage_contracts = list_members(&listener.storage_contracts);
        DebankBlockOutput {
            traces,
            error_traces,
            events,
            error_events,
            storage_contracts,
            state_diff,
        }
    }
}

/// The members in ascending order.
fn list_members(set: &SortedSet<H160>) -> (r: Vec<H160>)
    ensures
        r@ == sorted(set@),
        is_sorted_list(r@, set@),
{
    let mut list: Vec<H160> = Vec::new();
    let n: usize = set.len();
    let mut i: usize = 0;
    while i < n
        invariant
            i <= n == set.keys().len(),
            set.keys() == sorted(set@),
            is_sorted_list(sorted(set@), set@),
            list@ == sorted(set@).take(i as int),
        decreases n - i,
    {
        list.push(*set.at(i));
        assert(list@ =~= sorted(set@).take(i + 1));
        i += 1;
    }
    assert(sorted(set@).take(i as int) =~= sorted(set@));
    list
}

/// All traces of a transaction, each before those below it, and the events that lasted.
pub fn frame_to_debank(frame: &CallFrame, tx_id: H256) -> (r: (Vec<DebankTrace>, Vec<DebankEvent>))
    ensures
        traces_view(r.0@) == frame_traces(frame@, tx_id, seq![], root_id(tx_id)).map_values(
            |m: (bool, TraceModel)| m.1,
        ),
        events_view(r.1@) == marked(frame_events(frame@, tx_id, root_id(tx_id)), false),
{
    let id = root_trace_id(&tx_id);
    let mut traces: Vec<DebankTrace> = Vec::new();
    assert(traces_view(traces@) =~= seq![]);
    let mut lost_traces: Vec<DebankTrace> = Vec::new();
    let mut kept_traces: Vec<DebankTrace> = Vec::new();
    let mut events: Vec<DebankEvent> = Vec::new();
    let mut lost_events: Vec<DebankEvent> = Vec::new();
    assert(events_view(events@) =~= seq![]);
    list_traces(frame, tx_id, String::new(), id.as_str(), &mut traces);
    process_frame_children(
        frame,
        tx_id,
        id.as_str(),
        &mut kept_traces,
        &mut lost_traces,
        &mut events,
        &mut lost_events,
    );
    (traces, events)
}

/// Hands out the trace of a frame and those below it, failed or not.
fn list_traces(
    frame: &CallFrame,
    tx_hash: H256,
    parent_trace_id: String,
    trace_id: &str,
    traces: &mut Vec<DebankTrace>,
)
    ensures
        traces_view(final(traces)@) == traces_view(old(traces)@) + frame_traces(
            frame@,
            tx_hash,
            parent_trace_id@,
            trace_id@,
        ).map_values(|m: (bool, TraceModel)| m.1),
    decreases *frame,
{
    let ghost start = traces_view(traces@);
    let ghost calls = frame@.calls;
    let ghost id = trace_id@;
    let ghost item = |m: (bool, TraceModel)| m.1;
    let ghost own = trace_of(frame@, tx_hash, parent_trace_id@, id);
    traces.push(frame_to_trace(frame, tx_hash, parent_trace_id, trace_id));
    let mut i: usize = 0;
    proof {
        assert(calls.take(0) =~= seq![]);
        assert(traces_view(traces@) =~= start + seq![own] + calls_traces(
            calls.take(0),
            tx_hash,
            id,
        ).map_values(item));
    }
    while i < frame.calls.len()
        invariant
            i <= frame.calls@.len(),
            calls == frame@.calls,
            id == trace_id@,
            item == (|m: (bool, TraceModel)| m.1),
            traces_view(traces@) == start + seq![own] + calls_traces(
                calls.take(i as int),
                tx_hash,
                id,
            ).map_values(item),
        decreases frame.calls@.len() - i,
    {
        assert(decreases_to!(*frame => frame.calls@[i as int]));
        let child = &frame.calls[i];
        let child_trace = child_trace_id(&tx_hash, trace_id, child.pos_in_parent_trace);
        list_traces(child, tx_hash, trace_id.to_string(), child_trace.as_str(), traces);
        proof {
            let prior = calls_traces(calls.take(i as int), tx_hash, id);
            let more = frame_traces(child@, tx_hash, id, child_trace@);
            assert(calls.take(i + 1).drop_last() =~= calls.take(i as int));
            assert(calls.take(i + 1).last() == child@);
            assert(start + seq![own] + prior.map_values(item) + more.map_values(item) =~= start
                + seq![own] + (prior + more).map_values(item));
        }
        i += 1;
    }
    proof {
        assert(calls.take(i as int) =~= calls);
        let below = calls_traces(calls, tx_hash, id);
        let whole = seq![(frame@.failed, own)] + below;
        assert(start + seq![own] + below.map_values(item) =~= start + whole.map_values(item));
    }
}

} // verus!

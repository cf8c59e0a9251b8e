//! What the traces and events that are handed out say of the frames and logs they come from.
use crate::formatter::{
    block_events, block_traces, calls_events, calls_traces, events_view, frame_events,
    frame_traces, is_output_of, marked, marked_add, traces_view, DebankBlockOutput, EventModel,
    TraceModel,
};
use crate::frame::{DebankCallType, FrameModel, LogModel};
use crate::frame_laws::frame_at;
use crate::listener::ListenerModel;
use crate::primitives::{H160, H256};
use crate::text::{debank_id, decimal, hash_text, hex_chars, joined_bytes, md5_of};
use vstd::prelude::*;
use vstd::utf8::encode_utf8;

verus! {

/// The trace shows the frame: who called whom, with what, and what came of it.
pub open spec fn shows(t: TraceModel, f: FrameModel) -> bool {
    &&& t.from_addr == f.from
    &&& t.to_addr == f.to
    &&& t.value == f.value
    &&& t.input == f.input
    &&& t.output == f.output
    &&& t.gas_limit == f.gas
    &&& t.gas_used == f.gas_used
    &&& t.error == f.error
    &&& t.pos_in_parent_trace == f.pos_in_parent_trace
    &&& t.self_storage_change == f.self_storage_change
    &&& t.storage_change == f.storage_change
    &&& t.subtraces == f.calls.len()
    &&& t.trace_address == f.trace_address
    &&& names_the_type(t.call_create_type, t.call_type, f.call_type)
}

/// The two words name the type of the frame; only a call has the second one.
pub open spec fn names_the_type(kind: Seq<char>, name: Seq<char>, t: DebankCallType) -> bool {
    match t {
        DebankCallType::Call => kind == "call"@ && name == "call"@,
        DebankCallType::CallCode => kind == "call"@ && name == "callcode"@,
        DebankCallType::DelegateCall => kind == "call"@ && name == "delegatecall"@,
        DebankCallType::StaticCall => kind == "call"@ && name == "staticcall"@,
        DebankCallType::Create => kind == "create"@ && name.len() == 0,
        DebankCallType::Suicide => kind == "suicide"@ && name.len() == 0,
    }
}

/// The event shows the log: its first topic is the selector, the others are its topics.
pub open spec fn shows_log(e: EventModel, l: LogModel) -> bool {
    &&& e.contract_id == l.address
    &&& e.data == l.data
    &&& e.pos_in_parent_trace == l.position
    &&& e.idx == l.log_index
    &&& l.topics.len() == 0 ==> e.selector.len() == 0 && e.topics.len() == 0
    &&& l.topics.len() > 0 ==> {
        &&& e.selector == hash_text(l.topics[0])
        &&& e.topics.len() == l.topics.len() - 1
        &&& forall|i: int| 0 <= i < e.topics.len() ==> #[trigger] e.topics[i] == hash_text(
            l.topics[i + 1],
        )
    }
}

/// The identifier of the trace of the frame that a path leads to: that of a call is made of the
/// hash of the transaction, the identifier of the frame around it, and its place there.
pub open spec fn id_at(f: FrameModel, tx: H256, id: Seq<char>, path: Seq<nat>) -> Seq<char>
    decreases path.len(),
{
    if path.len() == 0 {
        id
    } else {
        let child = f.calls[path[0] as int];
        id_at(
            child,
            tx,
            debank_id(seq![hash_text(tx), id, decimal(child.pos_in_parent_trace)]),
            path.drop_first(),
        )
    }
}

/// The traces of a frame start with its own, and those of its calls follow.
pub proof fn own_trace_comes_first(
    f: FrameModel,
    tx: H256,
    parent_id: Seq<char>,
    id: Seq<char>,
)
    ensures
        ({
            let s = frame_traces(f, tx, parent_id, id);
            &&& s.len() == 1 + calls_traces(f.calls, tx, id).len()
            &&& s[0].0 == f.failed
            &&& shows(s[0].1, f)
            &&& s[0].1.id == id
            &&& s[0].1.parent_trace_id == parent_id
            &&& s[0].1.tx_id == tx
            &&& s.skip(1) == calls_traces(f.calls, tx, id)
        }),
{
    let s = frame_traces(f, tx, parent_id, id);
    assert(s.skip(1) =~= calls_traces(f.calls, tx, id));
}

/// The traces of calls come in the order of the calls, each with an identifier made of the hash of
/// the transaction, the identifier of the frame around it, and its place there.
pub proof fn calls_come_in_order(
    a: Seq<FrameModel>,
    b: Seq<FrameModel>,
    f: FrameModel,
    tx: H256,
    id: Seq<char>,
)
    ensures
        calls_traces(a + b, tx, id) == calls_traces(a, tx, id) + calls_traces(b, tx, id),
        calls_traces(seq![], tx, id).len() == 0,
        calls_traces(seq![f], tx, id) == frame_traces(
            f,
            tx,
            id,
            debank_id(seq![hash_text(tx), id, decimal(f.pos_in_parent_trace)]),
        ),
        calls_events(a + b, tx, id) == calls_events(a, tx, id) + calls_events(b, tx, id),
        calls_events(seq![], tx, id).len() == 0,
        calls_events(seq![f], tx, id) == frame_events(
            f,
            tx,
            debank_id(seq![hash_text(tx), id, decimal(f.pos_in_parent_trace)]),
        ),
    decreases b.len(),
{
    let one = seq![f];
    let none = Seq::<FrameModel>::empty();
    assert(one.drop_last() =~= none);
    assert(calls_traces(none, tx, id) =~= seq![]);
    assert(calls_events(none, tx, id) =~= seq![]);
    let own = debank_id(seq![hash_text(tx), id, decimal(f.pos_in_parent_trace)]);
    assert(calls_traces(one, tx, id) =~= frame_traces(f, tx, id, own));
    assert(calls_events(one, tx, id) =~= frame_events(f, tx, own));
    if b.len() == 0 {
        assert(a + b =~= a);
        assert(calls_traces(a, tx, id) + calls_traces(b, tx, id) =~= calls_traces(a, tx, id));
        assert(calls_events(a, tx, id) + calls_events(b, tx, id) =~= calls_events(a, tx, id));
    } else {
        calls_come_in_order(a, b.drop_last(), f, tx, id);
        assert((a + b).drop_last() =~= a + b.drop_last());
        assert((a + b).last() == b.last());
        assert(calls_traces(a + b, tx, id) =~= calls_traces(a, tx, id) + calls_traces(b, tx, id));
        assert(calls_events(a + b, tx, id) =~= calls_events(a, tx, id) + calls_events(b, tx, id));
    }
}

/// The events of a frame are those of its calls, then its own: one for each of its logs, in order,
/// marked if the frame or one above it failed.
pub proof fn own_events_come_last(f: FrameModel, tx: H256, id: Seq<char>)
    ensures
        ({
            let s = frame_events(f, tx, id);
            let n = calls_events(f.calls, tx, id).len() as int;
            &&& s.len() == n + f.logs.len()
            &&& s.take(n) == calls_events(f.calls, tx, id)
            &&& forall|i: int|
                0 <= i < f.logs.len() ==> {
                    let e = #[trigger] s[n + i];
                    &&& e.0 == (f.failed || f.parent_failed)
                    &&& shows_log(e.1, f.logs[i])
                    &&& e.1.id == debank_id(seq![id, decimal(f.logs[i].position)])
                    &&& e.1.parent_trace_id == id
                    &&& e.1.tx_id == tx
                }
        }),
{
    let s = frame_events(f, tx, id);
    let n = calls_events(f.calls, tx, id).len() as int;
    assert(s.take(n) =~= calls_events(f.calls, tx, id));
}

/// The trace is one of those listed, with its mark.
pub open spec fn lists(s: Seq<(bool, TraceModel)>, mark: bool, t: TraceModel) -> bool {
    exists|i: int| 0 <= i < s.len() && #[trigger] s[i] == (mark, t)
}

/// The trace of a call is among those of the frame around it.
proof fn call_is_listed(calls: Seq<FrameModel>, tx: H256, id: Seq<char>, k: int, i: int)
    requires
        0 <= k < calls.len(),
        0 <= i < frame_traces(
            calls[k],
            tx,
            id,
            debank_id(seq![hash_text(tx), id, decimal(calls[k].pos_in_parent_trace)]),
        ).len(),
    ensures
        ({
            let x = frame_traces(
                calls[k],
                tx,
                id,
                debank_id(seq![hash_text(tx), id, decimal(calls[k].pos_in_parent_trace)]),
            )[i];
            lists(calls_traces(calls, tx, id), x.0, x.1)
        }),
{
    let own = debank_id(seq![hash_text(tx), id, decimal(calls[k].pos_in_parent_trace)]);
    let a = calls.take(k);
    let c = seq![calls[k]];
    let b = calls.skip(k + 1);
    assert(calls =~= a + c + b);
    calls_come_in_order(a + c, b, calls[k], tx, id);
    calls_come_in_order(a, c, calls[k], tx, id);
    let s = calls_traces(calls, tx, id);
    let n = calls_traces(a, tx, id).len() as int;
    assert(s[n + i] == frame_traces(calls[k], tx, id, own)[i]);
}

/// Every frame of a tree has a trace that shows it, under the identifier that its path gives it, and
/// the hash of the transaction; it is marked exactly if the frame failed.
pub proof fn every_frame_is_shown(
    f: FrameModel,
    tx: H256,
    parent_id: Seq<char>,
    id: Seq<char>,
    path: Seq<nat>,
) -> (t: TraceModel)
    requires
        frame_at(f, path) is Some,
    ensures
        lists(frame_traces(f, tx, parent_id, id), frame_at(f, path)->0.failed, t),
        shows(t, frame_at(f, path)->0),
        t.tx_id == tx,
        t.id == id_at(f, tx, id, path),
        path.len() == 0 ==> t.parent_trace_id == parent_id,
        path.len() > 0 ==> t.parent_trace_id == id_at(f, tx, id, path.drop_last()),
    decreases path.len(),
{
    let s = frame_traces(f, tx, parent_id, id);
    own_trace_comes_first(f, tx, parent_id, id);
    if path.len() == 0 {
        assert(s[0] == (f.failed, s[0].1));
        s[0].1
    } else {
        let k = path[0] as int;
        let child = f.calls[k];
        let rest = path.drop_first();
        let own = debank_id(seq![hash_text(tx), id, decimal(child.pos_in_parent_trace)]);
        let t = every_frame_is_shown(child, tx, id, own, rest);
        let mark = frame_at(f, path)->0.failed;
        let inner = frame_traces(child, tx, id, own);
        let i = choose|i: int| 0 <= i < inner.len() && #[trigger] inner[i] == (mark, t);
        call_is_listed(f.calls, tx, id, k, i);
        let below = calls_traces(f.calls, tx, id);
        let j = choose|j: int| 0 <= j < below.len() && #[trigger] below[j] == (mark, t);
        assert(s.skip(1)[j] == s[j + 1]);
        assert(s[j + 1] == (mark, t));
        if rest.len() > 0 {
            assert(path.drop_last().drop_first() =~= rest.drop_last());
        } else {
            assert(path.drop_last() =~= seq![]);
        }
        t
    }
}

/// Every trace of a tree shows one of its frames.
pub proof fn every_trace_shows_a_frame(
    f: FrameModel,
    tx: H256,
    parent_id: Seq<char>,
    id: Seq<char>,
    i: int,
) -> (path: Seq<nat>)
    requires
        0 <= i < frame_traces(f, tx, parent_id, id).len(),
    ensures
        frame_at(f, path) is Some,
        shows(frame_traces(f, tx, parent_id, id)[i].1, frame_at(f, path)->0),
        frame_traces(f, tx, parent_id, id)[i].0 == frame_at(f, path)->0.failed,
        frame_traces(f, tx, parent_id, id)[i].1.tx_id == tx,
    decreases f, f.calls.len() + 1,
{
    own_trace_comes_first(f, tx, parent_id, id);
    if i == 0 {
        let none: Seq<nat> = seq![];
        none
    } else {
        let s = frame_traces(f, tx, parent_id, id);
        assert(s.skip(1)[i - 1] == s[i]);
        assert(f.calls.take(f.calls.len() as int) =~= f.calls);
        let (k, rest) = every_call_trace_shows_a_frame(f, f.calls.len() as int, tx, id, i - 1);
        let path = seq![k as nat] + rest;
        assert(path.drop_first() =~= rest);
        path
    }
}

proof fn every_call_trace_shows_a_frame(f: FrameModel, n: int, tx: H256, id: Seq<char>, i: int) -> (r:
    (int, Seq<nat>))
    requires
        0 <= n <= f.calls.len(),
        0 <= i < calls_traces(f.calls.take(n), tx, id).len(),
    ensures
        0 <= r.0 < n,
        frame_at(f.calls[r.0], r.1) is Some,
        shows(calls_traces(f.calls.take(n), tx, id)[i].1, frame_at(f.calls[r.0], r.1)->0),
        calls_traces(f.calls.take(n), tx, id)[i].0 == frame_at(f.calls[r.0], r.1)->0.failed,
        calls_traces(f.calls.take(n), tx, id)[i].1.tx_id == tx,
    decreases f, n,
{
    let calls = f.calls.take(n);
    if n == 0 {
        assert(calls_traces(calls, tx, id).len() == 0);
        (0int, Seq::<nat>::empty())
    } else {
        let rest = f.calls.take(n - 1);
        let child = f.calls[n - 1];
        let own = debank_id(seq![hash_text(tx), id, decimal(child.pos_in_parent_trace)]);
        assert(calls =~= rest + seq![child]);
        calls_come_in_order(rest, seq![child], child, tx, id);
        let m = calls_traces(rest, tx, id).len();
        if i < m {
            every_call_trace_shows_a_frame(f, n - 1, tx, id, i)
        } else {
            let path = every_trace_shows_a_frame(child, tx, id, own, i - m);
            (n - 1, path)
        }
    }
}

/// The event is one of those listed, with its mark.
pub open spec fn lists_event(s: Seq<(bool, EventModel)>, mark: bool, e: EventModel) -> bool {
    exists|i: int| 0 <= i < s.len() && #[trigger] s[i] == (mark, e)
}

/// Every log of every frame of a tree has an event that shows it, under the trace of the frame and
/// the hash of the transaction; it is marked exactly if the frame or one above it failed.
pub proof fn every_log_is_shown(
    f: FrameModel,
    tx: H256,
    id: Seq<char>,
    path: Seq<nat>,
    k: int,
) -> (e: EventModel)
    requires
        frame_at(f, path) is Some,
        0 <= k < frame_at(f, path)->0.logs.len(),
    ensures
        lists_event(
            frame_events(f, tx, id),
            frame_at(f, path)->0.failed || frame_at(f, path)->0.parent_failed,
            e,
        ),
        shows_log(e, frame_at(f, path)->0.logs[k]),
        e.tx_id == tx,
        e.parent_trace_id == id_at(f, tx, id, path),
        e.id == debank_id(
            seq![id_at(f, tx, id, path), decimal(frame_at(f, path)->0.logs[k].position)],
        ),
    decreases path.len(),
{
    let s = frame_events(f, tx, id);
    let n = calls_events(f.calls, tx, id).len() as int;
    own_events_come_last(f, tx, id);
    if path.len() == 0 {
        assert(s[n + k] == (f.failed || f.parent_failed, s[n + k].1));
        s[n + k].1
    } else {
        let c = path[0] as int;
        let child = f.calls[c];
        let own = debank_id(seq![hash_text(tx), id, decimal(child.pos_in_parent_trace)]);
        let e = every_log_is_shown(child, tx, own, path.drop_first(), k);
        let g = frame_at(f, path)->0;
        let mark = g.failed || g.parent_failed;
        let inner = frame_events(child, tx, own);
        let i = choose|i: int| 0 <= i < inner.len() && #[trigger] inner[i] == (mark, e);
        let a = f.calls.take(c);
        let b = f.calls.skip(c + 1);
        assert(f.calls =~= a + seq![child] + b);
        calls_come_in_order(a + seq![child], b, child, tx, id);
        calls_come_in_order(a, seq![child], child, tx, id);
        let m = calls_events(a, tx, id).len() as int;
        let below = calls_events(f.calls, tx, id);
        assert(below[m + i] == inner[i]);
        assert(s.take(n)[m + i] == s[m + i]);
        assert(s[m + i] == (mark, e));
        e
    }
}

/// Every event of a tree belongs to the transaction.
pub proof fn events_belong_to_their_transaction(f: FrameModel, tx: H256, id: Seq<char>)
    ensures
        forall|i: int|
            0 <= i < frame_events(f, tx, id).len() ==> (#[trigger] frame_events(
                f,
                tx,
                id,
            )[i]).1.tx_id == tx,
    decreases f, f.calls.len() + 1,
{
    own_events_come_last(f, tx, id);
    call_events_belong(f, f.calls.len() as int, tx, id);
    assert(f.calls.take(f.calls.len() as int) =~= f.calls);
    let s = frame_events(f, tx, id);
    let n = calls_events(f.calls, tx, id).len() as int;
    assert forall|i: int| 0 <= i < s.len() implies (#[trigger] s[i]).1.tx_id == tx by {
        if i < n {
            assert(s.take(n)[i] == s[i]);
        } else {
            assert(s[n + (i - n)].1.tx_id == tx);
        }
    }
}

proof fn call_events_belong(f: FrameModel, n: int, tx: H256, id: Seq<char>)
    requires
        0 <= n <= f.calls.len(),
    ensures
        forall|i: int|
            0 <= i < calls_events(f.calls.take(n), tx, id).len() ==> (#[trigger] calls_events(
                f.calls.take(n),
                tx,
                id,
            )[i]).1.tx_id == tx,
    decreases f, n,
{
    if n > 0 {
        let rest = f.calls.take(n - 1);
        let child = f.calls[n - 1];
        let own = debank_id(seq![hash_text(tx), id, decimal(child.pos_in_parent_trace)]);
        assert(f.calls.take(n) =~= rest + seq![child]);
        calls_come_in_order(rest, seq![child], child, tx, id);
        call_events_belong(f, n - 1, tx, id);
        events_belong_to_their_transaction(child, tx, own);
        let s = calls_events(f.calls.take(n), tx, id);
        let m = calls_events(rest, tx, id).len() as int;
        assert forall|i: int| 0 <= i < s.len() implies (#[trigger] s[i]).1.tx_id == tx by {
            if i >= m {
                assert(s[i] == frame_events(child, tx, own)[i - m]);
            } else {
                assert(s[i] == calls_events(rest, tx, id)[i]);
            }
        }
    }
}

/// The traces and events of a block are those of its transactions, one after the other. Those of the
/// transaction at a position all carry the hash at that position, and its root has the identifier
/// made of that hash; a transaction without a hash has the hash of zeros.
pub proof fn transactions_keep_their_hashes(
    roots: Seq<FrameModel>,
    txs: Seq<H256>,
    i: int,
    tx: H256,
)
    requires
        0 <= i < roots.len(),
        i < txs.len() ==> tx == txs[i],
        i >= txs.len() ==> tx.0@ == Seq::new(32, |j: int| 0u8),
    ensures
        ({
            let id = debank_id(seq![hash_text(tx), seq![], seq!['0']]);
            let traces = frame_traces(roots[i], tx, seq![], id);
            let events = frame_events(roots[i], tx, id);
            &&& block_traces(roots.take(i + 1), txs) == block_traces(roots.take(i), txs) + traces
            &&& block_events(roots.take(i + 1), txs) == block_events(roots.take(i), txs) + events
            &&& traces.len() > 0
            &&& traces[0].1.id == id
            &&& traces[0].1.parent_trace_id.len() == 0
            &&& shows(traces[0].1, roots[i])
            &&& forall|j: int| 0 <= j < traces.len() ==> (#[trigger] traces[j]).1.tx_id == tx
            &&& forall|j: int| 0 <= j < events.len() ==> (#[trigger] events[j]).1.tx_id == tx
        }),
        block_traces(seq![], txs).len() == 0,
        block_events(seq![], txs).len() == 0,
{
    reveal_strlit("");
    reveal_strlit("0");
    let id = debank_id(seq![hash_text(tx), seq![], seq!['0']]);
    assert(""@ =~= seq![]);
    assert("0"@ =~= seq!['0']);
    if i >= txs.len() {
        assert(H256::zero().0@ =~= Seq::new(32, |j: int| 0u8));
        crate::primitives::ByteKey::key_identifies(tx, H256::zero());
    }
    assert(roots.take(i + 1).drop_last() =~= roots.take(i));
    assert(roots.take(i + 1).last() == roots[i]);
    own_trace_comes_first(roots[i], tx, seq![], id);
    events_belong_to_their_transaction(roots[i], tx, id);
    let traces = frame_traces(roots[i], tx, seq![], id);
    assert forall|j: int| 0 <= j < traces.len() implies (#[trigger] traces[j]).1.tx_id == tx by {
        let _path = every_trace_shows_a_frame(roots[i], tx, seq![], id, j);
    }
}

/// The list of the items with a mark holds exactly these, in their order.
pub proof fn marked_items_are_picked<T>(s: Seq<(bool, T)>, t: Seq<(bool, T)>, item: T, mark: bool)
    ensures
        marked(s + t, mark) == marked(s, mark) + marked(t, mark),
        marked(seq![(mark, item)], mark) == seq![item],
        marked(seq![(!mark, item)], mark).len() == 0,
        marked(Seq::<(bool, T)>::empty(), mark).len() == 0,
{
    marked_add(s, t, mark);
    let one = seq![(mark, item)];
    let other = seq![(!mark, item)];
    assert(one.drop_last() =~= Seq::<(bool, T)>::empty());
    assert(other.drop_last() =~= Seq::<(bool, T)>::empty());
    assert(marked(Seq::<(bool, T)>::empty(), mark) =~= Seq::<T>::empty());
    assert(marked(one, mark) =~= seq![item]);
}

/// What is handed out of a block: the frames that did not fail have their traces in the one list,
/// those that failed in the other; the events of frames that lasted are in the one list, those of
/// frames that failed or were undone in the other. The contracts are those with changed storage.
pub proof fn output_is_split_by_failure(
    r: DebankBlockOutput,
    s: ListenerModel,
    txs: Seq<H256>,
)
    requires
        is_output_of(r, s, txs),
    ensures
        traces_view(r.traces@) == marked(block_traces(s.completed_frames, txs), false),
        traces_view(r.error_traces@) == marked(block_traces(s.completed_frames, txs), true),
        events_view(r.events@) == marked(block_events(s.completed_frames, txs), false),
        events_view(r.error_events@) == marked(block_events(s.completed_frames, txs), true),
        forall|a: H160| #[trigger]
            r.storage_contracts@.contains(a) <==> s.storage_contracts.contains(a),
{
}

/// An identifier is the digest of the bytes of its parts, one after the other, in hexadecimal.
pub proof fn parts_follow_each_other(a: Seq<Seq<char>>, b: Seq<Seq<char>>, part: Seq<char>)
    ensures
        joined_bytes(a + b) == joined_bytes(a) + joined_bytes(b),
        joined_bytes(seq![part]) == encode_utf8(part),
        joined_bytes(Seq::<Seq<char>>::empty()).len() == 0,
        debank_id(a).len() == 2 * md5_of(joined_bytes(a)).len(),
        debank_id(a) == hex_chars(md5_of(joined_bytes(a))),
    decreases b.len(),
{
    let one = seq![part];
    assert(one.drop_last() =~= Seq::<Seq<char>>::empty());
    assert(joined_bytes(Seq::<Seq<char>>::empty()) =~= Seq::<u8>::empty());
    assert(joined_bytes(one) =~= encode_utf8(part));
    if b.len() == 0 {
        assert(a + b =~= a);
        assert(joined_bytes(a) + joined_bytes(b) =~= joined_bytes(a));
    } else {
        parts_follow_each_other(a, b.drop_last(), part);
        assert((a + b).drop_last() =~= a + b.drop_last());
        assert(joined_bytes(a + b) =~= joined_bytes(a) + joined_bytes(b));
    }
}

} // verus!

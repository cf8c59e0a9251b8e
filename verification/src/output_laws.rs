//! What is handed out of a block shows each frame and each log of its transactions, and nothing else.
use crate::formatter::{
    block_events, block_traces, calls_events, frame_events, frame_traces, is_output_of, marked,
    DebankBlockOutput, EventModel, TraceModel,
};
use crate::frame::FrameModel;
use crate::frame_laws::frame_at;
use crate::listener::ListenerModel;
use crate::primitives::H256;
use crate::simulate_laws::listed_is_marked;
use crate::text::{debank_id, decimal, hash_text};
use crate::trace_laws::{
    calls_come_in_order, every_frame_is_shown, every_log_is_shown, every_trace_shows_a_frame,
    id_at, own_events_come_last, shows, shows_log, transactions_keep_their_hashes,
};
use vstd::prelude::*;

verus! {

/// The transaction at a position has the hash that stands there, or that of zeros if none does.
pub open spec fn has_hash(txs: Seq<H256>, i: int, tx: H256) -> bool {
    &&& i < txs.len() ==> tx == txs[i]
    &&& i >= txs.len() ==> tx.0@ == Seq::new(32, |j: int| 0u8)
}

/// The identifier of the trace of a root frame.
pub open spec fn id_of_root(tx: H256) -> Seq<char> {
    debank_id(seq![hash_text(tx), seq![], seq!['0']])
}

/// Each position has a hash.
proof fn hash_at(txs: Seq<H256>, i: int) -> (tx: H256)
    requires
        0 <= i,
    ensures
        has_hash(txs, i, tx),
{
    assert(H256::zero().0@ =~= Seq::new(32, |j: int| 0u8));
    if i < txs.len() {
        txs[i]
    } else {
        H256::zero()
    }
}

/// What comes of a transaction is found among what comes of the first `m` ones.
proof fn part_of_the_block(roots: Seq<FrameModel>, txs: Seq<H256>, i: int, tx: H256, m: int)
    requires
        0 <= i < m <= roots.len(),
        has_hash(txs, i, tx),
    ensures
        ({
            let traces = frame_traces(roots[i], tx, seq![], id_of_root(tx));
            let events = frame_events(roots[i], tx, id_of_root(tx));
            let all = block_traces(roots.take(m), txs);
            let notes = block_events(roots.take(m), txs);
            let a = block_traces(roots.take(i), txs).len();
            let b = block_events(roots.take(i), txs).len();
            &&& all.len() >= a + traces.len()
            &&& notes.len() >= b + events.len()
            &&& forall|j: int| 0 <= j < traces.len() ==> all[a + j] == #[trigger] traces[j]
            &&& forall|j: int| 0 <= j < events.len() ==> notes[b + j] == #[trigger] events[j]
        }),
    decreases m,
{
    if m == i + 1 {
        transactions_keep_their_hashes(roots, txs, i, tx);
    } else {
        part_of_the_block(roots, txs, i, tx, m - 1);
        let other = hash_at(txs, m - 1);
        transactions_keep_their_hashes(roots, txs, m - 1, other);
    }
}

/// What comes of the first `m` transactions comes of one of them.
proof fn trace_of_the_block(roots: Seq<FrameModel>, txs: Seq<H256>, m: int, k: int) -> (r: (
    int,
    int,
    H256,
))
    requires
        0 <= m <= roots.len(),
        0 <= k < block_traces(roots.take(m), txs).len(),
    ensures
        0 <= r.0 < m,
        has_hash(txs, r.0, r.2),
        0 <= r.1 < frame_traces(roots[r.0], r.2, seq![], id_of_root(r.2)).len(),
        block_traces(roots.take(m), txs)[k] == frame_traces(
            roots[r.0],
            r.2,
            seq![],
            id_of_root(r.2),
        )[r.1],
    decreases m,
{
    if m == 0 {
        assert(roots.take(0) =~= seq![]);
        (0int, 0int, arbitrary())
    } else {
        let tx = hash_at(txs, m - 1);
        transactions_keep_their_hashes(roots, txs, m - 1, tx);
        let n = block_traces(roots.take(m - 1), txs).len();
        if k < n {
            trace_of_the_block(roots, txs, m - 1, k)
        } else {
            (m - 1, k - n, tx)
        }
    }
}

/// The same for events.
proof fn event_of_the_block(roots: Seq<FrameModel>, txs: Seq<H256>, m: int, k: int) -> (r: (
    int,
    int,
    H256,
))
    requires
        0 <= m <= roots.len(),
        0 <= k < block_events(roots.take(m), txs).len(),
    ensures
        0 <= r.0 < m,
        has_hash(txs, r.0, r.2),
        0 <= r.1 < frame_events(roots[r.0], r.2, id_of_root(r.2)).len(),
        block_events(roots.take(m), txs)[k] == frame_events(roots[r.0], r.2, id_of_root(r.2))[r.1],
    decreases m,
{
    if m == 0 {
        assert(roots.take(0) =~= seq![]);
        (0int, 0int, arbitrary())
    } else {
        let tx = hash_at(txs, m - 1);
        transactions_keep_their_hashes(roots, txs, m - 1, tx);
        let n = block_events(roots.take(m - 1), txs).len();
        if k < n {
            event_of_the_block(roots, txs, m - 1, k)
        } else {
            (m - 1, k - n, tx)
        }
    }
}

/// Every event of a tree shows a log of one of its frames, under the trace of that frame; it is
/// marked exactly if the frame or one above it failed.
pub proof fn every_event_shows_a_log(f: FrameModel, tx: H256, id: Seq<char>, i: int) -> (r: (
    Seq<nat>,
    int,
))
    requires
        0 <= i < frame_events(f, tx, id).len(),
    ensures
        ({
            let (mark, e) = frame_events(f, tx, id)[i];
            let g = frame_at(f, r.0)->0;
            &&& frame_at(f, r.0) is Some
            &&& 0 <= r.1 < g.logs.len()
            &&& shows_log(e, g.logs[r.1])
            &&& e.tx_id == tx
            &&& e.parent_trace_id == id_at(f, tx, id, r.0)
            &&& mark == (g.failed || g.parent_failed)
        }),
    decreases f, f.calls.len() + 1,
{
    let s = frame_events(f, tx, id);
    let n = calls_events(f.calls, tx, id).len() as int;
    own_events_come_last(f, tx, id);
    if i >= n {
        let none: Seq<nat> = seq![];
        assert(s[n + (i - n)] == s[i]);
        (none, i - n)
    } else {
        assert(s.take(n)[i] == s[i]);
        assert(f.calls.take(f.calls.len() as int) =~= f.calls);
        let (k, rest, j) = every_call_event_shows_a_log(f, f.calls.len() as int, tx, id, i);
        let path = seq![k as nat] + rest;
        assert(path.drop_first() =~= rest);
        (path, j)
    }
}

proof fn every_call_event_shows_a_log(f: FrameModel, n: int, tx: H256, id: Seq<char>, i: int) -> (r:
    (int, Seq<nat>, int))
    requires
        0 <= n <= f.calls.len(),
        0 <= i < calls_events(f.calls.take(n), tx, id).len(),
    ensures
        ({
            let (mark, e) = calls_events(f.calls.take(n), tx, id)[i];
            let child = f.calls[r.0];
            let own = debank_id(seq![hash_text(tx), id, decimal(child.pos_in_parent_trace)]);
            let g = frame_at(child, r.1)->0;
            &&& 0 <= r.0 < n
            &&& frame_at(child, r.1) is Some
            &&& 0 <= r.2 < g.logs.len()
            &&& shows_log(e, g.logs[r.2])
            &&& e.tx_id == tx
            &&& e.parent_trace_id == id_at(child, tx, own, r.1)
            &&& mark == (g.failed || g.parent_failed)
        }),
    decreases f, n,
{
    let calls = f.calls.take(n);
    if n == 0 {
        assert(calls_events(calls, tx, id).len() == 0);
        (0int, Seq::<nat>::empty(), 0int)
    } else {
        let rest = f.calls.take(n - 1);
        let child = f.calls[n - 1];
        let own = debank_id(seq![hash_text(tx), id, decimal(child.pos_in_parent_trace)]);
        assert(calls =~= rest + seq![child]);
        calls_come_in_order(rest, seq![child], child, tx, id);
        let m = calls_events(rest, tx, id).len();
        if i < m {
            every_call_event_shows_a_log(f, n - 1, tx, id, i)
        } else {
            let (path, j) = every_event_shows_a_log(child, tx, own, i - m);
            (n - 1, path, j)
        }
    }
}

/// Every frame of every transaction is handed out: in the one list if it did not fail, in the other
/// if it did. Its trace shows it, carries the hash of its own transaction, and has the identifier
/// that its path gives it.
pub proof fn every_frame_is_handed_out(
    r: DebankBlockOutput,
    s: ListenerModel,
    txs: Seq<H256>,
    i: int,
    tx: H256,
    path: Seq<nat>,
) -> (k: int)
    requires
        is_output_of(r, s, txs),
        0 <= i < s.completed_frames.len(),
        has_hash(txs, i, tx),
        frame_at(s.completed_frames[i], path) is Some,
    ensures
        ({
            let f = s.completed_frames[i];
            let g = frame_at(f, path)->0;
            let list = if g.failed {
                r.error_traces@
            } else {
                r.traces@
            };
            let t = list[k]@;
            &&& 0 <= k < list.len()
            &&& shows(t, g)
            &&& t.tx_id == tx
            &&& t.id == id_at(f, tx, id_of_root(tx), path)
            &&& path.len() == 0 ==> t.id == id_of_root(tx) && t.parent_trace_id.len() == 0
            &&& path.len() > 0 ==> t.parent_trace_id == id_at(
                f,
                tx,
                id_of_root(tx),
                path.drop_last(),
            )
        }),
{
    let roots = s.completed_frames;
    let f = roots[i];
    let g = frame_at(f, path)->0;
    let t = every_frame_is_shown(f, tx, seq![], id_of_root(tx), path);
    let own = frame_traces(f, tx, seq![], id_of_root(tx));
    let j = choose|j: int| 0 <= j < own.len() && #[trigger] own[j] == (g.failed, t);
    part_of_the_block(roots, txs, i, tx, roots.len() as int);
    assert(roots.take(roots.len() as int) =~= roots);
    let all = block_traces(roots, txs);
    let a = block_traces(roots.take(i), txs).len();
    assert(all[a + j] == (g.failed, t));
    listed_is_marked(all, g.failed, t);
    let kept = marked(all, g.failed);
    assert(kept.contains(t));
    choose|k: int| 0 <= k < kept.len() && kept[k] == t
}

/// Every log of every frame of every transaction is handed out: in the one list if it lasted, in the
/// other if its frame or one above it failed. Its event shows it and carries the hash of its own
/// transaction and the identifier of the trace of its frame.
pub proof fn every_log_is_handed_out(
    r: DebankBlockOutput,
    s: ListenerModel,
    txs: Seq<H256>,
    i: int,
    tx: H256,
    path: Seq<nat>,
    n: int,
) -> (k: int)
    requires
        is_output_of(r, s, txs),
        0 <= i < s.completed_frames.len(),
        has_hash(txs, i, tx),
        frame_at(s.completed_frames[i], path) is Some,
        0 <= n < frame_at(s.completed_frames[i], path)->0.logs.len(),
    ensures
        ({
            let f = s.completed_frames[i];
            let g = frame_at(f, path)->0;
            let list = if g.failed || g.parent_failed {
                r.error_events@
            } else {
                r.events@
            };
            let e = list[k]@;
            &&& 0 <= k < list.len()
            &&& shows_log(e, g.logs[n])
            &&& e.tx_id == tx
            &&& e.parent_trace_id == id_at(f, tx, id_of_root(tx), path)
            &&& e.id == debank_id(seq![e.parent_trace_id, decimal(g.logs[n].position)])
        }),
{
    let roots = s.completed_frames;
    let f = roots[i];
    let g = frame_at(f, path)->0;
    let mark = g.failed || g.parent_failed;
    let e = every_log_is_shown(f, tx, id_of_root(tx), path, n);
    let own = frame_events(f, tx, id_of_root(tx));
    let j = choose|j: int| 0 <= j < own.len() && #[trigger] own[j] == (mark, e);
    part_of_the_block(roots, txs, i, tx, roots.len() as int);
    assert(roots.take(roots.len() as int) =~= roots);
    let all = block_events(roots, txs);
    let b = block_events(roots.take(i), txs).len();
    assert(all[b + j] == (mark, e));
    listed_is_marked(all, mark, e);
    let kept = marked(all, mark);
    assert(kept.contains(e));
    choose|k: int| 0 <= k < kept.len() && kept[k] == e
}

/// Every trace that is handed out shows a frame of one of the transactions and carries the hash of
/// that one; in the one list the frame did not fail, in the other it did.
pub proof fn only_frames_are_handed_out(
    r: DebankBlockOutput,
    s: ListenerModel,
    txs: Seq<H256>,
    failed: bool,
    k: int,
) -> (w: (int, Seq<nat>))
    requires
        is_output_of(r, s, txs),
        failed ==> 0 <= k < r.error_traces@.len(),
        !failed ==> 0 <= k < r.traces@.len(),
    ensures
        ({
            let t = if failed {
                r.error_traces@[k]@
            } else {
                r.traces@[k]@
            };
            let g = frame_at(s.completed_frames[w.0], w.1)->0;
            &&& 0 <= w.0 < s.completed_frames.len()
            &&& frame_at(s.completed_frames[w.0], w.1) is Some
            &&& shows(t, g)
            &&& g.failed == failed
            &&& has_hash(txs, w.0, t.tx_id)
        }),
{
    let roots = s.completed_frames;
    assert(roots.take(roots.len() as int) =~= roots);
    let all = block_traces(roots, txs);
    let t: TraceModel = if failed {
        r.error_traces@[k]@
    } else {
        r.traces@[k]@
    };
    let kept = marked(all, failed);
    assert(kept[k] == t);
    listed_is_marked(all, failed, t);
    assert(kept.contains(t));
    let j = choose|j: int| 0 <= j < all.len() && #[trigger] all[j] == (failed, t);
    let (i, n, tx) = trace_of_the_block(roots, txs, roots.len() as int, j);
    let path = every_trace_shows_a_frame(roots[i], tx, seq![], id_of_root(tx), n);
    (i, path)
}

/// Every event that is handed out shows a log of a frame of one of the transactions and carries the
/// hash of that one; in the one list the log lasted, in the other it did not.
pub proof fn only_logs_are_handed_out(
    r: DebankBlockOutput,
    s: ListenerModel,
    txs: Seq<H256>,
    undone: bool,
    k: int,
) -> (w: (int, Seq<nat>, int))
    requires
        is_output_of(r, s, txs),
        undone ==> 0 <= k < r.error_events@.len(),
        !undone ==> 0 <= k < r.events@.len(),
    ensures
        ({
            let e = if undone {
                r.error_events@[k]@
            } else {
                r.events@[k]@
            };
            let g = frame_at(s.completed_frames[w.0], w.1)->0;
            &&& 0 <= w.0 < s.completed_frames.len()
            &&& frame_at(s.completed_frames[w.0], w.1) is Some
            &&& 0 <= w.2 < g.logs.len()
            &&& shows_log(e, g.logs[w.2])
            &&& undone == (g.failed || g.parent_failed)
            &&& has_hash(txs, w.0, e.tx_id)
        }),
{
    let roots = s.completed_frames;
    assert(roots.take(roots.len() as int) =~= roots);
    let all = block_events(roots, txs);
    let e: EventModel = if undone {
        r.error_events@[k]@
    } else {
        r.events@[k]@
    };
    let kept = marked(all, undone);
    assert(kept[k] == e);
    listed_is_marked(all, undone, e);
    assert(kept.contains(e));
    let j = choose|j: int| 0 <= j < all.len() && #[trigger] all[j] == (undone, e);
    let (i, n, tx) = event_of_the_block(roots, txs, roots.len() as int, j);
    let (path, l) = every_event_shows_a_log(roots[i], tx, id_of_root(tx), n);
    (i, path, l)
}

} // verus!

//! What the flags, positions and paths of a call tree say.
use crate::frame::{with_parent_failed, with_storage_change, FrameModel, LogModel};
use crate::listener::{with_call, ListenerModel};
use vstd::prelude::*;

verus! {

/// The frame that a path leads to from `f`: at each level it names a call by its index.
pub open spec fn frame_at(f: FrameModel, path: Seq<nat>) -> Option<FrameModel>
    decreases path.len(),
{
    if path.len() == 0 {
        Some(f)
    } else if path[0] < f.calls.len() {
        frame_at(f.calls[path[0] as int], path.drop_first())
    } else {
        None
    }
}

/// A frame strictly above the end of the path failed.
pub open spec fn failed_above(f: FrameModel, path: Seq<nat>) -> bool {
    exists|k: int|
        0 <= k < path.len() && (#[trigger] frame_at(f, path.take(k))) is Some && frame_at(
            f,
            path.take(k),
        )->0.failed
}

/// The path leads from `f` to a frame that wrote to storage itself, through frames below `f` none
/// of which failed.
pub open spec fn writes_at(f: FrameModel, path: Seq<nat>) -> bool {
    &&& frame_at(f, path) is Some
    &&& frame_at(f, path)->0.self_storage_change
    &&& forall|k: int|
        0 < k <= path.len() ==> !(#[trigger] frame_at(f, path.take(k)))->0.failed
}

/// In the whole tree `storage_change` says no more than `self_storage_change`.
pub open spec fn marks_are_own(f: FrameModel) -> bool
    decreases f,
{
    &&& f.storage_change == f.self_storage_change
    &&& forall|i: int| 0 <= i < f.calls.len() ==> marks_are_own(#[trigger] f.calls[i])
}

/// Working out `storage_change` moves no frame.
pub proof fn storage_change_moves_nothing(f: FrameModel, path: Seq<nat>)
    ensures
        frame_at(with_storage_change(f), path) == (match frame_at(f, path) {
            Some(g) => Some(with_storage_change(g)),
            None => None,
        }),
    decreases path.len(),
{
    if path.len() > 0 && path[0] < f.calls.len() {
        storage_change_moves_nothing(f.calls[path[0] as int], path.drop_first());
    }
}

/// Telling calls of failures above them moves no frame and makes none fail.
pub proof fn parent_failed_moves_nothing(f: FrameModel, above: bool, path: Seq<nat>)
    ensures
        ({
            let a = frame_at(with_parent_failed(f, above), path);
            let b = frame_at(f, path);
            &&& (a is Some) == (b is Some)
            &&& a is Some ==> a->0.failed == b->0.failed && a->0.self_storage_change
                == b->0.self_storage_change
        }),
    decreases path.len(),
{
    if path.len() > 0 && path[0] < f.calls.len() {
        let failed = f.failed || above;
        let child = f.calls[path[0] as int];
        let told = FrameModel { parent_failed: failed, ..with_parent_failed(child, failed) };
        assert(with_parent_failed(f, above).calls[path[0] as int] == told);
        parent_failed_moves_nothing(child, failed, path.drop_first());
        assert(path.drop_first().len() > 0 ==> frame_at(told, path.drop_first()) == frame_at(
            with_parent_failed(child, failed),
            path.drop_first(),
        ));
    }
}

/// Once told, a frame below the root knows of a failure exactly if a frame above it failed or the
/// root was told of one.
proof fn parent_failed_tells(f: FrameModel, above: bool, path: Seq<nat>)
    requires
        path.len() > 0,
        frame_at(f, path) is Some,
    ensures
        ({
            let t = with_parent_failed(f, above);
            &&& frame_at(t, path) is Some
            &&& frame_at(t, path)->0.parent_failed == (above || failed_above(t, path))
        }),
    decreases path.len(),
{
    let t = with_parent_failed(f, above);
    let failed = f.failed || above;
    let i = path[0] as int;
    let rest = path.drop_first();
    let child = f.calls[i];
    let child_told = with_parent_failed(child, failed);
    let told = FrameModel { parent_failed: failed, ..child_told };
    assert(t.calls[i] == told);
    parent_failed_moves_nothing(f, above, path);
    assert(path.take(0) =~= seq![]);
    assert(frame_at(t, path.take(0)) == Some(t));
    if rest.len() == 0 {
        assert(frame_at(t, path) == Some(told));
        if failed_above(t, path) {
            let k = choose|k: int|
                0 <= k < path.len() && (#[trigger] frame_at(t, path.take(k))) is Some && frame_at(
                    t,
                    path.take(k),
                )->0.failed;
            assert(k == 0);
        }
    } else {
        parent_failed_tells(child, failed, rest);
        assert(frame_at(told, rest) == frame_at(child_told, rest));
        assert forall|k: int| 0 <= k < rest.len() implies (frame_at(child_told, rest.take(k)) is Some
            && frame_at(child_told, rest.take(k))->0.failed) == (#[trigger] frame_at(
            t,
            path.take(k + 1),
        ) is Some && frame_at(t, path.take(k + 1))->0.failed) by {
            assert(path.take(k + 1).drop_first() =~= rest.take(k));
            if k == 0 {
                assert(rest.take(0) =~= seq![]);
            } else {
                assert(frame_at(told, rest.take(k)) == frame_at(child_told, rest.take(k)));
            }
        }
        if failed_above(child_told, rest) {
            let k = choose|k: int|
                0 <= k < rest.len() && (#[trigger] frame_at(child_told, rest.take(k))) is Some
                    && frame_at(child_told, rest.take(k))->0.failed;
            assert(frame_at(t, path.take(k + 1)) is Some);
            assert(failed_above(t, path));
        }
        if failed_above(t, path) {
            let k = choose|k: int|
                0 <= k < path.len() && (#[trigger] frame_at(t, path.take(k))) is Some && frame_at(
                    t,
                    path.take(k),
                )->0.failed;
            if k > 0 {
                assert(frame_at(t, path.take((k - 1) + 1)) is Some);
                assert(frame_at(child_told, rest.take(k - 1)) is Some);
                assert(failed_above(child_told, rest));
            }
        }
    }
}

/// In a tree that is kept, a frame below the root knows of a failure exactly if a frame above it
/// failed.
pub proof fn parent_failed_means_failure_above(root: FrameModel, path: Seq<nat>)
    requires
        path.len() > 0,
        frame_at(root, path) is Some,
    ensures
        ({
            let kept = ListenerModel::kept_root(root);
            &&& frame_at(kept, path) is Some
            &&& frame_at(kept, path)->0.parent_failed == failed_above(kept, path)
        }),
{
    let kept = ListenerModel::kept_root(root);
    let settled = ListenerModel::settled_root(root);
    let closed = if root.exited {
        root
    } else {
        crate::frame::with_gas_settled(
            FrameModel {
                failed: true,
                error: "early exit (out of gas, stack overflow, direct call to precompile, ...)"@,
                ..root
            },
        )
    };
    assert(frame_at(closed, path) == frame_at(root, path));
    parent_failed_tells(closed, false, path);
    assert forall|p: Seq<nat>| true implies (#[trigger] frame_at(kept, p)) == (match frame_at(
        settled,
        p,
    ) {
        Some(g) => Some(with_storage_change(g)),
        None => None,
    }) by {
        storage_change_moves_nothing(settled, p);
    }
    if failed_above(settled, path) {
        let k = choose|k: int|
            0 <= k < path.len() && (#[trigger] frame_at(settled, path.take(k))) is Some && frame_at(
                settled,
                path.take(k),
            )->0.failed;
        assert(frame_at(kept, path.take(k)) is Some);
    }
    if failed_above(kept, path) {
        let k = choose|k: int|
            0 <= k < path.len() && (#[trigger] frame_at(kept, path.take(k))) is Some && frame_at(
                kept,
                path.take(k),
            )->0.failed;
        assert(frame_at(settled, path.take(k)) is Some);
    }
}

/// Once worked out, `storage_change` of a frame says exactly that a write can be reached from it
/// through calls none of which failed.
pub proof fn storage_change_means_reachable_write(f: FrameModel)
    requires
        marks_are_own(f),
    ensures
        with_storage_change(f).storage_change == exists|path: Seq<nat>| #[trigger]
            writes_at(f, path),
    decreases f,
{
    let calls = with_storage_change(f).calls;
    if with_storage_change(f).storage_change {
        if f.self_storage_change {
            let path: Seq<nat> = seq![];
            assert(frame_at(f, path) == Some(f));
            assert(writes_at(f, path));
        } else {
            let i = choose|i: int|
                0 <= i < calls.len() && (#[trigger] calls[i]).storage_change && !calls[i].failed;
            let child = f.calls[i];
            assert(marks_are_own(child));
            storage_change_means_reachable_write(child);
            let rest = choose|path: Seq<nat>| #[trigger] writes_at(child, path);
            let path = seq![i as nat] + rest;
            assert(path.drop_first() =~= rest);
            assert(frame_at(f, path) == frame_at(child, rest));
            assert forall|k: int| 0 < k <= path.len() implies !(#[trigger] frame_at(
                f,
                path.take(k),
            ))->0.failed by {
                assert(path.take(k).drop_first() =~= rest.take(k - 1));
                assert(frame_at(f, path.take(k)) == frame_at(child, rest.take(k - 1)));
                if k == 1 {
                    assert(rest.take(0) =~= seq![]);
                }
            }
            assert(writes_at(f, path));
        }
    }
    if exists|path: Seq<nat>| #[trigger] writes_at(f, path) {
        let path = choose|path: Seq<nat>| #[trigger] writes_at(f, path);
        if path.len() > 0 {
            let i = path[0] as int;
            let child = f.calls[i];
            let rest = path.drop_first();
            let none: Seq<nat> = seq![];
            assert(frame_at(child, none) == Some(child));
            assert(path.take(1).drop_first() =~= none);
            assert(frame_at(f, path.take(1)) == Some(child));
            assert forall|k: int| 0 < k <= rest.len() implies !(#[trigger] frame_at(
                child,
                rest.take(k),
            ))->0.failed by {
                assert(path.take(k + 1).drop_first() =~= rest.take(k));
                assert(frame_at(f, path.take(k + 1)) == frame_at(child, rest.take(k)));
            }
            assert(writes_at(child, rest));
            assert(marks_are_own(child));
            storage_change_means_reachable_write(child);
            assert(calls[i].storage_change && !calls[i].failed);
        }
    }
}

/// The positions of the calls and logs of every frame of the tree are different numbers below
/// their count, and grow among the calls and among the logs.
pub open spec fn placed(f: FrameModel) -> bool
    decreases f,
{
    let n = f.calls.len() + f.logs.len();
    &&& forall|i: int|
        0 <= i < f.calls.len() ==> placed(#[trigger] f.calls[i]) && f.calls[i].pos_in_parent_trace
            < n
    &&& forall|j: int| 0 <= j < f.logs.len() ==> (#[trigger] f.logs[j]).position < n
    &&& forall|i: int, j: int|
        0 <= i < j < f.calls.len() ==> (#[trigger] f.calls[i]).pos_in_parent_trace < (
        #[trigger] f.calls[j]).pos_in_parent_trace
    &&& forall|i: int, j: int|
        0 <= i < j < f.logs.len() ==> (#[trigger] f.logs[i]).position < (
        #[trigger] f.logs[j]).position
    &&& forall|i: int, j: int|
        0 <= i < f.calls.len() && 0 <= j < f.logs.len() ==> (
        #[trigger] f.calls[i]).pos_in_parent_trace != (#[trigger] f.logs[j]).position
}

/// Only the calls and logs of a frame matter to their places.
pub proof fn placed_by_contents(f: FrameModel, g: FrameModel)
    requires
        placed(f),
        f.calls == g.calls,
        f.logs == g.logs,
    ensures
        placed(g),
{
}

/// Adding a call keeps the places right.
pub proof fn placed_with_call(f: FrameModel, child: FrameModel)
    requires
        placed(f),
        placed(child),
    ensures
        placed(with_call(f, child)),
{
    let g = with_call(f, child);
    placed_by_contents(child, g.calls.last());
    assert forall|i: int| 0 <= i < g.calls.len() implies placed(#[trigger] g.calls[i])
        && g.calls[i].pos_in_parent_trace < g.calls.len() + g.logs.len() by {
        if i < f.calls.len() {
            assert(g.calls[i] == f.calls[i]);
        }
    }
    assert forall|i: int, j: int| 0 <= i < j < g.calls.len() implies (
    #[trigger] g.calls[i]).pos_in_parent_trace < (#[trigger] g.calls[j]).pos_in_parent_trace by {
        assert(g.calls[i] == f.calls[i]);
        if j < f.calls.len() {
            assert(g.calls[j] == f.calls[j]);
        }
    }
    assert forall|i: int, j: int|
        0 <= i < g.calls.len() && 0 <= j < g.logs.len() implies (
    #[trigger] g.calls[i]).pos_in_parent_trace != (#[trigger] g.logs[j]).position by {
        if i < f.calls.len() {
            assert(g.calls[i] == f.calls[i]);
        }
    }
}

/// Adding a log behind the calls and logs there are keeps the places right.
pub proof fn placed_with_log(f: FrameModel, log: LogModel)
    requires
        placed(f),
        log.position == f.calls.len() + f.logs.len(),
    ensures
        placed(FrameModel { logs: f.logs.push(log), ..f }),
{
    let g = FrameModel { logs: f.logs.push(log), ..f };
    assert forall|i: int, j: int| 0 <= i < j < g.logs.len() implies (
    #[trigger] g.logs[i]).position < (#[trigger] g.logs[j]).position by {
        assert(g.logs[i] == f.logs[i]);
        if j < f.logs.len() {
            assert(g.logs[j] == f.logs[j]);
        }
    }
    assert forall|i: int, j: int|
        0 <= i < g.calls.len() && 0 <= j < g.logs.len() implies (
    #[trigger] g.calls[i]).pos_in_parent_trace != (#[trigger] g.logs[j]).position by {
        assert(g.calls[i] == f.calls[i]);
    }
}

/// Working out the flags of the tree leaves the places as they are.
pub proof fn placed_with_parent_failed(f: FrameModel, above: bool)
    requires
        placed(f),
    ensures
        placed(with_parent_failed(f, above)),
    decreases f,
{
    let failed = f.failed || above;
    let g = with_parent_failed(f, above);
    assert forall|i: int| 0 <= i < g.calls.len() implies placed(#[trigger] g.calls[i])
        && g.calls[i].pos_in_parent_trace == f.calls[i].pos_in_parent_trace by {
        placed_with_parent_failed(f.calls[i], failed);
        placed_by_contents(with_parent_failed(f.calls[i], failed), g.calls[i]);
    }
}

/// Working out the marks for storage leaves the places as they are.
pub proof fn placed_with_storage_change(f: FrameModel)
    requires
        placed(f),
    ensures
        placed(with_storage_change(f)),
    decreases f,
{
    let g = with_storage_change(f);
    assert forall|i: int| 0 <= i < g.calls.len() implies placed(#[trigger] g.calls[i])
        && g.calls[i].pos_in_parent_trace == f.calls[i].pos_in_parent_trace by {
        placed_with_storage_change(f.calls[i]);
    }
}

/// The path of every call in the tree is that of its parent with its index added.
pub open spec fn addressed(f: FrameModel) -> bool
    decreases f,
{
    forall|i: int|
        0 <= i < f.calls.len() ==> addressed(#[trigger] f.calls[i]) && f.calls[i].trace_address
            == f.trace_address.push(i as nat)
}

/// Only its calls and its own path matter to the paths below a frame.
pub proof fn addressed_by_contents(f: FrameModel, g: FrameModel)
    requires
        addressed(f),
        f.calls == g.calls,
        f.trace_address == g.trace_address,
    ensures
        addressed(g),
{
}

/// Adding a call that has the next path keeps the paths right.
pub proof fn addressed_with_call(f: FrameModel, child: FrameModel)
    requires
        addressed(f),
        addressed(child),
        child.trace_address == f.trace_address.push(f.calls.len()),
    ensures
        addressed(with_call(f, child)),
{
    let g = with_call(f, child);
    addressed_by_contents(child, g.calls.last());
    assert forall|i: int| 0 <= i < g.calls.len() implies addressed(#[trigger] g.calls[i])
        && g.calls[i].trace_address == g.trace_address.push(i as nat) by {
        if i < f.calls.len() {
            assert(g.calls[i] == f.calls[i]);
        }
    }
}

/// Telling calls of failures above them leaves the paths as they are.
pub proof fn addressed_with_parent_failed(f: FrameModel, above: bool)
    requires
        addressed(f),
    ensures
        addressed(with_parent_failed(f, above)),
    decreases f,
{
    let failed = f.failed || above;
    let g = with_parent_failed(f, above);
    assert forall|i: int| 0 <= i < g.calls.len() implies addressed(#[trigger] g.calls[i])
        && g.calls[i].trace_address == g.trace_address.push(i as nat) by {
        addressed_with_parent_failed(f.calls[i], failed);
        addressed_by_contents(with_parent_failed(f.calls[i], failed), g.calls[i]);
    }
}

/// Working out the marks for storage leaves the paths as they are.
pub proof fn addressed_with_storage_change(f: FrameModel)
    requires
        addressed(f),
    ensures
        addressed(with_storage_change(f)),
    decreases f,
{
    let g = with_storage_change(f);
    assert forall|i: int| 0 <= i < g.calls.len() implies addressed(#[trigger] g.calls[i])
        && g.calls[i].trace_address == g.trace_address.push(i as nat) by {
        addressed_with_storage_change(f.calls[i]);
    }
}

/// Where the paths are right and start from the root, each frame's path leads to it.
pub proof fn path_leads_to_its_frame(f: FrameModel, path: Seq<nat>)
    requires
        addressed(f),
        frame_at(f, path) is Some,
    ensures
        frame_at(f, path)->0.trace_address == f.trace_address + path,
    decreases path.len(),
{
    if path.len() == 0 {
        assert(f.trace_address + path =~= f.trace_address);
    } else {
        let child = f.calls[path[0] as int];
        path_leads_to_its_frame(child, path.drop_first());
        assert(f.trace_address.push(path[0]) + path.drop_first() =~= f.trace_address + path);
    }
}

/// How many logs of a list have the number `k`.
pub open spec fn log_uses(logs: Seq<LogModel>, k: nat) -> nat
    decreases logs.len(),
{
    if logs.len() == 0 {
        0
    } else {
        log_uses(logs.drop_last(), k) + if logs.last().log_index == k {
            1nat
        } else {
            0
        }
    }
}

/// How many logs of the tree have the number `k`.
pub open spec fn uses(f: FrameModel, k: nat) -> nat
    decreases f,
{
    log_uses(f.logs, k) + uses_all(f.calls, k)
}

/// How many logs of the trees have the number `k`.
pub open spec fn uses_all(s: Seq<FrameModel>, k: nat) -> nat
    decreases s,
{
    if s.len() == 0 {
        0
    } else {
        uses_all(s.drop_last(), k) + uses(s.last(), k)
    }
}

/// One tree more adds its logs.
pub proof fn uses_all_push(s: Seq<FrameModel>, f: FrameModel, k: nat)
    ensures
        uses_all(s.push(f), k) == uses_all(s, k) + uses(f, k),
{
    assert(s.push(f).drop_last() =~= s);
}

/// The first tree's logs are among those of all.
pub proof fn uses_of_the_first(s: Seq<FrameModel>, k: nat)
    requires
        s.len() > 0,
    ensures
        uses(s[0], k) <= uses_all(s, k),
    decreases s.len(),
{
    if s.len() > 1 {
        uses_of_the_first(s.drop_last(), k);
    }
}

/// Trees that have the same logs one by one have the same logs together.
proof fn uses_all_same(s: Seq<FrameModel>, t: Seq<FrameModel>, k: nat)
    requires
        s.len() == t.len(),
        forall|i: int| 0 <= i < s.len() ==> uses(#[trigger] s[i], k) == uses(t[i], k),
    ensures
        uses_all(s, k) == uses_all(t, k),
    decreases s.len(),
{
    if s.len() > 0 {
        assert forall|i: int| 0 <= i < s.drop_last().len() implies uses(
            #[trigger] s.drop_last()[i],
            k,
        ) == uses(t.drop_last()[i], k) by {
            assert(s.drop_last()[i] == s[i]);
        }
        uses_all_same(s.drop_last(), t.drop_last(), k);
        assert(uses(s[s.len() - 1], k) == uses(t[t.len() - 1], k));
    }
}

/// Telling calls of failures above them moves no log.
pub proof fn uses_with_parent_failed(f: FrameModel, above: bool, k: nat)
    ensures
        uses(with_parent_failed(f, above), k) == uses(f, k),
    decreases f,
{
    let g = with_parent_failed(f, above);
    let failed = f.failed || above;
    assert forall|i: int| 0 <= i < g.calls.len() implies uses(#[trigger] g.calls[i], k) == uses(
        f.calls[i],
        k,
    ) by {
        uses_with_parent_failed(f.calls[i], failed, k);
    }
    uses_all_same(g.calls, f.calls, k);
}

/// Working out the marks for storage moves no log.
pub proof fn uses_with_storage_change(f: FrameModel, k: nat)
    ensures
        uses(with_storage_change(f), k) == uses(f, k),
    decreases f,
{
    let g = with_storage_change(f);
    assert forall|i: int| 0 <= i < g.calls.len() implies uses(#[trigger] g.calls[i], k) == uses(
        f.calls[i],
        k,
    ) by {
        uses_with_storage_change(f.calls[i], k);
    }
    uses_all_same(g.calls, f.calls, k);
}

} // verus!

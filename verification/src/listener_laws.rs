//! What holds of the listener over any run of reports.
use crate::events::{Event, EvmEvent, ExitReason};
use crate::frame::{fresh_frame, with_gas_settled, DebankCallType, FrameModel, LogModel};
use crate::frame_laws::{
    addressed, addressed_by_contents, addressed_with_call, addressed_with_parent_failed,
    addressed_with_storage_change, marks_are_own, placed, placed_by_contents, placed_with_call,
    placed_with_log, placed_with_parent_failed, placed_with_storage_change, uses, uses_all,
    uses_all_push, uses_of_the_first, uses_with_parent_failed, uses_with_storage_change,
};
use crate::listener::{
    ended, flushed, frame_room, idle_flushed, is_idle_precompile, is_stale_precompile, nested,
    next_path, room_spare, spare, with_call, with_gas_reading, with_top, flushed_spare,
    idle_flushed_spare, ListenerModel, TracingVersion,
};
use crate::primitives::H160;
use vstd::prelude::*;

verus! {

/// A frame end that the interpreter and the machine both report closes one frame only: the second
/// report leaves the call stack as the first one made it, whatever it says.
pub proof fn exit_reported_twice_closes_once(
    s: ListenerModel,
    reason: ExitReason,
    output: Seq<u8>,
    again: ExitReason,
    output_again: Seq<u8>,
)
    requires
        s.version == TracingVersion::EarlyTransact,
    ensures
        ({
            let first = s.after_step_exit(reason, output);
            let second = first.after_evm_exit(again, output_again);
            &&& second.callstack == first.callstack
            &&& second.created_accounts == first.created_accounts
            &&& second.completed_frames == first.completed_frames
            &&& second.step_result_exit_count == s.step_result_exit_count
        }),
{
}

/// The end of a transaction leaves nothing behind for the next one.
pub proof fn finish_clears_the_transaction(s: ListenerModel)
    ensures
        ({
            let t = s.finished();
            &&& t.callstack.len() == 0
            &&& !t.skip_next_context
            &&& t.call_type is None
            &&& t.step_result_exit_count == 0
            &&& !t.record_transaction_event_only
        }),
{
}

/// Ending a transaction keeps what was kept before and adds at most one root frame: one exactly
/// if a frame was open or nothing but the cost was reported.
pub proof fn finish_keeps_one_root(s: ListenerModel)
    ensures
        ({
            let t = s.finished();
            let kept = s.callstack.len() > 0 || s.record_transaction_event_only;
            &&& t.completed_frames.len() == s.completed_frames.len() + if kept {
                1int
            } else {
                0
            }
            &&& t.completed_frames.take(s.completed_frames.len() as int) == s.completed_frames
        }),
{
    flushed_keeps_the_root(s.callstack, None);
    assert(s.finished().completed_frames.take(s.completed_frames.len() as int)
        =~= s.completed_frames);
}

/// Ending a transaction a second time changes nothing.
pub proof fn finish_twice_is_finish(s: ListenerModel)
    ensures
        s.finished().finished() == s.finished(),
{
    assert(s.finished().finished() =~= s.finished());
}

/// No report but the marker between transactions touches the frames that are kept.
pub proof fn only_the_marker_completes(s: ListenerModel, event: Event)
    requires
        event !is CallListNew,
    ensures
        s.after(event).completed_frames == s.completed_frames,
        s.after(event).storage_contracts == s.storage_contracts,
        s.after(event).first_transaction == s.first_transaction,
{
}

/// A runtime that once reported the start of a transaction is not taken for an older one again.
pub proof fn early_transact_stays(s: ListenerModel, event: Event)
    requires
        s.version == TracingVersion::EarlyTransact,
    ensures
        s.after(event).version == TracingVersion::EarlyTransact,
{
}

/// Accounts that are created or destroyed are touched.
pub open spec fn changes_are_touched(s: ListenerModel) -> bool {
    s.created_accounts.subset_of(s.touched_accounts) && s.deleted_accounts.subset_of(
        s.touched_accounts,
    )
}

/// That created and destroyed accounts are touched holds at the start and after every report, and
/// no report takes back that an account was touched or destroyed.
pub proof fn changed_accounts_are_touched(s: ListenerModel, event: Event)
    requires
        changes_are_touched(s),
    ensures
        changes_are_touched(ListenerModel::initial()),
        changes_are_touched(s.after(event)),
        s.touched_accounts.subset_of(s.after(event).touched_accounts),
        s.deleted_accounts.subset_of(s.after(event).deleted_accounts),
{
}

/// A contract creation that fails leaves no created account behind; one that succeeds takes none
/// away.
pub proof fn failed_creation_leaves_no_account(s: ListenerModel, reason: ExitReason, output: Seq<u8>)
    requires
        s.callstack.len() > 0,
        s.callstack.last().call_type == DebankCallType::Create,
    ensures
        !(reason is Succeed) ==> !s.after_exit(reason, output).created_accounts.contains(
            s.callstack.last().to,
        ),
        reason is Succeed && !s.callstack.last().failed ==> s.after_exit(
            reason,
            output,
        ).created_accounts == s.created_accounts,
{
}

/// Closing precompiles keeps the root frame's place: an empty stack stays empty, another does not
/// become so.
proof fn flushed_keeps_the_root(stack: Seq<FrameModel>, keep: Option<H160>)
    ensures
        (flushed(stack, keep).len() == 0) == (stack.len() == 0),
    decreases stack.len(),
{
    if is_stale_precompile(stack, keep) {
        flushed_keeps_the_root(nested(stack), keep);
    }
}

/// Room for the reports to come shrinks by no more than two with each report.
pub proof fn room_shrinks_slowly(s: ListenerModel, event: Event, n: nat)
    requires
        s.room(n + 2),
    ensures
        s.after(event).room(n),
{
    room_spare(s, n + 2);
    let m = n + 1;
    assert(spare(s.callstack, m as int));
    flushed_spare(s.callstack, None, m as int);
    idle_flushed_spare(s.callstack, m as int);
    match event {
        Event::Evm(EvmEvent::Call { context, .. }) => {
            flushed_spare(s.callstack, Some(context.caller), m as int);
        },
        Event::Evm(EvmEvent::Create { caller, .. }) => {
            flushed_spare(s.callstack, Some(caller), m as int);
        },
        Event::Evm(EvmEvent::PrecompileSubcall { context, .. }) => {
            flushed_spare(s.callstack, Some(context.caller), m as int);
        },
        _ => {},
    }
    let t = s.after(event);
    assert forall|i: int| 0 <= i < t.callstack.len() implies frame_room(
        #[trigger] t.callstack[i],
        n as int,
    ) by {
        let f = flushed(s.callstack, None);
        let g = idle_flushed(s.callstack);
        assert(0 <= i < s.callstack.len() ==> frame_room(s.callstack[i], n as int));
        assert(0 <= i < f.len() ==> frame_room(f[i], m as int));
        assert(0 <= i < g.len() ==> frame_room(g[i], m as int));
    }
}

/// The frame has not done anything yet.
pub open spec fn is_fresh(f: FrameModel) -> bool {
    f.calls.len() == 0 && f.logs.len() == 0 && !f.self_storage_change && !f.storage_change
}

/// The frame has the same calls, logs and path as `g`, and either the same marks for storage or
/// both of them set.
pub open spec fn is_alike(f: FrameModel, g: FrameModel) -> bool {
    &&& f.calls == g.calls
    &&& f.logs == g.logs
    &&& f.trace_address == g.trace_address
    &&& (f.self_storage_change && f.storage_change) || (f.self_storage_change
        == g.self_storage_change && f.storage_change == g.storage_change)
}

/// The property holds of the stack once its innermost frame is nested.
pub open spec fn nesting_keeps(p: spec_fn(Seq<FrameModel>) -> bool) -> bool {
    forall|s: Seq<FrameModel>| s.len() > 1 && p(s) ==> #[trigger] p(nested(s))
}

/// The property holds of the stack once its innermost frame is replaced by one alike.
pub open spec fn retouching_keeps(p: spec_fn(Seq<FrameModel>) -> bool) -> bool {
    forall|s: Seq<FrameModel>, f: FrameModel|
        s.len() > 0 && p(s) && is_alike(f, s.last()) ==> #[trigger] p(with_top(s, f))
}

/// The property holds of the stack once a frame is opened below the innermost one.
pub open spec fn opening_keeps(p: spec_fn(Seq<FrameModel>) -> bool) -> bool {
    forall|s: Seq<FrameModel>, f: FrameModel|
        p(s) && is_fresh(f) && f.trace_address == next_path(s) ==> #[trigger] p(s.push(f))
}

/// The property holds of the stack once a root frame is opened on it.
pub open spec fn rooting_keeps(p: spec_fn(Seq<FrameModel>) -> bool) -> bool {
    forall|s: Seq<FrameModel>, f: FrameModel|
        p(s) && is_fresh(f) && f.trace_address.len() == 0 ==> #[trigger] p(s.push(f))
}

/// The property holds of the stack once a call that is over at once is added to the innermost
/// frame.
pub open spec fn adding_keeps(p: spec_fn(Seq<FrameModel>) -> bool) -> bool {
    forall|s: Seq<FrameModel>, f: FrameModel|
        s.len() > 0 && p(s) && is_fresh(f) && f.trace_address == next_path(s) ==> #[trigger] p(
            with_top(s, with_call(s.last(), f)),
        )
}

proof fn flushed_keeps(
    stack: Seq<FrameModel>,
    keep: Option<H160>,
    p: spec_fn(Seq<FrameModel>) -> bool,
)
    requires
        p(stack),
        nesting_keeps(p),
    ensures
        p(flushed(stack, keep)),
    decreases stack.len(),
{
    if is_stale_precompile(stack, keep) {
        assert(p(nested(stack)));
        flushed_keeps(nested(stack), keep, p);
    }
}

proof fn idle_flushed_keeps(stack: Seq<FrameModel>, p: spec_fn(Seq<FrameModel>) -> bool)
    requires
        p(stack),
        nesting_keeps(p),
    ensures
        p(idle_flushed(stack)),
    decreases stack.len(),
{
    if is_idle_precompile(stack) {
        assert(p(nested(stack)));
        idle_flushed_keeps(nested(stack), p);
    }
}

/// The event starts a transaction.
pub open spec fn starts_transaction(event: Event) -> bool {
    event matches Event::Evm(e) && (e is TransactCall || e is TransactCreate || e
        is TransactCreate2)
}

proof fn called_from_keeps(s: ListenerModel, caller: H160, p: spec_fn(Seq<FrameModel>) -> bool)
    requires
        p(s.callstack),
        nesting_keeps(p),
        retouching_keeps(p),
    ensures
        p(s.called_from(caller).callstack),
{
    let stack = flushed(s.callstack, Some(caller));
    flushed_keeps(s.callstack, Some(caller), p);
    if stack.len() > 0 && stack.last().is_precompile && stack.last().to == caller {
        assert(p(with_top(stack, FrameModel { had_subcall: true, ..stack.last() })));
    }
}

proof fn exit_keeps(
    s: ListenerModel,
    reason: ExitReason,
    output: Seq<u8>,
    p: spec_fn(Seq<FrameModel>) -> bool,
)
    requires
        p(s.callstack),
        nesting_keeps(p),
        retouching_keeps(p),
    ensures
        p(s.after_exit(reason, output).callstack),
{
    if s.callstack.len() > 0 {
        let done = ended(s.callstack.last(), output, reason);
        assert(is_alike(done, s.callstack.last()));
        assert(p(with_top(s.callstack, done)));
        if s.callstack.len() == 1 {
            assert(with_top(s.callstack, done) =~= seq![done]);
        } else {
            assert(p(nested(with_top(s.callstack, done))));
        }
    }
}

/// A property of the stack that every basic step keeps holds after every report but a log entry.
proof fn event_keeps(s: ListenerModel, event: Event, p: spec_fn(Seq<FrameModel>) -> bool)
    requires
        p(s.callstack),
        p(seq![]),
        nesting_keeps(p),
        retouching_keeps(p),
        opening_keeps(p),
        adding_keeps(p),
        starts_transaction(event) && s.callstack.len() > 0 ==> rooting_keeps(p),
        !(event matches Event::Evm(e) && e is Log),
    ensures
        p(s.after(event).callstack),
{
    flushed_keeps(s.callstack, None, p);
    idle_flushed_keeps(s.callstack, p);
    let flat = flushed(s.callstack, None);
    match event {
        Event::Gasometer(e) => {
            if e.is_gas_reading() && s.callstack.len() > 0 {
                assert(p(
                    with_top(
                        s.callstack,
                        with_gas_reading(s.callstack.last(), e.snapshot().gas_left()),
                    ),
                ));
            }
        },
        Event::Runtime(e) => {
            let idle = ListenerModel { callstack: idle_flushed(s.callstack), ..s };
            match e {
                crate::events::RuntimeEvent::StepResult {
                    result: Err(crate::events::Capture::Exit(reason)),
                    return_value,
                } => {
                    exit_keeps(idle, reason, return_value@, p);
                },
                crate::events::RuntimeEvent::SStore { address, index, value } => {
                    if flat.len() > 0 {
                        assert(p(
                            with_top(
                                flat,
                                FrameModel {
                                    self_storage_change: true,
                                    storage_change: true,
                                    ..flat.last()
                                },
                            ),
                        ));
                    }
                },
                _ => {},
            }
        },
        Event::Evm(e) => {
            evm_event_keeps(s, e, p);
        },
        Event::CallListNew() => {},
    }
}

proof fn evm_event_keeps(s: ListenerModel, event: EvmEvent, p: spec_fn(Seq<FrameModel>) -> bool)
    requires
        p(s.callstack),
        nesting_keeps(p),
        retouching_keeps(p),
        opening_keeps(p),
        adding_keeps(p),
        starts_transaction(Event::Evm(event)) && s.callstack.len() > 0 ==> rooting_keeps(p),
        event !is Log,
    ensures
        p(s.after_evm(event).callstack),
{
    flushed_keeps(s.callstack, None, p);
    idle_flushed_keeps(s.callstack, p);
    let flat = flushed(s.callstack, None);
    match event {
        EvmEvent::TransactCall { caller, address, value, data, gas_limit } => {
            let f = fresh_frame(DebankCallType::Call, caller, address, gas_limit, value, data@);
            assert(s.callstack.len() == 0 ==> f.trace_address == next_path(s.callstack));
            assert(p(s.callstack.push(f)));
        },
        EvmEvent::TransactCreate { caller, value, init_code, gas_limit, address } => {
            let f = fresh_frame(
                DebankCallType::Create,
                caller,
                address,
                gas_limit,
                value,
                init_code@,
            );
            assert(s.callstack.len() == 0 ==> f.trace_address == next_path(s.callstack));
            assert(p(s.callstack.push(f)));
        },
        EvmEvent::TransactCreate2 { caller, value, init_code, salt: _, gas_limit, address } => {
            let f = fresh_frame(
                DebankCallType::Create,
                caller,
                address,
                gas_limit,
                value,
                init_code@,
            );
            assert(s.callstack.len() == 0 ==> f.trace_address == next_path(s.callstack));
            assert(p(s.callstack.push(f)));
        },
        EvmEvent::Call { code_address, transfer: _, input, target_gas, is_static, context } => {
            called_from_keeps(s, context.caller, p);
            if !s.skip_next_context {
                let stack = s.called_from(context.caller).callstack;
                let f = s.after_evm(event).callstack.last();
                assert(s.after_evm(event).callstack == stack.push(f));
                assert(p(stack.push(f)));
            }
        },
        EvmEvent::Create { caller, .. } => {
            called_from_keeps(s, caller, p);
            if !s.skip_next_context {
                let stack = s.called_from(caller).callstack;
                let f = s.after_evm(event).callstack.last();
                assert(s.after_evm(event).callstack == stack.push(f));
                assert(p(stack.push(f)));
            }
        },
        EvmEvent::Suicide { address, target, balance } => {
            if flat.len() > 0 {
                let f = FrameModel {
                    trace_address: next_path(flat),
                    ..fresh_frame(DebankCallType::Suicide, address, target, 0, balance, seq![])
                };
                assert(p(with_top(flat, with_call(flat.last(), f))));
            }
        },
        EvmEvent::Exit { reason, return_value } => {
            exit_keeps(
                ListenerModel {
                    record_transaction_event_only: false,
                    callstack: idle_flushed(s.callstack),
                    ..s
                },
                reason,
                return_value@,
                p,
            );
        },
        EvmEvent::PrecompileSubcall { context, .. } => {
            called_from_keeps(s, context.caller, p);
            let stack = s.called_from(context.caller).callstack;
            let f = s.after_evm(event).callstack.last();
            assert(s.after_evm(event).callstack == stack.push(f));
            assert(p(stack.push(f)));
        },
        EvmEvent::Log { .. } => {},
    }
}

/// The places are right in every tree of a list.
pub open spec fn all_placed(stack: Seq<FrameModel>) -> bool {
    forall|i: int| 0 <= i < stack.len() ==> placed(#[trigger] stack[i])
}

/// That the calls and logs of every frame have different positions below their count, growing
/// among the calls and among the logs, holds at the start and after every report.
pub proof fn positions_stay_distinct(s: ListenerModel, event: Event)
    requires
        all_placed(s.callstack),
        all_placed(s.completed_frames),
    ensures
        all_placed(ListenerModel::initial().callstack),
        all_placed(ListenerModel::initial().completed_frames),
        all_placed(s.after(event).callstack),
        all_placed(s.after(event).completed_frames),
{
    let p = |st: Seq<FrameModel>| all_placed(st);
    assert forall|st: Seq<FrameModel>| st.len() > 1 && p(st) implies #[trigger] p(nested(st)) by {
        placed_with_call(st[st.len() - 2], st.last());
    }
    assert forall|st: Seq<FrameModel>, f: FrameModel|
        st.len() > 0 && p(st) && is_alike(f, st.last()) implies #[trigger] p(with_top(st, f)) by {
        placed_by_contents(st.last(), f);
    }
    assert forall|st: Seq<FrameModel>, f: FrameModel|
        st.len() > 0 && p(st) && is_fresh(f) && f.trace_address == next_path(
            st,
        ) implies #[trigger] p(with_top(st, with_call(st.last(), f))) by {
        placed_with_call(st.last(), f);
    }
    flushed_keeps(s.callstack, None, p);
    let flat = flushed(s.callstack, None);
    match event {
        Event::Evm(EvmEvent::Log { address, topics, data }) => {
            if flat.len() > 0 {
                let log = LogModel {
                    address,
                    topics: topics@,
                    data: data@,
                    position: flat.last().calls.len() + flat.last().logs.len(),
                    log_index: s.global_log_index,
                };
                placed_with_log(flat.last(), log);
            }
        },
        _ => {
            event_keeps(s, event, p);
        },
    }
    if event is CallListNew && !s.first_transaction && flat.len() > 0 {
        let root = flat[0];
        let closed = closed_root(root);
        placed_by_contents(root, closed);
        placed_with_parent_failed(closed, false);
        placed_with_storage_change(ListenerModel::settled_root(root));
    }
}

/// The root frame with its end taken in, even if it was not reported.
spec fn closed_root(root: FrameModel) -> FrameModel {
    if root.exited {
        root
    } else {
        with_gas_settled(
            FrameModel {
                failed: true,
                error: "early exit (out of gas, stack overflow, direct call to precompile, ...)"@,
                ..root
            },
        )
    }
}

/// The paths are right in the open frames: the root has the empty path, and each frame has the
/// path of the next call of the one around it.
pub open spec fn stack_addressed(stack: Seq<FrameModel>) -> bool {
    &&& forall|i: int| 0 <= i < stack.len() ==> addressed(#[trigger] stack[i])
    &&& stack.len() > 0 ==> stack[0].trace_address.len() == 0
    &&& forall|i: int, j: int|
        0 <= i && j == i + 1 && j < stack.len() ==> (#[trigger] stack[j]).trace_address == (
        #[trigger] stack[i]).trace_address.push(stack[i].calls.len())
}

/// The paths are right in the frames that are kept: each root has the empty path.
pub open spec fn roots_addressed(roots: Seq<FrameModel>) -> bool {
    forall|i: int|
        0 <= i < roots.len() ==> addressed(#[trigger] roots[i]) && roots[i].trace_address.len() == 0
}

proof fn nested_addressed(st: Seq<FrameModel>)
    requires
        st.len() > 1,
        stack_addressed(st),
    ensures
        stack_addressed(nested(st)),
{
    let n = st.len();
    let t = nested(st);
    assert(st[n - 1].trace_address == st[n - 2].trace_address.push(st[n - 2].calls.len()));
    addressed_with_call(st[n - 2], st[n - 1]);
    assert forall|i: int| 0 <= i < t.len() implies addressed(#[trigger] t[i]) by {
        if i < n - 2 {
            assert(t[i] == st[i]);
        }
    }
    assert forall|i: int, j: int| 0 <= i && j == i + 1 && j < t.len() implies (
    #[trigger] t[j]).trace_address == (#[trigger] t[i]).trace_address.push(t[i].calls.len()) by {
        assert(t[i] == st[i]);
        assert(t[j].trace_address == st[j].trace_address);
    }
}

proof fn topped_addressed(st: Seq<FrameModel>, f: FrameModel)
    requires
        st.len() > 0,
        stack_addressed(st),
        addressed(f),
        f.trace_address == st.last().trace_address,
    ensures
        stack_addressed(with_top(st, f)),
{
    let t = with_top(st, f);
    assert forall|i: int, j: int| 0 <= i && j == i + 1 && j < t.len() implies (
    #[trigger] t[j]).trace_address == (#[trigger] t[i]).trace_address.push(t[i].calls.len()) by {
        assert(t[i] == st[i]);
        assert(t[j].trace_address == st[j].trace_address);
    }
}

proof fn opened_addressed(st: Seq<FrameModel>, f: FrameModel)
    requires
        stack_addressed(st),
        is_fresh(f),
        f.trace_address == next_path(st),
    ensures
        stack_addressed(st.push(f)),
{
    let t = st.push(f);
    assert forall|i: int, j: int| 0 <= i && j == i + 1 && j < t.len() implies (
    #[trigger] t[j]).trace_address == (#[trigger] t[i]).trace_address.push(t[i].calls.len()) by {
        assert(t[i] == st[i]);
        if j < st.len() {
            assert(t[j] == st[j]);
        }
    }
}

/// That every frame has the path of its parent with its own index added, starting from an empty
/// path at the root, holds at the start and after every report, except that of a transaction
/// which starts while another is still open.
pub proof fn paths_stay_right(s: ListenerModel, event: Event)
    requires
        stack_addressed(s.callstack),
        roots_addressed(s.completed_frames),
        !(starts_transaction(event) && s.callstack.len() > 0),
    ensures
        stack_addressed(ListenerModel::initial().callstack),
        roots_addressed(ListenerModel::initial().completed_frames),
        stack_addressed(s.after(event).callstack),
        roots_addressed(s.after(event).completed_frames),
{
    let p = |st: Seq<FrameModel>| stack_addressed(st);
    assert forall|st: Seq<FrameModel>| st.len() > 1 && p(st) implies #[trigger] p(nested(st)) by {
        nested_addressed(st);
    }
    assert forall|st: Seq<FrameModel>, f: FrameModel|
        st.len() > 0 && p(st) && is_alike(f, st.last()) implies #[trigger] p(with_top(st, f)) by {
        addressed_by_contents(st.last(), f);
        topped_addressed(st, f);
    }
    assert forall|st: Seq<FrameModel>, f: FrameModel|
        p(st) && is_fresh(f) && f.trace_address == next_path(st) implies #[trigger] p(st.push(f)) by {
        opened_addressed(st, f);
    }
    assert forall|st: Seq<FrameModel>, f: FrameModel|
        st.len() > 0 && p(st) && is_fresh(f) && f.trace_address == next_path(
            st,
        ) implies #[trigger] p(with_top(st, with_call(st.last(), f))) by {
        addressed_with_call(st.last(), f);
        topped_addressed(st, with_call(st.last(), f));
    }
    flushed_keeps(s.callstack, None, p);
    let flat = flushed(s.callstack, None);
    match event {
        Event::Evm(EvmEvent::Log { .. }) => {
            if flat.len() > 0 {
                let top = s.after(event).callstack.last();
                addressed_by_contents(flat.last(), top);
                topped_addressed(flat, top);
            }
        },
        _ => {
            event_keeps(s, event, p);
        },
    }
    if event is CallListNew && !s.first_transaction && flat.len() > 0 {
        let root = flat[0];
        let closed = closed_root(root);
        addressed_by_contents(root, closed);
        addressed_with_parent_failed(closed, false);
        addressed_with_storage_change(ListenerModel::settled_root(root));
    }
}

/// In every open frame `storage_change` says no more than `self_storage_change`.
pub open spec fn all_marks_are_own(stack: Seq<FrameModel>) -> bool {
    forall|i: int| 0 <= i < stack.len() ==> marks_are_own(#[trigger] stack[i])
}

/// While a transaction runs, the marks for storage tell of direct writes only: this holds at the
/// start and after every report, so that what is worked out at the end is exact.
pub proof fn marks_stay_own(s: ListenerModel, event: Event)
    requires
        all_marks_are_own(s.callstack),
    ensures
        all_marks_are_own(ListenerModel::initial().callstack),
        all_marks_are_own(s.after(event).callstack),
{
    let p = |st: Seq<FrameModel>| all_marks_are_own(st);
    assert forall|st: Seq<FrameModel>| st.len() > 1 && p(st) implies #[trigger] p(nested(st)) by {
        own_with_call(st[st.len() - 2], st.last());
    }
    assert forall|st: Seq<FrameModel>, f: FrameModel|
        st.len() > 0 && p(st) && is_fresh(f) && f.trace_address == next_path(
            st,
        ) implies #[trigger] p(with_top(st, with_call(st.last(), f))) by {
        own_with_call(st.last(), f);
    }
    flushed_keeps(s.callstack, None, p);
    match event {
        Event::Evm(EvmEvent::Log { .. }) => {},
        _ => {
            event_keeps(s, event, p);
        },
    }
}

proof fn own_with_call(f: FrameModel, child: FrameModel)
    requires
        marks_are_own(f),
        marks_are_own(child),
    ensures
        marks_are_own(with_call(f, child)),
{
    let g = with_call(f, child);
    assert forall|i: int| 0 <= i < g.calls.len() implies marks_are_own(#[trigger] g.calls[i]) by {
        if i < f.calls.len() {
            assert(g.calls[i] == f.calls[i]);
        }
    }
}

/// Each number is used by one log at most, and none from `n` on is used.
pub open spec fn logs_numbered(stack: Seq<FrameModel>, kept: Seq<FrameModel>, n: nat) -> bool {
    forall|k: nat| #![trigger uses_all(stack, k)]
        uses_all(stack, k) + uses_all(kept, k) <= if k < n {
            1int
        } else {
            0
        }
}

proof fn uses_nested(st: Seq<FrameModel>, k: nat)
    requires
        st.len() > 1,
    ensures
        uses_all(nested(st), k) == uses_all(st, k),
{
    let n = st.len();
    let parent = st[n - 2];
    let child = st[n - 1];
    let g = with_call(parent, child);
    uses_all_push(parent.calls, g.calls.last(), k);
    assert(uses(g.calls.last(), k) == uses(child, k));
    assert(st.drop_last().drop_last() =~= nested(st).drop_last());
    assert(st.drop_last().last() == parent);
    assert(uses_all(st.drop_last(), k) == uses_all(st.drop_last().drop_last(), k) + uses(parent, k));
    assert(nested(st).last() == g);
    assert(uses(g, k) == uses(parent, k) + uses(child, k));
}

proof fn uses_topped(st: Seq<FrameModel>, f: FrameModel, k: nat)
    requires
        st.len() > 0,
    ensures
        uses_all(with_top(st, f), k) == uses_all(st, k) - uses(st.last(), k) + uses(f, k),
{
    assert(with_top(st, f).drop_last() =~= st.drop_last());
}

/// That no two logs have the same number, and the next number is free, holds at the start and
/// after every report.
pub proof fn log_numbers_stay_unique(s: ListenerModel, event: Event)
    requires
        logs_numbered(s.callstack, s.completed_frames, s.global_log_index),
    ensures
        logs_numbered(
            ListenerModel::initial().callstack,
            ListenerModel::initial().completed_frames,
            ListenerModel::initial().global_log_index,
        ),
        logs_numbered(
            s.after(event).callstack,
            s.after(event).completed_frames,
            s.after(event).global_log_index,
        ),
        s.after(event).global_log_index >= s.global_log_index,
{
    let kept = s.completed_frames;
    let n = s.global_log_index;
    let p = |st: Seq<FrameModel>| logs_numbered(st, kept, n);
    assert forall|st: Seq<FrameModel>| st.len() > 1 && p(st) implies #[trigger] p(nested(st)) by {
        assert forall|k: nat| #![trigger uses_all(nested(st), k)]
            uses_all(nested(st), k) + uses_all(kept, k) <= if k < n {
                1int
            } else {
                0
            } by {
            uses_nested(st, k);
        }
    }
    assert forall|st: Seq<FrameModel>, f: FrameModel|
        st.len() > 0 && p(st) && is_alike(f, st.last()) implies #[trigger] p(with_top(st, f)) by {
        assert forall|k: nat| #![trigger uses_all(with_top(st, f), k)]
            uses_all(with_top(st, f), k) + uses_all(kept, k) <= if k < n {
                1int
            } else {
                0
            } by {
            uses_topped(st, f, k);
            assert(uses(f, k) == uses(st.last(), k));
        }
    }
    assert forall|st: Seq<FrameModel>, f: FrameModel| p(st) && is_fresh(f) implies #[trigger] p(
        st.push(f),
    ) by {
        assert forall|k: nat| #![trigger uses_all(st.push(f), k)]
            uses_all(st.push(f), k) + uses_all(kept, k) <= if k < n {
                1int
            } else {
                0
            } by {
            uses_all_push(st, f, k);
            assert(uses(f, k) == 0);
        }
    }
    assert forall|st: Seq<FrameModel>, f: FrameModel|
        st.len() > 0 && p(st) && is_fresh(f) && f.trace_address == next_path(
            st,
        ) implies #[trigger] p(with_top(st, with_call(st.last(), f))) by {
        let g = with_call(st.last(), f);
        assert forall|k: nat| #![trigger uses_all(with_top(st, g), k)]
            uses_all(with_top(st, g), k) + uses_all(kept, k) <= if k < n {
                1int
            } else {
                0
            } by {
            uses_topped(st, g, k);
            uses_all_push(st.last().calls, g.calls.last(), k);
            assert(uses(g.calls.last(), k) == 0);
        }
    }
    let none: Seq<FrameModel> = seq![];
    assert forall|k: nat| #![trigger uses_all(none, k)]
        uses_all(none, k) + uses_all(kept, k) <= if k < n {
            1int
        } else {
            0
        } by {
        assert(uses_all(s.callstack, k) >= 0);
    }
    assert(p(none));
    flushed_keeps(s.callstack, None, p);
    let flat = flushed(s.callstack, None);
    let t = s.after(event);
    match event {
        Event::Evm(EvmEvent::Log { .. }) => {
            if flat.len() > 0 {
                let top = t.callstack.last();
                assert forall|k: nat| #![trigger uses_all(t.callstack, k)]
                    uses_all(t.callstack, k) + uses_all(kept, k) <= if k < n + 1 {
                        1int
                    } else {
                        0
                    } by {
                    uses_topped(flat, top, k);
                    assert(top.logs.drop_last() =~= flat.last().logs);
                    assert(uses_all(flat, k) >= 0);
                }
            }
        },
        _ => {
            event_keeps(s, event, p);
        },
    }
    if event is CallListNew && !s.first_transaction {
        assert forall|k: nat| #![trigger uses_all(t.callstack, k)]
            uses_all(t.callstack, k) + uses_all(t.completed_frames, k) <= if k < n {
                1int
            } else {
                0
            } by {
            assert(uses_all(flat, k) >= 0);
            if flat.len() > 0 {
                let root = flat[0];
                uses_of_the_first(flat, k);
                uses_all_push(kept, ListenerModel::kept_root(root), k);
                uses_with_parent_failed(closed_root(root), false, k);
                uses_with_storage_change(ListenerModel::settled_root(root), k);
                assert(uses(closed_root(root), k) == uses(root, k));
            } else if s.record_transaction_event_only {
                uses_all_push(kept, ListenerModel::unpaid_frame(), k);
                assert(uses(ListenerModel::unpaid_frame(), k) == 0);
            }
        }
    }
}

} // verus!

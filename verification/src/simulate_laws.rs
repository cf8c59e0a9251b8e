//! What the results of simulated transactions and read-only calls say.
use crate::events::{ExitError, ExitFatal, ExitReason};
use crate::formatter::{frame_events, frame_traces, marked};
use crate::frame::{FrameModel, LogModel};
use crate::frame_laws::frame_at;
use crate::listener::ListenerModel;
use crate::primitives::{H256, U256};
use crate::simulate::{
    call_error, error_debug, fees_of, is_call_result, is_prepared, low_i64, other_debug,
    reason_code, simulate_error, simulated, CallArgs, CallModel, CallOutcome, TraceOutcome,
    TransactionRequest, WireEventModel, WireTraceModel,
};
use crate::text::{debank_id, decimal, hash_text};
use crate::trace_laws::{
    every_frame_is_shown, every_log_is_shown, every_trace_shows_a_frame, id_at, names_the_type,
    own_trace_comes_first, shows,
};
use vstd::prelude::*;

verus! {

/// The trace shows the frame: who called whom, with what, and what came of it.
pub open spec fn wire_shows(t: WireTraceModel, f: FrameModel) -> bool {
    &&& t.from_addr == f.from
    &&& t.to_addr == f.to
    &&& t.value == f.value
    &&& t.input == f.input
    &&& t.output == f.output
    &&& t.gas_limit == f.gas
    &&& t.gas_used == f.gas_used
    &&& t.pos_in_parent_trace == f.pos_in_parent_trace
    &&& t.self_storage_change == f.self_storage_change
    &&& t.storage_change == f.storage_change
    &&& names_the_type(t.call_create_type, t.call_type, f.call_type)
}

/// The event shows the log.
pub open spec fn wire_shows_log(e: WireEventModel, l: LogModel) -> bool {
    &&& e.contract_id == l.address
    &&& e.data == l.data
    &&& e.pos_in_parent_trace == l.position
    &&& l.topics.len() == 0 ==> e.selector.len() == 0 && e.topics.len() == 0
    &&& l.topics.len() > 0 ==> {
        &&& e.selector == hash_text(l.topics[0])
        &&& e.topics.len() == l.topics.len() - 1
        &&& forall|i: int| 0 <= i < e.topics.len() ==> #[trigger] e.topics[i] == hash_text(
            l.topics[i + 1],
        )
    }
}

/// The identifier of the root of a simulated transaction.
pub open spec fn simulated_root_id(tx_id: H256) -> Seq<char> {
    debank_id(seq![hash_text(tx_id), seq![], seq!['0']])
}

/// The traces of a simulation are those of its tree, one for one.
proof fn traces_are_those_of_the_tree(s: ListenerModel, tx_id: H256)
    requires
        s.completed_frames.len() > 0,
    ensures
        ({
            let r = simulated(s, TraceOutcome::Done, tx_id);
            let f = s.completed_frames[0];
            let all = frame_traces(f, tx_id, seq![], simulated_root_id(tx_id));
            &&& r.traces.len() == all.len()
            &&& forall|i: int|
                0 <= i < all.len() ==> {
                    let w = #[trigger] r.traces[i];
                    let t = all[i].1;
                    &&& shows(t, f) ==> wire_shows(w, f)
                    &&& forall|g: FrameModel| #[trigger] shows(t, g) ==> wire_shows(w, g)
                    &&& w.id == t.id
                    &&& w.parent_trace_id == t.parent_trace_id
                    &&& w.tx_id == t.tx_id
                }
        }),
{
    reveal_strlit("");
    reveal_strlit("0");
    assert(""@ =~= seq![]);
    assert("0"@ =~= seq!['0']);
}

/// A simulated transaction that was run hands out its root first: who called whom, with what, and
/// what came of it. The gas used is that of the root.
pub proof fn simulation_starts_with_the_root(s: ListenerModel, tx_id: H256)
    requires
        s.completed_frames.len() > 0,
    ensures
        ({
            let r = simulated(s, TraceOutcome::Done, tx_id);
            let f = s.completed_frames[0];
            &&& r.gas_used == f.gas_used
            &&& r.traces.len() > 0
            &&& wire_shows(r.traces[0], f)
            &&& r.traces[0].id == simulated_root_id(tx_id)
            &&& r.traces[0].parent_trace_id.len() == 0
            &&& r.traces[0].tx_id == tx_id
        }),
{
    traces_are_those_of_the_tree(s, tx_id);
    own_trace_comes_first(s.completed_frames[0], tx_id, seq![], simulated_root_id(tx_id));
}

/// Every frame of a simulated transaction has a trace that shows it, failed or not, under the
/// identifier that its path gives it and the number of the transaction.
pub proof fn simulation_shows_every_frame(s: ListenerModel, tx_id: H256, path: Seq<nat>) -> (i: int)
    requires
        s.completed_frames.len() > 0,
        frame_at(s.completed_frames[0], path) is Some,
    ensures
        ({
            let r = simulated(s, TraceOutcome::Done, tx_id);
            let f = s.completed_frames[0];
            &&& 0 <= i < r.traces.len()
            &&& wire_shows(r.traces[i], frame_at(f, path)->0)
            &&& r.traces[i].id == id_at(f, tx_id, simulated_root_id(tx_id), path)
            &&& path.len() > 0 ==> r.traces[i].parent_trace_id == id_at(
                f,
                tx_id,
                simulated_root_id(tx_id),
                path.drop_last(),
            )
            &&& r.traces[i].tx_id == tx_id
        }),
{
    let f = s.completed_frames[0];
    let g = frame_at(f, path)->0;
    let all = frame_traces(f, tx_id, seq![], simulated_root_id(tx_id));
    traces_are_those_of_the_tree(s, tx_id);
    let t = every_frame_is_shown(f, tx_id, seq![], simulated_root_id(tx_id), path);
    let i = choose|i: int| 0 <= i < all.len() && #[trigger] all[i] == (g.failed, t);
    assert(shows(all[i].1, g));
    assert(wire_shows(simulated(s, TraceOutcome::Done, tx_id).traces[i], g));
    i
}

/// Every trace of a simulated transaction shows one of its frames.
pub proof fn simulation_shows_only_frames(s: ListenerModel, tx_id: H256, i: int) -> (path: Seq<nat>)
    requires
        s.completed_frames.len() > 0,
        0 <= i < simulated(s, TraceOutcome::Done, tx_id).traces.len(),
    ensures
        frame_at(s.completed_frames[0], path) is Some,
        wire_shows(
            simulated(s, TraceOutcome::Done, tx_id).traces[i],
            frame_at(s.completed_frames[0], path)->0,
        ),
        simulated(s, TraceOutcome::Done, tx_id).traces.len() == frame_traces(
            s.completed_frames[0],
            tx_id,
            seq![],
            simulated_root_id(tx_id),
        ).len(),
{
    let f = s.completed_frames[0];
    let all = frame_traces(f, tx_id, seq![], simulated_root_id(tx_id));
    traces_are_those_of_the_tree(s, tx_id);
    let path = every_trace_shows_a_frame(f, tx_id, seq![], simulated_root_id(tx_id), i);
    assert(shows(all[i].1, frame_at(f, path)->0));
    assert(wire_shows(
        simulated(s, TraceOutcome::Done, tx_id).traces[i],
        frame_at(f, path)->0,
    ));
    path
}

/// What is listed with a mark is among what has that mark, and the other way round.
pub proof fn listed_is_marked<T>(s: Seq<(bool, T)>, mark: bool, item: T)
    ensures
        marked(s, mark).contains(item) == exists|i: int|
            0 <= i < s.len() && #[trigger] s[i] == (mark, item),
    decreases s.len(),
{
    if s.len() > 0 {
        let rest = s.drop_last();
        let n = rest.len() as int;
        listed_is_marked(rest, mark, item);
        let prior = marked(rest, mark);
        let all = marked(s, mark);
        if exists|i: int| 0 <= i < s.len() && #[trigger] s[i] == (mark, item) {
            let i = choose|i: int| 0 <= i < s.len() && #[trigger] s[i] == (mark, item);
            if i < n {
                assert(rest[i] == (mark, item));
                assert(prior.contains(item));
                let j = choose|j: int| 0 <= j < prior.len() && prior[j] == item;
                assert(all[j] == item);
            } else {
                assert(all[all.len() - 1] == item);
            }
        }
        if all.contains(item) {
            let j = choose|j: int| 0 <= j < all.len() && all[j] == item;
            if j < prior.len() {
                assert(prior[j] == item);
                assert(prior.contains(item));
                let i = choose|i: int| 0 <= i < rest.len() && #[trigger] rest[i] == (mark, item);
                assert(s[i] == (mark, item));
            } else {
                assert(s[n] == (mark, item));
            }
        }
    }
}

/// Every log that lasted has an event that shows it, if the transaction succeeded.
pub proof fn simulation_shows_every_log(s: ListenerModel, tx_id: H256, path: Seq<nat>, k: int) -> (i:
    int)
    requires
        s.completed_frames.len() > 0,
        !s.completed_frames[0].failed,
        frame_at(s.completed_frames[0], path) is Some,
        !frame_at(s.completed_frames[0], path)->0.failed,
        !frame_at(s.completed_frames[0], path)->0.parent_failed,
        0 <= k < frame_at(s.completed_frames[0], path)->0.logs.len(),
    ensures
        ({
            let r = simulated(s, TraceOutcome::Done, tx_id);
            let f = s.completed_frames[0];
            let id = id_at(f, tx_id, simulated_root_id(tx_id), path);
            let l = frame_at(f, path)->0.logs[k];
            &&& 0 <= i < r.events.len()
            &&& wire_shows_log(r.events[i], l)
            &&& r.events[i].tx_id == tx_id
            &&& r.events[i].parent_trace_id == id
            &&& r.events[i].id == debank_id(seq![id, decimal(l.position)])
        }),
{
    reveal_strlit("");
    reveal_strlit("0");
    assert(""@ =~= seq![]);
    assert("0"@ =~= seq!['0']);
    let f = s.completed_frames[0];
    let e = every_log_is_shown(f, tx_id, simulated_root_id(tx_id), path, k);
    let all = frame_events(f, tx_id, simulated_root_id(tx_id));
    let kept = marked(all, false);
    listed_is_marked(all, false, e);
    let j = choose|j: int| 0 <= j < all.len() && #[trigger] all[j] == (false, e);
    assert(kept.contains(e));
    let i = choose|i: int| 0 <= i < kept.len() && kept[i] == e;
    assert(simulated(s, TraceOutcome::Done, tx_id).events.len() == kept.len());
    i
}

/// The events of a simulated transaction that succeeded are as many as lasted, and carry its number.
pub proof fn simulation_shows_only_logs(s: ListenerModel, tx_id: H256)
    requires
        s.completed_frames.len() > 0,
        !s.completed_frames[0].failed,
    ensures
        ({
            let r = simulated(s, TraceOutcome::Done, tx_id);
            let kept = marked(
                frame_events(s.completed_frames[0], tx_id, simulated_root_id(tx_id)),
                false,
            );
            &&& r.events.len() == kept.len()
            &&& forall|i: int|
                0 <= i < r.events.len() ==> {
                    let w = #[trigger] r.events[i];
                    let e = kept[i];
                    &&& w.id == e.id
                    &&& w.contract_id == e.contract_id
                    &&& w.selector == e.selector
                    &&& w.topics == e.topics
                    &&& w.data == e.data
                    &&& w.parent_trace_id == e.parent_trace_id
                    &&& w.pos_in_parent_trace == e.pos_in_parent_trace
                    &&& w.tx_id == tx_id
                }
        }),
{
    reveal_strlit("");
    reveal_strlit("0");
    assert(""@ =~= seq![]);
    assert("0"@ =~= seq!['0']);
}

/// A simulated transaction that succeeded has code zero and no message. One that failed has the
/// message of its root, and the code that goes with it. One that could not be run says why, and has
/// nothing else.
pub proof fn simulation_says_how_it_ended(s: ListenerModel, outcome: TraceOutcome, tx_id: H256)
    ensures
        ({
            let r = simulated(s, outcome, tx_id);
            let f = s.completed_frames[0];
            match outcome {
                TraceOutcome::Dispatch(text) => {
                    &&& r.code == -39004
                    &&& r.err == "debank: dispatch error: "@ + text@
                    &&& r.gas_used == 0
                    &&& r.traces.len() == 0
                    &&& r.events.len() == 0
                },
                TraceOutcome::Api(text) => {
                    &&& r.code == -39004
                    &&& r.err == "debank: trace_call api error: "@ + text@
                    &&& r.gas_used == 0
                    &&& r.traces.len() == 0
                    &&& r.events.len() == 0
                },
                TraceOutcome::Done => {
                    &&& s.completed_frames.len() == 0 ==> {
                        &&& r.code == -39004
                        &&& r.err == "debank: no trace produced"@
                        &&& r.gas_used == 0
                        &&& r.traces.len() == 0
                        &&& r.events.len() == 0
                    }
                    &&& s.completed_frames.len() > 0 && !f.failed ==> r.code == 0 && r.err.len()
                        == 0
                    &&& s.completed_frames.len() > 0 && f.failed ==> {
                        &&& r.err == f.error
                        &&& r.events.len() == 0
                        &&& (r.code == -39000) == (f.error == "execution reverted"@)
                        &&& (r.code == -39001) == (f.error == "out of gas"@)
                        &&& (r.code == -39002) == (f.error == "out of funds"@)
                        &&& r.code == -39000 || r.code == -39001 || r.code == -39002 || r.code
                            == -39004
                    }
                },
            }
        }),
{
    reveal_strlit("execution reverted");
    reveal_strlit("out of gas");
    reveal_strlit("out of funds");
    assert("execution reverted"@.len() == 18);
    assert("out of gas"@.len() == 10);
    assert("out of funds"@.len() == 12);
}

/// A request that could not be run has a code and a message, and nothing else.
pub proof fn refusals_hold_nothing_else(code: i32, message: Seq<char>)
    ensures
        simulate_error(code, message).code == code,
        simulate_error(code, message).err == message,
        simulate_error(code, message).gas_used == 0,
        simulate_error(code, message).traces.len() == 0,
        simulate_error(code, message).events.len() == 0,
        call_error(code, message).code == code,
        call_error(code, message).err == message,
        call_error(code, message).gas_used == 0,
        call_error(code, message).result.len() == 0,
        !call_error(code, message).from_cache,
{
}

/// The fees of a call: those that are given are kept, and a gas price is then ignored; if none is
/// given, a gas price stands for both unless it is zero.
pub proof fn fees_are_completed(
    gas_price: Option<U256>,
    max_fee: Option<U256>,
    max_prio: Option<U256>,
)
    ensures
        max_fee is Some || max_prio is Some ==> fees_of(gas_price, max_fee, max_prio).0 == max_fee
            && fees_of(gas_price, max_fee, max_prio).1 == max_prio,
        max_fee is None && max_prio is None && gas_price is Some && gas_price->0.value() > 0
            ==> fees_of(gas_price, max_fee, max_prio).0 == gas_price && fees_of(
            gas_price,
            max_fee,
            max_prio,
        ).1 == gas_price,
        max_fee is None && max_prio is None && (gas_price is None || gas_price->0.value() == 0)
            ==> fees_of(gas_price, max_fee, max_prio).0 is None && fees_of(
            gas_price,
            max_fee,
            max_prio,
        ).1 is None,
{
}

/// A call that is run is the one asked for: every part that is given is kept, and what is left out is
/// the account of zeros, no data, no value, the gas limit of the block, no nonce and no access list.
pub proof fn requests_are_kept(args: CallArgs, req: TransactionRequest, limit: U256)
    requires
        is_prepared(args, req, limit),
    ensures
        req.to == Some(args.to),
        req.from is Some ==> args.from == req.from->0,
        req.from is None ==> args.from.0@ == Seq::new(20, |i: int| 0u8),
        req.data is Some ==> args.data@ == req.data->0@,
        req.data is None ==> args.data@.len() == 0,
        req.value is Some ==> args.value == req.value->0,
        req.value is None ==> args.value.value() == 0,
        req.gas is Some ==> args.gas_limit == req.gas->0,
        req.gas is None ==> args.gas_limit == limit,
        req.max_fee_per_gas is Some || req.max_priority_fee_per_gas is Some ==> {
            &&& args.max_fee_per_gas == req.max_fee_per_gas
            &&& args.max_priority_fee_per_gas == req.max_priority_fee_per_gas
        },
        req.max_fee_per_gas is None && req.max_priority_fee_per_gas is None ==> {
            &&& args.max_fee_per_gas == args.max_priority_fee_per_gas
            &&& req.gas_price is Some && req.gas_price->0.value() > 0 ==> args.max_fee_per_gas
                == req.gas_price
            &&& req.gas_price is None || req.gas_price->0.value() == 0 ==> args.max_fee_per_gas
                is None
        },
        args.nonce == req.nonce,
        args.access_list is Some == req.access_list is Some,
        req.access_list is Some ==> {
            let list = args.access_list->0@;
            let items = req.access_list->0@;
            &&& list.len() == items.len()
            &&& forall|i: int|
                0 <= i < items.len() ==> (#[trigger] list[i]).0 == items[i].address && list[i].1@
                    == items[i].storage_keys@
        },
{
    assert(crate::primitives::H160::zero().0@ =~= Seq::new(20, |i: int| 0u8));
    if req.access_list is Some {
        let list = args.access_list->0@;
        let items = req.access_list->0@;
        let pairs = crate::simulate::pairs_view(list);
        assert(pairs.len() == list.len());
        assert(crate::simulate::access_pairs(items).len() == items.len());
        assert forall|i: int| 0 <= i < items.len() implies (#[trigger] list[i]).0
            == items[i].address && list[i].1@ == items[i].storage_keys@ by {
            assert(pairs[i] == (list[i].0, list[i].1@));
        }
    }
}

/// The text names the error: by its own name, with the number of the opcode for an invalid code. One
/// from outside is named by its message.
pub open spec fn names_the_error(text: Seq<char>, e: ExitError) -> bool {
    &&& e is StackUnderflow ==> text == "StackUnderflow"@
    &&& e is StackOverflow ==> text == "StackOverflow"@
    &&& e is InvalidJump ==> text == "InvalidJump"@
    &&& e is InvalidRange ==> text == "InvalidRange"@
    &&& e is DesignatedInvalid ==> text == "DesignatedInvalid"@
    &&& e is CallTooDeep ==> text == "CallTooDeep"@
    &&& e is CreateCollision ==> text == "CreateCollision"@
    &&& e is CreateContractLimit ==> text == "CreateContractLimit"@
    &&& e matches ExitError::InvalidCode(opcode) ==> text == "InvalidCode(Opcode("@ + decimal(
        opcode as nat,
    ) + "))"@
    &&& e is OutOfOffset ==> text == "OutOfOffset"@
    &&& e is OutOfGas ==> text == "OutOfGas"@
    &&& e is OutOfFund ==> text == "OutOfFund"@
    &&& e is PCUnderflow ==> text == "PCUnderflow"@
    &&& e is CreateEmpty ==> text == "CreateEmpty"@
    &&& e is MaxNonce ==> text == "MaxNonce"@
    &&& e matches ExitError::Other(message) ==> text == other_debug(message@)
}

/// The code of a read-only call tells how it ended, and its message says why.
pub proof fn code_tells_how_it_ended(reason: ExitReason)
    ensures
        ({
            let (code, message) = reason_code(reason);
            match reason {
                ExitReason::Succeed(_) => code == 0 && message.len() == 0,
                ExitReason::Revert(_) => code == -39000 && message == "execution reverted"@,
                ExitReason::Error(e) => {
                    &&& (code == -39001) == (e is OutOfGas)
                    &&& (code == -39002) == (e is OutOfFund)
                    &&& e !is OutOfGas && e !is OutOfFund ==> code == -39004
                    &&& names_the_error(message, e)
                },
                ExitReason::Fatal(e) => code == -39004 && match e {
                    ExitFatal::NotSupported => message == "NotSupported"@,
                    ExitFatal::UnhandledInterrupt => message == "UnhandledInterrupt"@,
                    ExitFatal::CallErrorAsFatal(inner) => {
                        &&& message == "CallErrorAsFatal("@ + error_debug(inner) + ")"@
                        &&& names_the_error(error_debug(inner), inner)
                    },
                    ExitFatal::Other(text) => message == other_debug(text@),
                },
            }
        }),
{
}

/// The result of a read-only call that was run holds what it returned, and the low 64 bits of the gas
/// it used; it never comes from a cache. One that could not be run says why, and holds nothing else.
pub proof fn call_results_are_those_of_the_runtime(r: CallModel, outcome: CallOutcome)
    requires
        is_call_result(r, outcome),
    ensures
        !r.from_cache,
        match outcome {
            CallOutcome::Done { exit_reason, value, used_gas } => {
                &&& r.result == value@
                &&& (r.gas_used - used_gas.value()) % 0x1_0000_0000_0000_0000 == 0
                &&& r.code == reason_code(exit_reason).0
                &&& r.err == reason_code(exit_reason).1
            },
            CallOutcome::Dispatch(text) => {
                &&& r.code == -39004
                &&& r.err == "debank: dispatch error: "@ + text@
                &&& r.result.len() == 0
                &&& r.gas_used == 0
            },
            CallOutcome::Api(text) => {
                &&& r.code == -39004
                &&& r.err == "debank: call api error: "@ + text@
                &&& r.result.len() == 0
                &&& r.gas_used == 0
            },
        },
{
    match outcome {
        CallOutcome::Done { used_gas, .. } => {
            let n = used_gas.value() as int;
            let m: int = 0x1_0000_0000_0000_0000;
            let q = n / m;
            assert(n == q * m + n % m);
            let k = if low_i64(used_gas.value()) == n % m {
                -q
            } else {
                -q - 1
            };
            assert(r.gas_used - n == k * m);
            assert((k * m) % m == 0) by (nonlinear_arith)
                requires
                    m == 0x1_0000_0000_0000_0000,
            ;
        },
        _ => {},
    }
}

} // verus!

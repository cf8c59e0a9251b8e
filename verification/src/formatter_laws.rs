//! What holds of the traces, events and account lists that are handed out.
use crate::formatter::{
    answered_by, asked_accounts, block_events, block_traces, calls_events, calls_traces,
    changes_are_listed, child_id, code_list, codes_are_listed, created_codes, frame_events,
    frame_traces, known_accounts, marked, marks_split_the_list, own_events, replies_view,
    reply_view, root_id, slot_list, state_diff_of, storage_is_listed, storage_list, tx_at,
    with_account, Reply, ReplyModel, TraceModel,
};
use crate::frame::FrameModel;
use crate::listener::ListenerModel;
use crate::ordered::{
    ascending, key_order_asymmetric, key_order_total, key_order_transitive, sorted,
};
use crate::primitives::{bytes_lt, ByteKey, H160, H256};
use crate::state_diff::{hashed, AccountModel, CodeModel, NewAccount, SlotModel, StorageModel};
use vstd::multiset::Multiset;
use vstd::prelude::*;

verus! {

/// How many frames a tree has.
pub open spec fn frame_count(f: FrameModel) -> nat
    decreases f,
{
    1 + frames_count(f.calls)
}

/// How many frames the trees have.
pub open spec fn frames_count(s: Seq<FrameModel>) -> nat
    decreases s,
{
    if s.len() == 0 {
        0
    } else {
        frames_count(s.drop_last()) + frame_count(s.last())
    }
}

/// How many logs a tree has.
pub open spec fn log_count(f: FrameModel) -> nat
    decreases f,
{
    logs_count(f.calls) + f.logs.len()
}

/// How many logs the trees have.
pub open spec fn logs_count(s: Seq<FrameModel>) -> nat
    decreases s,
{
    if s.len() == 0 {
        0
    } else {
        logs_count(s.drop_last()) + log_count(s.last())
    }
}

proof fn one_trace_per_frame(f: FrameModel, tx: H256, parent_id: Seq<char>, id: Seq<char>)
    ensures
        frame_traces(f, tx, parent_id, id).len() == frame_count(f),
    decreases f,
{
    one_trace_per_call(f.calls, tx, id);
}

proof fn one_trace_per_call(calls: Seq<FrameModel>, tx: H256, parent_id: Seq<char>)
    ensures
        calls_traces(calls, tx, parent_id).len() == frames_count(calls),
    decreases calls,
{
    if calls.len() > 0 {
        let last = calls.last();
        one_trace_per_call(calls.drop_last(), tx, parent_id);
        one_trace_per_frame(
            last,
            tx,
            parent_id,
            child_id(tx, parent_id, last.pos_in_parent_trace),
        );
    }
}

proof fn one_event_per_log(f: FrameModel, tx: H256, id: Seq<char>)
    ensures
        frame_events(f, tx, id).len() == log_count(f),
    decreases f,
{
    one_event_per_log_of_calls(f.calls, tx, id);
}

proof fn one_event_per_log_of_calls(calls: Seq<FrameModel>, tx: H256, parent_id: Seq<char>)
    ensures
        calls_events(calls, tx, parent_id).len() == logs_count(calls),
    decreases calls,
{
    if calls.len() > 0 {
        let last = calls.last();
        one_event_per_log_of_calls(calls.drop_last(), tx, parent_id);
        one_event_per_log(last, tx, child_id(tx, parent_id, last.pos_in_parent_trace));
    }
}

/// Every frame of a block has one trace, among those that succeeded or among those that failed,
/// and every log has one event, among those that lasted or among those that did not.
pub proof fn nothing_is_lost(roots: Seq<FrameModel>, txs: Seq<H256>)
    ensures
        marked(block_traces(roots, txs), false).len() + marked(block_traces(roots, txs), true).len()
            == frames_count(roots),
        marked(block_events(roots, txs), false).len() + marked(block_events(roots, txs), true).len()
            == logs_count(roots),
{
    all_are_listed(roots, txs);
    marks_split_the_list(block_traces(roots, txs));
    marks_split_the_list(block_events(roots, txs));
}

proof fn all_are_listed(roots: Seq<FrameModel>, txs: Seq<H256>)
    ensures
        block_traces(roots, txs).len() == frames_count(roots),
        block_events(roots, txs).len() == logs_count(roots),
    decreases roots.len(),
{
    if roots.len() > 0 {
        let tx = tx_at(txs, roots.len() - 1);
        all_are_listed(roots.drop_last(), txs);
        one_trace_per_frame(roots.last(), tx, seq![], root_id(tx));
        one_event_per_log(roots.last(), tx, root_id(tx));
    }
}

/// A trace with this identifier comes before position `n`.
pub open spec fn listed_before(s: Seq<(bool, TraceModel)>, id: Seq<char>, n: int) -> bool {
    exists|j: int| 0 <= j < n && j < s.len() && (#[trigger] s[j]).1.id == id
}

/// In the traces of a transaction every trace but the first names one before it as its parent.
pub proof fn parents_come_first(
    f: FrameModel,
    tx: H256,
    parent_id: Seq<char>,
    id: Seq<char>,
    i: int,
)
    requires
        0 < i < frame_traces(f, tx, parent_id, id).len(),
    ensures
        listed_before(
            frame_traces(f, tx, parent_id, id),
            frame_traces(f, tx, parent_id, id)[i].1.parent_trace_id,
            i,
        ),
    decreases f,
{
    let s = frame_traces(f, tx, parent_id, id);
    let below = calls_traces(f.calls, tx, id);
    assert(s[0].1.id == id);
    assert(s[i] == below[i - 1]);
    call_parents_come_first(f.calls, tx, id, i - 1);
    if below[i - 1].1.parent_trace_id != id {
        let j = choose|j: int|
            0 <= j < i - 1 && j < below.len() && (#[trigger] below[j]).1.id
                == below[i - 1].1.parent_trace_id;
        assert(s[j + 1] == below[j]);
    }
}

proof fn call_parents_come_first(
    calls: Seq<FrameModel>,
    tx: H256,
    parent_id: Seq<char>,
    i: int,
)
    requires
        0 <= i < calls_traces(calls, tx, parent_id).len(),
    ensures
        calls_traces(calls, tx, parent_id)[i].1.parent_trace_id == parent_id || listed_before(
            calls_traces(calls, tx, parent_id),
            calls_traces(calls, tx, parent_id)[i].1.parent_trace_id,
            i,
        ),
    decreases calls,
{
    let s = calls_traces(calls, tx, parent_id);
    let prior = calls_traces(calls.drop_last(), tx, parent_id);
    let last = calls.last();
    let id = child_id(tx, parent_id, last.pos_in_parent_trace);
    let more = frame_traces(last, tx, parent_id, id);
    let n = prior.len() as int;
    if i < n {
        assert(s[i] == prior[i]);
        call_parents_come_first(calls.drop_last(), tx, parent_id, i);
        if prior[i].1.parent_trace_id != parent_id {
            let j = choose|j: int|
                0 <= j < i && j < prior.len() && (#[trigger] prior[j]).1.id
                    == prior[i].1.parent_trace_id;
            assert(s[j] == prior[j]);
        }
    } else {
        assert(s[i] == more[i - n]);
        if i > n {
            parents_come_first(last, tx, parent_id, id, i - n);
            let j = choose|j: int|
                0 <= j < i - n && j < more.len() && (#[trigger] more[j]).1.id
                    == more[i - n].1.parent_trace_id;
            assert(s[n + j] == more[j]);
        }
    }
}

/// A trace with this identifier is in the list.
pub open spec fn is_listed(s: Seq<(bool, TraceModel)>, id: Seq<char>) -> bool {
    listed_before(s, id, s.len() as int)
}

/// Every event of a transaction names one of its traces as its parent.
pub proof fn event_parents_are_listed(
    f: FrameModel,
    tx: H256,
    parent_id: Seq<char>,
    id: Seq<char>,
    i: int,
)
    requires
        0 <= i < frame_events(f, tx, id).len(),
    ensures
        is_listed(
            frame_traces(f, tx, parent_id, id),
            frame_events(f, tx, id)[i].1.parent_trace_id,
        ),
    decreases f,
{
    let s = frame_traces(f, tx, parent_id, id);
    let below = calls_traces(f.calls, tx, id);
    let inner = calls_events(f.calls, tx, id);
    assert(s[0].1.id == id);
    if i < inner.len() {
        assert(frame_events(f, tx, id)[i] == inner[i]);
        call_event_parents_are_listed(f.calls, tx, id, i);
        let j = choose|j: int|
            0 <= j < below.len() && j < below.len() && (#[trigger] below[j]).1.id
                == inner[i].1.parent_trace_id;
        assert(s[j + 1] == below[j]);
    } else {
        assert(frame_events(f, tx, id)[i] == own_events(f, tx, id)[i - inner.len()]);
    }
}

proof fn call_event_parents_are_listed(
    calls: Seq<FrameModel>,
    tx: H256,
    parent_id: Seq<char>,
    i: int,
)
    requires
        0 <= i < calls_events(calls, tx, parent_id).len(),
    ensures
        is_listed(
            calls_traces(calls, tx, parent_id),
            calls_events(calls, tx, parent_id)[i].1.parent_trace_id,
        ),
    decreases calls,
{
    let s = calls_traces(calls, tx, parent_id);
    let e = calls_events(calls, tx, parent_id);
    let prior = calls_traces(calls.drop_last(), tx, parent_id);
    let prior_events = calls_events(calls.drop_last(), tx, parent_id);
    let last = calls.last();
    let id = child_id(tx, parent_id, last.pos_in_parent_trace);
    let more = frame_traces(last, tx, parent_id, id);
    let n = prior.len() as int;
    let m = prior_events.len() as int;
    if i < m {
        assert(e[i] == prior_events[i]);
        call_event_parents_are_listed(calls.drop_last(), tx, parent_id, i);
        let j = choose|j: int|
            0 <= j < prior.len() && j < prior.len() && (#[trigger] prior[j]).1.id
                == prior_events[i].1.parent_trace_id;
        assert(s[j] == prior[j]);
    } else {
        assert(e[i] == frame_events(last, tx, id)[i - m]);
        event_parents_are_listed(last, tx, parent_id, id, i - m);
        let j = choose|j: int|
            0 <= j < more.len() && j < more.len() && (#[trigger] more[j]).1.id == e[i].1.parent_trace_id;
        assert(s[n + j] == more[j]);
    }
}

/// No account of the list comes before one that stands ahead of it.
pub open spec fn in_address_order(s: Seq<AccountModel>) -> bool {
    forall|i: int, j: int|
        0 <= i < j < s.len() ==> !bytes_lt(
            (#[trigger] s[j]).address.0@,
            (#[trigger] s[i]).address.0@,
        )
}

/// The accounts that something was learned of, as they come.
pub open spec fn answered(replies: Seq<ReplyModel>) -> Multiset<AccountModel>
    decreases replies.len(),
{
    if replies.len() == 0 {
        Multiset::empty()
    } else {
        match replies.last().1 {
            Some((account, _)) => answered(replies.drop_last()).insert(account),
            None => answered(replies.drop_last()),
        }
    }
}

proof fn with_account_keeps_order(s: Seq<AccountModel>, a: AccountModel)
    requires
        in_address_order(s),
    ensures
        in_address_order(with_account(s, a)),
        with_account(s, a).to_multiset() == s.to_multiset().insert(a),
        with_account(s, a).len() == s.len() + 1,
        forall|i: int|
            0 <= i < with_account(s, a).len() ==> (#[trigger] with_account(s, a)[i]) == a || exists|
                j: int,
            |
                0 <= j < s.len() && s[j] == with_account(s, a)[i],
    decreases s.len(),
{
    broadcast use vstd::seq_lib::group_to_multiset_ensures;

    let t = with_account(s, a);
    if s.len() == 0 || !bytes_lt(a.address.0@, s.last().address.0@) {
        assert(t == s.push(a));
        assert forall|i: int, j: int| 0 <= i < j < t.len() implies !bytes_lt(
            (#[trigger] t[j]).address.0@,
            (#[trigger] t[i]).address.0@,
        ) by {
            if j == s.len() {
                assert(t[i] == s[i]);
                if bytes_lt(a.address.0@, s[i].address.0@) {
                    if i < s.len() - 1 {
                        assert(!bytes_lt(s[s.len() - 1].address.0@, s[i].address.0@));
                        between(a.address, s[i].address, s.last().address);
                    }
                }
            } else {
                assert(t[i] == s[i] && t[j] == s[j]);
            }
        }
        assert forall|i: int| 0 <= i < t.len() implies (#[trigger] t[i]) == a || exists|j: int|
            0 <= j < s.len() && s[j] == t[i] by {
            if i < s.len() {
                assert(s[i] == t[i]);
            }
        }
    } else {
        let shorter = s.drop_last();
        let u = with_account(shorter, a);
        with_account_keeps_order(shorter, a);
        assert(t == u.push(s.last()));
        assert forall|i: int, j: int| 0 <= i < j < t.len() implies !bytes_lt(
            (#[trigger] t[j]).address.0@,
            (#[trigger] t[i]).address.0@,
        ) by {
            if j == u.len() {
                assert(t[i] == u[i]);
                if u[i] == a {
                    key_order_asymmetric(a.address, s.last().address);
                } else {
                    let k = choose|k: int| 0 <= k < shorter.len() && shorter[k] == u[i];
                    assert(s[k] == u[i]);
                    assert(!bytes_lt(s[s.len() - 1].address.0@, s[k].address.0@));
                }
            } else {
                assert(t[i] == u[i] && t[j] == u[j]);
            }
        }
        assert forall|i: int| 0 <= i < t.len() implies (#[trigger] t[i]) == a || exists|j: int|
            0 <= j < s.len() && s[j] == t[i] by {
            if i < u.len() {
                assert(t[i] == u[i]);
                if u[i] != a {
                    let k = choose|k: int| 0 <= k < shorter.len() && shorter[k] == u[i];
                    assert(s[k] == t[i]);
                }
            } else {
                assert(s[s.len() - 1] == t[i]);
            }
        }
        assert(s =~= shorter.push(s.last()));
        assert(t.to_multiset() =~= s.to_multiset().insert(a));
    }
}

/// What comes before one hash comes before another that does not come before the first.
proof fn between(a: H256, b: H256, c: H256)
    requires
        bytes_lt(a.0@, b.0@),
        !bytes_lt(c.0@, b.0@),
    ensures
        bytes_lt(a.0@, c.0@),
{
    key_order_total(b, c);
    if b != c {
        key_order_transitive(a, b, c);
    }
}

/// The accounts are handed out in the order of their hashes, each as often as it was answered.
pub proof fn accounts_are_in_order(replies: Seq<ReplyModel>)
    ensures
        in_address_order(known_accounts(replies)),
        known_accounts(replies).to_multiset() == answered(replies),
    decreases replies.len(),
{
    broadcast use vstd::seq_lib::group_to_multiset_ensures;

    if replies.len() == 0 {
        assert(known_accounts(replies).to_multiset() =~= answered(replies));
    } else {
        accounts_are_in_order(replies.drop_last());
        match replies.last().1 {
            Some((account, _)) => {
                with_account_keeps_order(known_accounts(replies.drop_last()), account);
            },
            None => {},
        }
    }
}

/// The accounts are in strictly increasing order of their hashes.
pub open spec fn in_strict_order(s: Seq<AccountModel>) -> bool {
    forall|i: int, j: int|
        0 <= i < j < s.len() ==> bytes_lt(
            (#[trigger] s[i]).address.0@,
            (#[trigger] s[j]).address.0@,
        )
}

/// No two answers are about the same hash.
pub open spec fn answers_differ(replies: Seq<ReplyModel>) -> bool {
    forall|i: int, j: int|
        0 <= i < j < replies.len() && (#[trigger] replies[i]).1 is Some && (
        #[trigger] replies[j]).1 is Some ==> (replies[i].1->0).0.address != (
        replies[j].1->0).0.address
}

/// One of the answers is the account.
pub open spec fn was_answered(replies: Seq<ReplyModel>, account: AccountModel) -> bool {
    exists|j: int|
        0 <= j < replies.len() && (#[trigger] replies[j]).1 is Some && (replies[j].1->0).0
            == account
}

/// An account with a hash of its own keeps the order strict.
proof fn with_account_keeps_strict_order(s: Seq<AccountModel>, a: AccountModel)
    requires
        in_strict_order(s),
        forall|i: int| 0 <= i < s.len() ==> (#[trigger] s[i]).address != a.address,
    ensures
        in_strict_order(with_account(s, a)),
        forall|i: int|
            0 <= i < with_account(s, a).len() ==> (#[trigger] with_account(s, a)[i]) == a || exists|
                j: int,
            |
                0 <= j < s.len() && s[j] == with_account(s, a)[i],
    decreases s.len(),
{
    let t = with_account(s, a);
    if s.len() == 0 {
    } else if !bytes_lt(a.address.0@, s.last().address.0@) {
        key_order_total(a.address, s.last().address);
        assert forall|i: int, j: int| 0 <= i < j < t.len() implies bytes_lt(
            (#[trigger] t[i]).address.0@,
            (#[trigger] t[j]).address.0@,
        ) by {
            assert(t[i] == s[i]);
            if j == s.len() {
                if i < s.len() - 1 {
                    assert(bytes_lt(s[i].address.0@, s[s.len() - 1].address.0@));
                    key_order_transitive(s[i].address, s.last().address, a.address);
                }
            } else {
                assert(t[j] == s[j]);
            }
        }
        assert forall|i: int| 0 <= i < t.len() implies (#[trigger] t[i]) == a || exists|j: int|
            0 <= j < s.len() && s[j] == t[i] by {
            if i < s.len() {
                assert(s[i] == t[i]);
            }
        }
    } else {
        let shorter = s.drop_last();
        let u = with_account(shorter, a);
        assert forall|i: int| 0 <= i < shorter.len() implies (#[trigger] shorter[i]).address
            != a.address by {
            assert(s[i] == shorter[i]);
        }
        assert forall|i: int, j: int| 0 <= i < j < shorter.len() implies bytes_lt(
            (#[trigger] shorter[i]).address.0@,
            (#[trigger] shorter[j]).address.0@,
        ) by {
            assert(s[i] == shorter[i] && s[j] == shorter[j]);
        }
        with_account_keeps_strict_order(shorter, a);
        assert(t == u.push(s.last()));
        assert forall|i: int, j: int| 0 <= i < j < t.len() implies bytes_lt(
            (#[trigger] t[i]).address.0@,
            (#[trigger] t[j]).address.0@,
        ) by {
            assert(t[i] == u[i]);
            if j == u.len() {
                if u[i] != a {
                    let k = choose|k: int| 0 <= k < shorter.len() && shorter[k] == u[i];
                    assert(s[k] == u[i]);
                    assert(bytes_lt(s[k].address.0@, s[s.len() - 1].address.0@));
                }
            } else {
                assert(t[j] == u[j]);
            }
        }
        assert forall|i: int| 0 <= i < t.len() implies (#[trigger] t[i]) == a || exists|j: int|
            0 <= j < s.len() && s[j] == t[i] by {
            if i < u.len() {
                assert(t[i] == u[i]);
                if u[i] != a {
                    let k = choose|k: int| 0 <= k < shorter.len() && shorter[k] == u[i];
                    assert(s[k] == t[i]);
                }
            } else {
                assert(s[s.len() - 1] == t[i]);
            }
        }
    }
}

/// Where no two answers are about the same hash, the accounts are handed out in strictly increasing
/// order of their hashes, and each is one that was answered.
pub proof fn accounts_are_in_strict_order(replies: Seq<ReplyModel>)
    requires
        answers_differ(replies),
    ensures
        in_strict_order(known_accounts(replies)),
        forall|i: int|
            0 <= i < known_accounts(replies).len() ==> was_answered(
                replies,
                #[trigger] known_accounts(replies)[i],
            ),
    decreases replies.len(),
{
    if replies.len() > 0 {
        let rest = replies.drop_last();
        let n = rest.len() as int;
        let prior = known_accounts(rest);
        let all = known_accounts(replies);
        assert forall|i: int, j: int|
            0 <= i < j < rest.len() && (#[trigger] rest[i]).1 is Some && (
            #[trigger] rest[j]).1 is Some implies (rest[i].1->0).0.address != (
        rest[j].1->0).0.address by {
            assert(replies[i] == rest[i] && replies[j] == rest[j]);
        }
        accounts_are_in_strict_order(rest);
        assert(replies[n] == replies.last());
        match replies.last().1 {
            Some((account, code)) => {
                assert forall|i: int| 0 <= i < prior.len() implies (#[trigger] prior[i]).address
                    != account.address by {
                    assert(was_answered(rest, prior[i]));
                    let j = choose|j: int|
                        0 <= j < rest.len() && (#[trigger] rest[j]).1 is Some && (
                        rest[j].1->0).0 == prior[i];
                    assert(replies[j] == rest[j]);
                    assert((replies[n].1->0).0 == account);
                }
                with_account_keeps_strict_order(prior, account);
            },
            None => {},
        }
        assert forall|i: int| 0 <= i < all.len() implies was_answered(
            replies,
            #[trigger] all[i],
        ) by {
            if replies[n].1 is None || all[i] != (replies[n].1->0).0 {
                let k = if replies[n].1 is None {
                    i
                } else {
                    choose|k: int| 0 <= k < prior.len() && prior[k] == all[i]
                };
                assert(was_answered(rest, prior[k]));
                let j = choose|j: int|
                    0 <= j < rest.len() && (#[trigger] rest[j]).1 is Some && (
                    rest[j].1->0).0 == prior[k];
                assert(replies[j] == rest[j]);
            }
        }
    }
}

/// The codes are in strictly increasing order of their hashes.
pub open spec fn codes_in_strict_order(s: Seq<CodeModel>) -> bool {
    forall|i: int, j: int|
        0 <= i < j < s.len() ==> bytes_lt(
            (#[trigger] s[i]).code_hash.0@,
            (#[trigger] s[j]).code_hash.0@,
        )
}

/// The slots are in strictly increasing order of their indices.
pub open spec fn slots_in_strict_order(s: Seq<SlotModel>) -> bool {
    forall|i: int, j: int|
        0 <= i < j < s.len() ==> bytes_lt(
            (#[trigger] s[i]).index.0@,
            (#[trigger] s[j]).index.0@,
        )
}

/// The entries are those of accounts with the given addresses.
pub open spec fn storage_belongs_to(s: Seq<StorageModel>, addresses: Seq<H160>) -> bool {
    &&& s.len() == addresses.len()
    &&& forall|i: int| 0 <= i < s.len() ==> (#[trigger] s[i]).address == hashed(addresses[i])
}

/// The accounts of the list of which slots were written.
pub open spec fn written_accounts(changes: Map<H160, Map<H256, H256>>, keys: Seq<H160>) -> Seq<H160>
    decreases keys.len(),
{
    if keys.len() == 0 {
        seq![]
    } else {
        let prior = written_accounts(changes, keys.drop_last());
        if slot_list(changes[keys.last()]).len() > 0 {
            prior.push(keys.last())
        } else {
            prior
        }
    }
}

/// What is written of the accounts of an ascending list stands in that order.
proof fn storage_keeps_order(changes: Map<H160, Map<H256, H256>>, keys: Seq<H160>)
    requires
        ascending(keys),
        forall|i: int| 0 <= i < keys.len() ==> changes.contains_key(#[trigger] keys[i]),
        storage_is_listed(changes),
    ensures
        ascending(written_accounts(changes, keys)),
        forall|i: int|
            0 <= i < written_accounts(changes, keys).len() ==> keys.contains(
                #[trigger] written_accounts(changes, keys)[i],
            ),
        storage_belongs_to(storage_list(changes, keys), written_accounts(changes, keys)),
        forall|i: int|
            0 <= i < storage_list(changes, keys).len() ==> slots_in_strict_order(
                (#[trigger] storage_list(changes, keys)[i]).values,
            ),
    decreases keys.len(),
{
    if keys.len() > 0 {
        let rest = keys.drop_last();
        let last = keys.last();
        let n = rest.len() as int;
        let prior = written_accounts(changes, rest);
        let q = written_accounts(changes, keys);
        let list = storage_list(changes, keys);
        let shorter = storage_list(changes, rest);
        assert forall|i: int, j: int| 0 <= i < j < rest.len() implies bytes_lt(
            #[trigger] rest[i].key(),
            #[trigger] rest[j].key(),
        ) by {
            assert(keys[i] == rest[i] && keys[j] == rest[j]);
        }
        assert forall|i: int| 0 <= i < rest.len() implies changes.contains_key(
            #[trigger] rest[i],
        ) by {
            assert(keys[i] == rest[i]);
        }
        storage_keeps_order(changes, rest);
        assert(keys[n] == last);
        assert forall|i: int| 0 <= i < q.len() implies keys.contains(#[trigger] q[i]) by {
            if i < prior.len() {
                assert(q[i] == prior[i]);
                let k = choose|k: int| 0 <= k < rest.len() && rest[k] == prior[i];
                assert(keys[k] == q[i]);
            }
        }
        assert forall|i: int, j: int| 0 <= i < j < q.len() implies bytes_lt(
            #[trigger] q[i].key(),
            #[trigger] q[j].key(),
        ) by {
            assert(q[i] == prior[i]);
            if j == prior.len() {
                assert(rest.contains(prior[i]));
                let k = choose|k: int| 0 <= k < rest.len() && rest[k] == prior[i];
                assert(keys[k] == q[i] && keys[n] == q[j]);
            } else {
                assert(q[j] == prior[j]);
            }
        }
        assert forall|i: int| 0 <= i < list.len() implies (#[trigger] list[i]).address == hashed(
            q[i],
        ) && slots_in_strict_order(list[i].values) by {
            if i < shorter.len() {
                assert(list[i] == shorter[i]);
            } else {
                assert(changes.contains_key(last));
                let keys_of = sorted(changes[last].dom());
                let values = slot_list(changes[last]);
                assert(list[i].values == values);
                assert forall|a: int, b: int| 0 <= a < b < values.len() implies bytes_lt(
                    (#[trigger] values[a]).index.0@,
                    (#[trigger] values[b]).index.0@,
                ) by {
                    assert(bytes_lt(keys_of[a].key(), keys_of[b].key()));
                }
            }
        }
    }
}

/// Every list of a state diff is in strictly increasing order: the accounts by their hashes where no
/// two answers are about the same hash, the codes by theirs, the destroyed accounts and those
/// written to by their addresses, and the slots of each by their indices.
pub proof fn diff_is_in_order(
    s: ListenerModel,
    hash: H256,
    parent_hash: H256,
    replies: Seq<ReplyModel>,
)
    requires
        changes_are_listed(s),
        codes_are_listed(replies, s.created_accounts),
        answers_differ(replies),
    ensures
        ({
            let d = state_diff_of(s, hash, parent_hash, replies);
            let written = written_accounts(s.storage_changes, sorted(s.storage_changes.dom()));
            &&& d.hash == hash
            &&& d.parent_hash == parent_hash
            &&& in_strict_order(d.new_accounts)
            &&& codes_in_strict_order(d.new_codes)
            &&& ascending(sorted(s.deleted_accounts))
            &&& d.deleted_accounts == sorted(s.deleted_accounts).map_values(|a: H160| hashed(a))
            &&& ascending(written)
            &&& storage_belongs_to(d.storage_diff, written)
            &&& forall|i: int|
                0 <= i < d.storage_diff.len() ==> slots_in_strict_order(
                    (#[trigger] d.storage_diff[i]).values,
                )
        }),
{
    accounts_are_in_strict_order(replies);
    let codes = created_codes(replies, s.created_accounts);
    let hashes = sorted(codes.dom());
    let list = code_list(codes);
    assert forall|i: int, j: int| 0 <= i < j < list.len() implies bytes_lt(
        (#[trigger] list[i]).code_hash.0@,
        (#[trigger] list[j]).code_hash.0@,
    ) by {
        assert(bytes_lt(hashes[i].key(), hashes[j].key()));
    }
    let keys = sorted(s.storage_changes.dom());
    assert forall|i: int| 0 <= i < keys.len() implies s.storage_changes.contains_key(
        #[trigger] keys[i],
    ) by {
        assert(keys.contains(keys[i]));
    }
    storage_keeps_order(s.storage_changes, keys);
}

/// The account function has one answer for each account.
pub open spec fn answers_are_fixed<F: Fn(H160) -> Option<(NewAccount, Vec<u8>)>>(f: F) -> bool {
    forall|a: H160, x: Option<(NewAccount, Vec<u8>)>, y: Option<(NewAccount, Vec<u8>)>| #[trigger]
        call_ensures(f, (a,), x) && #[trigger] call_ensures(f, (a,), y) ==> reply_view((a, x))
            == reply_view((a, y))
}

/// Listeners that saw the same changes give the same state diff, whatever else they saw and in
/// whatever order: it depends on the sets of accounts, on what was written and on the answers alone.
pub proof fn same_changes_give_the_same_diff<F: Fn(H160) -> Option<(NewAccount, Vec<u8>)>>(
    f: F,
    s: ListenerModel,
    t: ListenerModel,
    hash: H256,
    parent_hash: H256,
    first: Seq<Reply>,
    second: Seq<Reply>,
)
    requires
        s.touched_accounts == t.touched_accounts,
        s.created_accounts == t.created_accounts,
        s.deleted_accounts == t.deleted_accounts,
        s.storage_changes == t.storage_changes,
        answers_are_fixed(f),
        answered_by(f, asked_accounts(s), first),
        answered_by(f, asked_accounts(t), second),
    ensures
        asked_accounts(s) == asked_accounts(t),
        replies_view(first) == replies_view(second),
        state_diff_of(s, hash, parent_hash, replies_view(first)) == state_diff_of(
            t,
            hash,
            parent_hash,
            replies_view(second),
        ),
{
    assert forall|i: int| 0 <= i < first.len() implies reply_view(#[trigger] first[i])
        == reply_view(second[i]) by {
        assert(call_ensures(f, (asked_accounts(s)[i],), first[i].1));
        assert(second[i].0 == asked_accounts(s)[i]);
        assert(call_ensures(f, (asked_accounts(s)[i],), second[i].1));
    }
    assert(replies_view(first) =~= replies_view(second));
}

} // verus!

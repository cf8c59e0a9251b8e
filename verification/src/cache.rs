//! Which blocks are being traced, who waits for them, and what becomes of their traces.
use crate::block_trace::{
    tx_traces_view, OutputModel, TransactionTrace, TransactionTraceOutput, TxTraceModel,
};
use crate::ordered::{is_sorted_list, sorted, SortedMap};
use crate::primitives::{ByteKey, H256};
use crate::text::{decimal, number_text};
use std::collections::BTreeMap;
use std::sync::Arc;
use vstd::prelude::*;

verus! {

/// How many seconds the tracing of a block may take.
pub const TRACING_TIMEOUT_SECS: u64 = 60;

/// After how many nanoseconds nobody waits for a block any more: ten seconds more than its tracing
/// may take.
pub const WAIT_LIMIT_NANOS: u64 = 70_000_000_000;

/// The requests that wait for a block which is being traced. Each has a number.
#[derive(Debug)]
pub struct WaitListEntry {
    /// When the first request came, in nanoseconds.
    pub created_at: u64,
    pub waiters: Vec<u64>,
}

/// What waits for a block, as a mathematical value.
#[verifier::ext_equal]
pub struct EntryModel {
    pub created_at: u64,
    pub waiters: Seq<u64>,
}

impl View for WaitListEntry {
    type V = EntryModel;

    open spec fn view(&self) -> EntryModel {
        EntryModel { created_at: self.created_at, waiters: self.waiters@ }
    }
}

/// The blocks that are being traced, with the requests that wait for them.
pub struct WaitList {
    entries: SortedMap<H256, WaitListEntry>,
}

/// The traces of a block, or why there are none, shared by all who asked for them.
pub type SharedTraces = Result<Arc<Vec<TransactionTrace>>, Arc<String>>;

/// What to do when the tracing of a block is over.
#[derive(Debug)]
pub struct Delivery {
    /// Who is told what.
    pub answers: Vec<(u64, SharedTraces)>,
    /// The traces to keep for later requests, if there are any.
    pub keep: Option<Arc<Vec<TransactionTrace>>>,
}

/// What came of the tracing of a block, to be shared.
pub open spec fn shared(result: Result<Vec<TransactionTrace>, String>) -> SharedTraces {
    match result {
        Ok(traces) => Ok(Arc::new(traces)),
        Err(error) => Err(Arc::new(error)),
    }
}

/// What is kept of the tracing of a block: its traces, and nothing if there are none because it
/// failed.
pub open spec fn kept(result: Result<Vec<TransactionTrace>, String>) -> Option<
    Arc<Vec<TransactionTrace>>,
> {
    match result {
        Ok(traces) => Some(Arc::new(traces)),
        Err(_) => None,
    }
}

/// Each of those who waited is told the same answer, in order.
pub open spec fn is_told_to_all(
    answers: Seq<(u64, SharedTraces)>,
    waiters: Seq<u64>,
    answer: SharedTraces,
) -> bool {
    answers == waiters.map_values(|w: u64| (w, answer))
}

/// The same answer for each of those who waited.
pub fn tell_all(waiters: Vec<u64>, answer: &SharedTraces) -> (r: Vec<(u64, SharedTraces)>)
    ensures
        is_told_to_all(r@, waiters@, *answer),
{
    let mut answers: Vec<(u64, SharedTraces)> = Vec::new();
    let mut i: usize = 0;
    assert(answers@ =~= waiters@.take(0).map_values(|w: u64| (w, *answer)));
    while i < waiters.len()
        invariant
            i <= waiters@.len(),
            is_told_to_all(answers@, waiters@.take(i as int), *answer),
        decreases waiters@.len() - i,
    {
        let same: SharedTraces = match answer {
            Ok(traces) => Ok(Arc::clone(traces)),
            Err(error) => Err(Arc::clone(error)),
        };
        answers.push((waiters[i], same));
        assert(answers@ =~= waiters@.take(i + 1).map_values(|w: u64| (w, *answer)));
        i += 1;
    }
    assert(waiters@.take(i as int) =~= waiters@);
    answers
}

/// What to do with what came of the tracing of a block, given who waited for it: all of them are
/// told, and traces are kept.
pub fn deliver(waiters: Vec<u64>, result: Result<Vec<TransactionTrace>, String>) -> (r: Delivery)
    ensures
        is_told_to_all(r.answers@, waiters@, shared(result)),
        r.keep == kept(result),
{
    match result {
        Ok(traces) => {
            let traces = Arc::new(traces);
            let keep = Some(Arc::clone(&traces));
            Delivery { answers: tell_all(waiters, &Ok(traces)), keep }
        },
        Err(error) => Delivery {
            answers: tell_all(waiters, &Err(Arc::new(error))),
            keep: None,
        },
    }
}

/// What to do with a request for the traces of a block.
#[derive(Clone, Copy, Debug, PartialEq, Eq, Structural)]
pub enum RequestAction {
    /// The traces are there: answer with them.
    Reply,
    /// The block is being traced: the answer comes with its traces.
    Join,
    /// Start to trace the block: the answer comes with its traces.
    Spawn,
}

/// The entry has waited for too long at the time `now`.
pub open spec fn is_overdue(e: EntryModel, now: u64) -> bool {
    now - e.created_at > WAIT_LIMIT_NANOS
}

/// The list once a request waits for a block: the first one is noted with its time.
pub open spec fn with_waiter(m: Map<H256, EntryModel>, block: H256, waiter: u64, now: u64) -> Map<
    H256,
    EntryModel,
> {
    m.insert(
        block,
        if m.contains_key(block) {
            EntryModel {
                created_at: m[block].created_at,
                waiters: m[block].waiters.push(waiter),
            }
        } else {
            EntryModel { created_at: now, waiters: seq![waiter] }
        },
    )
}

/// Who waits for the blocks, one block after the other.
pub open spec fn all_waiters(m: Map<H256, EntryModel>, blocks: Seq<H256>) -> Seq<u64>
    decreases blocks.len(),
{
    if blocks.len() == 0 {
        seq![]
    } else {
        all_waiters(m, blocks.drop_last()) + m[blocks.last()].waiters
    }
}

/// The blocks that have been waited for too long.
pub open spec fn overdue_blocks(m: Map<H256, EntryModel>, now: u64) -> Set<H256> {
    m.dom().filter(|b: H256| is_overdue(m[b], now))
}

impl WaitList {
    /// Who waits for which block.
    pub closed spec fn view(&self) -> Map<H256, EntryModel> {
        self.entries@.map_values(|e: WaitListEntry| e@)
    }

    /// Nobody waits.
    pub fn new() -> (r: Self)
        ensures
            r@ == Map::<H256, EntryModel>::empty(),
    {
        let r = WaitList { entries: SortedMap::new() };
        assert(r@ =~= Map::<H256, EntryModel>::empty());
        r
    }

    /// How many blocks are being traced.
    pub fn len(&self) -> (r: usize)
        ensures
            r == sorted(self@.dom()).len(),
            is_sorted_list(sorted(self@.dom()), self@.dom()),
    {
        assert(self@.dom() =~= self.entries@.dom());
        self.entries.len()
    }

    /// Takes in a request for the traces of `block`; `cached` tells whether they are there.
    pub fn request_get_traces(&mut self, block: H256, waiter: u64, now: u64, cached: bool) -> (r:
        RequestAction)
        ensures
            r == if cached {
                RequestAction::Reply
            } else if old(self)@.contains_key(block) {
                RequestAction::Join
            } else {
                RequestAction::Spawn
            },
            final(self)@ == if cached {
                old(self)@
            } else {
                with_waiter(old(self)@, block, waiter, now)
            },
    {
        let ghost before = self@;
        if cached {
            return RequestAction::Reply;
        }
        match self.entries.remove(&block) {
            Some(entry) => {
                let mut waiters = entry.waiters;
                waiters.push(waiter);
                let joined = WaitListEntry { created_at: entry.created_at, waiters };
                self.entries.insert(block, joined);
                assert(joined@ =~= (EntryModel {
                    created_at: before[block].created_at,
                    waiters: before[block].waiters.push(waiter),
                }));
                assert(self@ =~= before.insert(block, joined@));
                RequestAction::Join
            },
            None => {
                let mut waiters: Vec<u64> = Vec::new();
                waiters.push(waiter);
                let entry = WaitListEntry { created_at: now, waiters };
                self.entries.insert(block, entry);
                assert(entry@ =~= (EntryModel { created_at: now, waiters: seq![waiter] }));
                assert(self@ =~= before.insert(block, entry@));
                RequestAction::Spawn
            },
        }
    }

    /// Takes in that the tracing of `block` is over: hands out who waits for it, if anyone still
    /// does. Its traces are to be kept only then.
    pub fn blocking_finished(&mut self, block: H256) -> (r: Option<Vec<u64>>)
        ensures
            r is Some == old(self)@.contains_key(block),
            r is Some ==> r->0@ == old(self)@[block].waiters,
            final(self)@ == old(self)@.remove(block),
    {
        let ghost before = self@;
        let gone = self.entries.remove(&block);
        assert(self@ =~= before.remove(block));
        match gone {
            Some(entry) => Some(entry.waiters),
            None => None,
        }
    }

    /// Takes in what came of the tracing of `block`: says what to answer whom, and what to keep.
    /// There is nothing to do if nobody waits for the block any more.
    pub fn finish(&mut self, block: H256, result: Result<Vec<TransactionTrace>, String>) -> (r:
        Option<Delivery>)
        ensures
            r is Some == old(self)@.contains_key(block),
            r is Some ==> {
                &&& is_told_to_all(r->0.answers@, old(self)@[block].waiters, shared(result))
                &&& r->0.keep == kept(result)
            },
            final(self)@ == old(self)@.remove(block),
    {
        match self.blocking_finished(block) {
            Some(waiters) => Some(deliver(waiters, result)),
            None => None,
        }
    }

    /// The blocks that have been waited for too long, in order.
    fn list_overdue(&self, now: u64) -> (r: Vec<H256>)
        ensures
            is_sorted_list(r@, overdue_blocks(self@, now)),
    {
        let n: usize = self.entries.len();
        let ghost keys = self.entries.keys();
        let ghost all = self@;
        let mut list: Vec<H256> = Vec::new();
        let mut i: usize = 0;
        while i < n
            invariant
                i <= n == keys.len(),
                keys == self.entries.keys(),
                is_sorted_list(keys, self.entries@.dom()),
                all == self@,
                crate::ordered::ascending(list@),
                forall|k: H256| #[trigger]
                    list@.contains(k) <==> keys.take(i as int).contains(k) && is_overdue(
                        all[k],
                        now,
                    ),
            decreases n - i,
        {
            let (block, entry) = self.entries.entry(i);
            let ghost before = list@;
            assert(all[*block] == entry@);
            let late = now > entry.created_at && now - entry.created_at > WAIT_LIMIT_NANOS;
            assert(late == is_overdue(all[*block], now));
            if late {
                list.push(*block);
            }
            proof {
                overdue_grows(keys, all, now, i as int, before, list@);
            }
            i += 1;
        }
        proof {
            assert(keys.take(i as int) =~= keys);
            assert(all.dom() =~= self.entries@.dom());
            assert forall|k: H256| #[trigger] list@.contains(k) <==> overdue_blocks(
                all,
                now,
            ).contains(k) by {
                assert(keys.contains(k) <==> self.entries@.dom().contains(k));
            }
        }
        list
    }

    /// Gives up on the blocks that have been waited for too long, whose tracing must have failed
    /// or been cancelled: hands out how many there were and who waited for them.
    pub fn cleanup_wait_list(&mut self, now: u64) -> (r: (usize, Vec<u64>))
        ensures
            is_sorted_list(
                sorted(overdue_blocks(old(self)@, now)),
                overdue_blocks(old(self)@, now),
            ),
            r.0 == sorted(overdue_blocks(old(self)@, now)).len(),
            r.1@ == all_waiters(old(self)@, sorted(overdue_blocks(old(self)@, now))),
            final(self)@ == old(self)@.remove_keys(overdue_blocks(old(self)@, now)),
    {
        let ghost before = self@;
        let ghost gone = overdue_blocks(before, now);
        let overdue = self.list_overdue(now);
        proof {
            crate::ordered::sorted_is_unique(overdue@, gone);
            assert forall|j: int| 0 <= j < overdue@.len() implies before.contains_key(
                #[trigger] overdue@[j],
            ) by {
                assert(overdue@.contains(overdue@[j]));
            }
        }
        let mut waiters: Vec<u64> = Vec::new();
        let mut i: usize = 0;
        assert(overdue@.take(0) =~= seq![]);
        while i < overdue.len()
            invariant
                i <= overdue@.len(),
                crate::ordered::ascending(overdue@),
                forall|j: int| 0 <= j < overdue@.len() ==> before.contains_key(
                    #[trigger] overdue@[j],
                ),
                waiters@ == all_waiters(before, overdue@.take(i as int)),
                forall|k: H256| #[trigger]
                    self@.contains_key(k) <==> before.contains_key(k) && !overdue@.take(
                        i as int,
                    ).contains(k),
                forall|k: H256| #[trigger] self@.contains_key(k) ==> self@[k] == before[k],
            decreases overdue@.len() - i,
        {
            let block: H256 = overdue[i];
            let ghost prior = self@;
            let ghost shorter = overdue@.take(i as int);
            let ghost longer = overdue@.take(i + 1);
            proof {
                assert(longer.drop_last() =~= shorter);
                assert(before.contains_key(overdue@[i as int]));
                if shorter.contains(block) {
                    let j = choose|j: int| 0 <= j < shorter.len() && shorter[j] == block;
                    assert(overdue@[j] == block);
                    crate::ordered::key_order_asymmetric(overdue@[j], overdue@[i as int]);
                }
                assert(prior.contains_key(block));
            }
            match self.blocking_finished(block) {
                Some(mut more) => {
                    waiters.append(&mut more);
                },
                None => {},
            }
            proof {
                assert forall|k: H256| #[trigger] longer.contains(k) <==> (shorter.contains(k) || k
                    == block) by {
                    if shorter.contains(k) {
                        let j = choose|j: int| 0 <= j < shorter.len() && shorter[j] == k;
                        assert(longer[j] == k);
                    }
                    assert(longer[i as int] == block);
                }
                assert forall|k: H256| #[trigger] self@.contains_key(k) <==> before.contains_key(k)
                    && !longer.contains(k) by {
                    assert(prior.contains_key(k) <==> before.contains_key(k) && !shorter.contains(
                        k,
                    ));
                }
                assert forall|k: H256| #[trigger] self@.contains_key(k) implies self@[k]
                    == before[k] by {
                    assert(prior.contains_key(k));
                }
            }
            i += 1;
        }
        proof {
            assert(overdue@.take(i as int) =~= overdue@);
            assert forall|k: H256| #[trigger] overdue@.contains(k) <==> gone.contains(k) by {}
            assert(self@ =~= before.remove_keys(gone));
        }
        (overdue.len(), waiters)
    }
}

/// The blocks that have been waited for too long stay in order as they are found.
proof fn overdue_grows(
    keys: Seq<H256>,
    all: Map<H256, EntryModel>,
    now: u64,
    i: int,
    before: Seq<H256>,
    after: Seq<H256>,
)
    requires
        crate::ordered::ascending(keys),
        0 <= i < keys.len(),
        crate::ordered::ascending(before),
        forall|k: H256| #[trigger]
            before.contains(k) <==> keys.take(i).contains(k) && is_overdue(all[k], now),
        after == if is_overdue(all[keys[i]], now) {
            before.push(keys[i])
        } else {
            before
        },
    ensures
        crate::ordered::ascending(after),
        forall|k: H256| #[trigger]
            after.contains(k) <==> keys.take(i + 1).contains(k) && is_overdue(all[k], now),
{
    let shorter = keys.take(i);
    let longer = keys.take(i + 1);
    assert forall|k: H256| #[trigger] longer.contains(k) <==> (shorter.contains(k) || k
        == keys[i]) by {
        if shorter.contains(k) {
            let j = choose|j: int| 0 <= j < shorter.len() && shorter[j] == k;
            assert(longer[j] == k);
        }
        assert(longer[i] == keys[i]);
        if longer.contains(k) && k != keys[i] {
            let j = choose|j: int| 0 <= j < longer.len() && longer[j] == k;
            assert(shorter[j] == k);
        }
    }
    if is_overdue(all[keys[i]], now) {
        assert forall|a: int, b: int| 0 <= a < b < after.len() implies crate::primitives::bytes_lt(
            #[trigger] after[a].key(),
            #[trigger] after[b].key(),
        ) by {
            if b == before.len() {
                assert(before.contains(before[a]));
                let j = choose|j: int| 0 <= j < shorter.len() && shorter[j] == before[a];
                assert(keys[j] == before[a]);
            } else {
                assert(before[a] == after[a] && before[b] == after[b]);
            }
        }
        assert forall|k: H256| #[trigger] after.contains(k) <==> longer.contains(k) && is_overdue(
            all[k],
            now,
        ) by {
            if before.contains(k) {
                let j = choose|j: int| 0 <= j < before.len() && before[j] == k;
                assert(after[j] == k);
            }
            assert(after[before.len() as int] == keys[i]);
        }
    }
}

/// The request waits for the block.
pub open spec fn waits_for(m: Map<H256, EntryModel>, block: H256, waiter: u64) -> bool {
    m.contains_key(block) && m[block].waiters.contains(waiter)
}

/// The request waits.
pub open spec fn waits(m: Map<H256, EntryModel>, waiter: u64) -> bool {
    exists|block: H256| #[trigger] waits_for(m, block, waiter)
}

/// No request waits in two places.
pub open spec fn waiters_are_unique(m: Map<H256, EntryModel>) -> bool {
    &&& forall|b: H256| #[trigger] m.contains_key(b) ==> m[b].waiters.no_duplicates()
    &&& forall|b: H256, c: H256, waiter: u64| #[trigger]
        waits_for(m, b, waiter) && #[trigger] waits_for(m, c, waiter) ==> b == c
}

/// A request with a number of its own waits in one place, and nobody else is disturbed.
pub proof fn request_waits_once(
    m: Map<H256, EntryModel>,
    block: H256,
    waiter: u64,
    now: u64,
    other: u64,
)
    requires
        waiters_are_unique(m),
        !waits(m, waiter),
        other != waiter,
    ensures
        waiters_are_unique(with_waiter(m, block, waiter, now)),
        waits_for(with_waiter(m, block, waiter, now), block, waiter),
        waits(with_waiter(m, block, waiter, now), other) == waits(m, other),
{
    let t = with_waiter(m, block, waiter, now);
    let list = t[block].waiters;
    let n = list.len() - 1;
    assert(list[n] == waiter);
    assert(waits_for(t, block, waiter));
    assert forall|b: H256, w: u64| #[trigger] waits_for(t, b, w) implies waits_for(m, b, w) || (b
        == block && w == waiter) by {
        if b == block {
            let i = choose|i: int| 0 <= i < list.len() && list[i] == w;
            if i < n {
                assert(m[block].waiters[i] == w);
            }
        }
    }
    assert forall|b: H256, w: u64| #[trigger] waits_for(m, b, w) implies waits_for(t, b, w) by {
        if b == block {
            let i = choose|i: int| 0 <= i < m[b].waiters.len() && m[b].waiters[i] == w;
            assert(list[i] == w);
        }
    }
    assert forall|b: H256| #[trigger] t.contains_key(b) implies t[b].waiters.no_duplicates() by {
        if b == block && m.contains_key(b) {
            assert(!waits_for(m, b, waiter));
            assert(m[b].waiters.no_duplicates());
            assert forall|i: int, j: int| 0 <= i < j < list.len() implies list[i] != list[j] by {
                if j == n {
                    assert(m[b].waiters[i] == list[i]);
                } else {
                    assert(m[b].waiters[i] == list[i] && m[b].waiters[j] == list[j]);
                }
            }
        }
    }
    assert forall|b: H256, c: H256, w: u64| #[trigger] waits_for(t, b, w) && #[trigger] waits_for(
        t,
        c,
        w,
    ) implies b == c by {
        if w == waiter {
            assert(!waits_for(m, b, w) && !waits_for(m, c, w));
        } else {
            assert(waits_for(m, b, w) && waits_for(m, c, w));
        }
    }
    if waits(t, other) {
        let b = choose|b: H256| #[trigger] waits_for(t, b, other);
        assert(waits_for(m, b, other));
    }
    if waits(m, other) {
        let b = choose|b: H256| #[trigger] waits_for(m, b, other);
        assert(waits_for(t, b, other));
    }
}

/// When blocks are taken off the list, exactly those who waited for them wait no more, and no
/// request is answered twice.
pub proof fn leaving_is_final(m: Map<H256, EntryModel>, gone: Set<H256>, waiter: u64)
    requires
        waiters_are_unique(m),
    ensures
        waiters_are_unique(m.remove_keys(gone)),
        waits(m.remove_keys(gone), waiter) == (waits(m, waiter) && !exists|b: H256|
            gone.contains(b) && #[trigger] waits_for(m, b, waiter)),
{
    let t = m.remove_keys(gone);
    assert forall|b: H256, w: u64| #[trigger] waits_for(t, b, w) == (waits_for(m, b, w)
        && !gone.contains(b)) by {}
    assert forall|b: H256, c: H256, w: u64| #[trigger] waits_for(t, b, w) && #[trigger] waits_for(
        t,
        c,
        w,
    ) implies b == c by {
        assert(waits_for(m, b, w) && waits_for(m, c, w));
    }
    if waits(t, waiter) {
        let b = choose|b: H256| #[trigger] waits_for(t, b, waiter);
        assert(waits_for(m, b, waiter));
        if exists|c: H256| gone.contains(c) && #[trigger] waits_for(m, c, waiter) {
            let c = choose|c: H256| gone.contains(c) && #[trigger] waits_for(m, c, waiter);
            assert(b == c);
        }
    }
    if waits(m, waiter) {
        let b = choose|b: H256| #[trigger] waits_for(m, b, waiter);
        if !gone.contains(b) {
            assert(waits_for(t, b, waiter));
        }
    }
}

/// A block is traced once, however many requests come for it: only the first starts its tracing,
/// and every later one finds it on the list until it is taken off.
pub proof fn one_trace_for_many_requests(
    m: Map<H256, EntryModel>,
    block: H256,
    waiter: u64,
    now: u64,
    other: H256,
)
    ensures
        with_waiter(m, block, waiter, now).contains_key(block),
        m.contains_key(other) ==> with_waiter(m, block, waiter, now).contains_key(other),
        m.contains_key(block) ==> with_waiter(m, block, waiter, now)[block].created_at
            == m[block].created_at,
{
}

/// When the tracing of a block failed, nothing is kept, and the next request has it traced again.
pub proof fn failure_is_not_kept(
    m: Map<H256, EntryModel>,
    block: H256,
    result: Result<Vec<TransactionTrace>, String>,
    other: H256,
)
    ensures
        kept(result) is Some == result is Ok,
        !m.remove(block).contains_key(block),
        other != block ==> m.remove(block).contains_key(other) == m.contains_key(other)
            && m.remove(block)[other] == m[other],
{
}

/// Those who are told when the list is cleaned up are those who waited for the blocks given up.
pub proof fn told_are_those_who_waited(
    m: Map<H256, EntryModel>,
    blocks: Seq<H256>,
    waiter: u64,
)
    requires
        forall|i: int| 0 <= i < blocks.len() ==> m.contains_key(#[trigger] blocks[i]),
    ensures
        all_waiters(m, blocks).contains(waiter) == exists|i: int|
            0 <= i < blocks.len() && waits_for(m, #[trigger] blocks[i], waiter),
    decreases blocks.len(),
{
    if blocks.len() > 0 {
        let rest = blocks.drop_last();
        let last = blocks.last();
        let n = rest.len() as int;
        told_are_those_who_waited(m, rest, waiter);
        let told = all_waiters(m, blocks);
        let prior = all_waiters(m, rest);
        assert(blocks[n] == last);
        if told.contains(waiter) {
            let k = choose|k: int| 0 <= k < told.len() && told[k] == waiter;
            if k < prior.len() {
                assert(prior[k] == waiter);
                let i = choose|i: int| 0 <= i < rest.len() && waits_for(m, #[trigger] rest[i], waiter);
                assert(blocks[i] == rest[i]);
            } else {
                assert(m[last].waiters[k - prior.len()] == waiter);
                assert(waits_for(m, blocks[n], waiter));
            }
        }
        if exists|i: int| 0 <= i < blocks.len() && waits_for(m, #[trigger] blocks[i], waiter) {
            let i = choose|i: int| 0 <= i < blocks.len() && waits_for(m, #[trigger] blocks[i], waiter);
            if i < n {
                assert(rest[i] == blocks[i]);
                assert(prior.contains(waiter));
                let k = choose|k: int| 0 <= k < prior.len() && prior[k] == waiter;
                assert(told[k] == waiter);
            } else {
                let k = choose|k: int|
                    0 <= k < m[last].waiters.len() && m[last].waiters[k] == waiter;
                assert(told[prior.len() + k] == waiter);
            }
        }
    }
}

/// How the tracing of a block ended.
#[derive(Debug)]
pub enum TaskOutcome {
    /// It took too long.
    TimedOut,
    /// It broke down; the text of the error.
    Panicked(String),
    /// It came to a result.
    Done(Result<Vec<TransactionTrace>, String>),
}

/// What comes of the tracing of a block.
pub fn task_result(outcome: TaskOutcome) -> (r: Result<Vec<TransactionTrace>, String>)
    ensures
        match outcome {
            TaskOutcome::TimedOut => r is Err && r->Err_0@ == "Tracing timeout after "@ + decimal(
                TRACING_TIMEOUT_SECS as nat,
            ) + " seconds"@,
            TaskOutcome::Panicked(text) => r is Err && r->Err_0@ == "Tracing panicked: "@ + text@,
            TaskOutcome::Done(result) => r == result,
        },
{
    match outcome {
        TaskOutcome::TimedOut => {
            let seconds = number_text(TRACING_TIMEOUT_SECS as usize);
            Err("Tracing timeout after ".to_string().concat(seconds.as_str()).concat(" seconds"))
        },
        TaskOutcome::Panicked(text) => Err(
            "Tracing panicked: ".to_string().concat(text.as_str()),
        ),
        TaskOutcome::Done(result) => result,
    }
}

/// What those are told who waited for a block that was given up.
pub fn give_up_message() -> (r: String)
    ensures
        r@ == "Trace request timeout (task failed or was cancelled)"@,
{
    "Trace request timeout (task failed or was cancelled)".to_string()
}

/// How a block is replayed, which depends on the runtime.
#[derive(Clone, Copy, Debug, PartialEq, Eq, Structural)]
pub enum ReplayPlan {
    /// The runtime initialises the block itself.
    TraceBlock,
    /// The block is initialised first.
    InitializeThenTrace,
    /// The block is initialised first, in the way of older runtimes.
    InitializeBeforeVersion5ThenTrace,
}

/// How a block is replayed, given the versions of the tracing and of the core interface. The
/// second one matters only if the first is below five.
pub fn replay_plan(trace_api_version: u32, core_api_version: u32) -> (r: ReplayPlan)
    ensures
        r == if trace_api_version >= 5 {
            ReplayPlan::TraceBlock
        } else if core_api_version >= 5 {
            ReplayPlan::InitializeThenTrace
        } else {
            ReplayPlan::InitializeBeforeVersion5ThenTrace
        },
{
    if trace_api_version >= 5 {
        ReplayPlan::TraceBlock
    } else if core_api_version >= 5 {
        ReplayPlan::InitializeThenTrace
    } else {
        ReplayPlan::InitializeBeforeVersion5ThenTrace
    }
}

/// The hashes of the transactions by their positions; of two at one position the last counts.
pub open spec fn hashes_by_index(statuses: Seq<(u32, H256)>) -> Map<u32, H256>
    decreases statuses.len(),
{
    if statuses.len() == 0 {
        map![]
    } else {
        hashes_by_index(statuses.drop_last()).insert(statuses.last().0, statuses.last().1)
    }
}

/// The output with the message for a reverted call put into its short form.
pub open spec fn short_output(o: OutputModel) -> OutputModel {
    match o {
        OutputModel::Error { message } => if message == vstd::utf8::encode_utf8(
            "execution reverted"@,
        ) {
            OutputModel::Error { message: vstd::utf8::encode_utf8("Reverted"@) }
        } else {
            o
        },
        _ => o,
    }
}

/// The trace with what is known of its block and transaction.
pub open spec fn labelled(
    t: TxTraceModel,
    block_hash: H256,
    height: u32,
    transaction_hash: H256,
) -> TxTraceModel {
    TxTraceModel {
        block_hash,
        block_number: height,
        transaction_hash,
        output: short_output(t.output),
        ..t
    }
}

/// The traces with what is known of their block and transactions, leaving out those of unknown
/// transactions.
pub open spec fn all_labelled(
    s: Seq<TxTraceModel>,
    hashes: Map<u32, H256>,
    block_hash: H256,
    height: u32,
) -> Seq<TxTraceModel>
    decreases s.len(),
{
    if s.len() == 0 {
        seq![]
    } else {
        let prior = all_labelled(s.drop_last(), hashes, block_hash, height);
        let t = s.last();
        if hashes.contains_key(t.transaction_position) {
            prior.push(labelled(t, block_hash, height, hashes[t.transaction_position]))
        } else {
            prior
        }
    }
}

/// Whether two byte strings hold the same bytes.
fn same_bytes(a: &[u8], b: &[u8]) -> (r: bool)
    ensures
        r == (a@ == b@),
{
    if a.len() != b.len() {
        return false;
    }
    let mut i: usize = 0;
    while i < a.len()
        invariant
            i <= a@.len() == b@.len(),
            forall|j: int| 0 <= j < i ==> a@[j] == b@[j],
        decreases a@.len() - i,
    {
        if a[i] != b[i] {
            return false;
        }
        i += 1;
    }
    assert(a@ =~= b@);
    true
}

/// The output with the message for a reverted call put into its short form.
fn shorten(output: TransactionTraceOutput) -> (r: TransactionTraceOutput)
    ensures
        r@ == short_output(output@),
{
    match output {
        TransactionTraceOutput::Error(message) => {
            if same_bytes(message.as_slice(), "execution reverted".as_bytes()) {
                let short = vstd::slice::slice_to_vec("Reverted".as_bytes());
                TransactionTraceOutput::Error(short)
            } else {
                TransactionTraceOutput::Error(message)
            }
        },
        TransactionTraceOutput::Result(result) => TransactionTraceOutput::Result(result),
    }
}

/// Notes in the traces of a block what is known of it and of their transactions, whose positions
/// and hashes are `statuses`. Traces of unknown transactions are left out.
pub fn label_traces(
    traces: Vec<TransactionTrace>,
    statuses: &Vec<(u32, H256)>,
    block_hash: H256,
    height: u32,
) -> (r: Vec<TransactionTrace>)
    ensures
        tx_traces_view(r@) == all_labelled(
            tx_traces_view(traces@),
            hashes_by_index(statuses@),
            block_hash,
            height,
        ),
{
    let mut hashes: BTreeMap<u32, H256> = BTreeMap::new();
    let mut i: usize = 0;
    assert(statuses@.take(0) =~= seq![]);
    while i < statuses.len()
        invariant
            i <= statuses@.len(),
            hashes@ == hashes_by_index(statuses@.take(i as int)),
        decreases statuses@.len() - i,
    {
        assert(statuses@.take(i + 1).drop_last() =~= statuses@.take(i as int));
        let _replaced = hashes.insert(statuses[i].0, statuses[i].1);
        i += 1;
    }
    assert(statuses@.take(i as int) =~= statuses@);
    let ghost all = tx_traces_view(traces@);
    let ghost known = hashes@;
    let mut list: Vec<TransactionTrace> = Vec::new();
    assert(all.take(0) =~= seq![]);
    assert(tx_traces_view(list@) =~= seq![]);
    for t in it: traces
        invariant
            all == tx_traces_view(it.seq()),
            known == hashes@,
            tx_traces_view(list@) == all_labelled(
                all.take(it.index() as int),
                known,
                block_hash,
                height,
            ),
    {
        let ghost before = tx_traces_view(list@);
        let ghost k = it.index() as int;
        assert(all.take(k + 1).drop_last() =~= all.take(k));
        assert(all.take(k + 1).last() == t@);
        match hashes.get(&t.transaction_position) {
            Some(transaction_hash) => {
                let labelled_trace = TransactionTrace {
                    action: t.action,
                    block_hash,
                    block_number: height,
                    output: shorten(t.output),
                    subtraces: t.subtraces,
                    trace_address: t.trace_address,
                    transaction_hash: *transaction_hash,
                    transaction_position: t.transaction_position,
                };
                list.push(labelled_trace);
                assert(tx_traces_view(list@) =~= before.push(labelled_trace@));
            },
            None => {},
        }
    }
    assert(all.take(all.len() as int) =~= all);
    list
}

} // verus!

//! The course of a batch of calls: what is run, what is repeated, and what is answered.
use crate::primitives::{be_value, H256};
use crate::simulate::{
    wire_events_view, wire_traces_view, CallModel, DebankEvent, DebankMultiCallResp,
    DebankMultiCallStats, DebankSimulateResp, DebankSimulateStats, DebankSingleCallResult,
    DebankSingleSimulateResult, DebankTrace, SimulateModel,
};
use crate::formatter::texts_view;
use vstd::prelude::*;

verus! {

/// The result of one call of a batch.
pub trait BatchResult: View + Sized {
    /// The code of a result: zero if the call succeeded.
    spec fn code_of(m: Self::V) -> i32;

    /// The code of the result.
    fn result_code(&self) -> (r: i32)
        ensures
            r == Self::code_of(self@),
    ;

    /// The same result once more.
    fn duplicate(&self) -> (r: Self)
        ensures
            r@ == self@,
    ;
}

/// The same texts once more.
fn copy_texts(texts: &Vec<String>) -> (r: Vec<String>)
    ensures
        texts_view(r@) == texts_view(texts@),
{
    let ghost all = texts_view(texts@);
    let mut list: Vec<String> = Vec::new();
    let mut i: usize = 0;
    assert(texts_view(list@) =~= all.take(0));
    while i < texts.len()
        invariant
            i <= texts@.len(),
            all == texts_view(texts@),
            texts_view(list@) == all.take(i as int),
        decreases texts@.len() - i,
    {
        let ghost before = texts_view(list@);
        list.push(texts[i].clone());
        assert(texts_view(list@) =~= before.push(all[i as int]));
        assert(all.take(i + 1) =~= all.take(i as int).push(all[i as int]));
        i += 1;
    }
    assert(all.take(i as int) =~= all);
    list
}

impl DebankTrace {
    /// The same trace once more.
    pub fn duplicate(&self) -> (r: Self)
        ensures
            r@ == self@,
    {
        let r = DebankTrace {
            id: self.id.clone(),
            from_addr: self.from_addr,
            gas_limit: self.gas_limit,
            input: self.input.clone(),
            to_addr: self.to_addr,
            value: self.value,
            gas_used: self.gas_used,
            output: self.output.clone(),
            call_create_type: self.call_create_type.clone(),
            call_type: self.call_type.clone(),
            tx_id: self.tx_id,
            parent_trace_id: self.parent_trace_id.clone(),
            pos_in_parent_trace: self.pos_in_parent_trace,
            self_storage_change: self.self_storage_change,
            storage_change: self.storage_change,
        };
        assert(r@ =~= self@);
        r
    }
}

impl DebankEvent {
    /// The same event once more.
    pub fn duplicate(&self) -> (r: Self)
        ensures
            r@ == self@,
    {
        let r = DebankEvent {
            id: self.id.clone(),
            contract_id: self.contract_id,
            selector: self.selector.clone(),
            topics: copy_texts(&self.topics),
            data: self.data.clone(),
            tx_id: self.tx_id,
            parent_trace_id: self.parent_trace_id.clone(),
            pos_in_parent_trace: self.pos_in_parent_trace,
        };
        assert(r@ =~= self@);
        r
    }
}

/// The same traces once more.
fn copy_traces(traces: &Vec<DebankTrace>) -> (r: Vec<DebankTrace>)
    ensures
        wire_traces_view(r@) == wire_traces_view(traces@),
{
    let ghost all = wire_traces_view(traces@);
    let mut list: Vec<DebankTrace> = Vec::new();
    let mut i: usize = 0;
    assert(wire_traces_view(list@) =~= all.take(0));
    while i < traces.len()
        invariant
            i <= traces@.len(),
            all == wire_traces_view(traces@),
            wire_traces_view(list@) == all.take(i as int),
        decreases traces@.len() - i,
    {
        let ghost before = wire_traces_view(list@);
        list.push(traces[i].duplicate());
        assert(wire_traces_view(list@) =~= before.push(all[i as int]));
        assert(all.take(i + 1) =~= all.take(i as int).push(all[i as int]));
        i += 1;
    }
    assert(all.take(i as int) =~= all);
    list
}

/// The same events once more.
fn copy_events(events: &Vec<DebankEvent>) -> (r: Vec<DebankEvent>)
    ensures
        wire_events_view(r@) == wire_events_view(events@),
{
    let ghost all = wire_events_view(events@);
    let mut list: Vec<DebankEvent> = Vec::new();
    let mut i: usize = 0;
    assert(wire_events_view(list@) =~= all.take(0));
    while i < events.len()
        invariant
            i <= events@.len(),
            all == wire_events_view(events@),
            wire_events_view(list@) == all.take(i as int),
        decreases events@.len() - i,
    {
        let ghost before = wire_events_view(list@);
        list.push(events[i].duplicate());
        assert(wire_events_view(list@) =~= before.push(all[i as int]));
        assert(all.take(i + 1) =~= all.take(i as int).push(all[i as int]));
        i += 1;
    }
    assert(all.take(i as int) =~= all);
    list
}

impl BatchResult for DebankSingleSimulateResult {
    open spec fn code_of(m: SimulateModel) -> i32 {
        m.code
    }

    fn result_code(&self) -> (r: i32) {
        self.code
    }

    fn duplicate(&self) -> (r: Self) {
        let r = DebankSingleSimulateResult {
            code: self.code,
            err: self.err.clone(),
            gas_used: self.gas_used,
            traces: copy_traces(&self.traces),
            events: copy_events(&self.events),
        };
        assert(r@ =~= self@);
        r
    }
}

impl BatchResult for DebankSingleCallResult {
    open spec fn code_of(m: CallModel) -> i32 {
        m.code
    }

    fn result_code(&self) -> (r: i32) {
        self.code
    }

    fn duplicate(&self) -> (r: Self) {
        let r = DebankSingleCallResult {
            code: self.code,
            err: self.err.clone(),
            from_cache: self.from_cache,
            result: self.result.clone(),
            gas_used: self.gas_used,
        };
        assert(r@ =~= self@);
        r
    }
}

/// The results as mathematical values.
pub open spec fn models<R: BatchResult>(s: Seq<R>) -> Seq<R::V> {
    s.map_values(|r: R| r@)
}

/// Every result after one that failed repeats it.
pub open spec fn failure_is_final<R: BatchResult>(s: Seq<R::V>) -> bool {
    forall|i: int, j: int|
        0 <= i < j < s.len() && R::code_of(#[trigger] s[i]) != 0 ==> #[trigger] s[j] == s[i]
}

/// All calls succeeded.
pub open spec fn all_succeeded<R: BatchResult>(s: Seq<R::V>) -> bool {
    forall|i: int| 0 <= i < s.len() ==> R::code_of(#[trigger] s[i]) == 0
}

/// A batch of calls that is being run. If it is one that stops, no call is run after one that
/// failed; the failure is repeated for those that are left.
pub struct Batch<R: BatchResult> {
    results: Vec<R>,
    stops: bool,
    stopped: bool,
}

impl<R: BatchResult> Batch<R> {
    /// Nothing is run once the batch has stopped, and it has stopped if the last call failed.
    #[verifier::type_invariant]
    spec fn well_formed(self) -> bool {
        let s = models(self.results@);
        &&& self.stops ==> failure_is_final::<R>(s)
        &&& self.stopped == (self.stops && s.len() > 0 && R::code_of(s.last()) != 0)
    }

    /// The results so far.
    pub closed spec fn view(&self) -> Seq<R::V> {
        models(self.results@)
    }

    /// The batch is one that stops.
    pub closed spec fn stops_on_failure(&self) -> bool {
        self.stops
    }

    /// The batch has stopped.
    pub open spec fn has_stopped(&self) -> bool {
        self.stops_on_failure() && self@.len() > 0 && R::code_of(self@.last()) != 0
    }

    /// A batch of which nothing is run yet.
    pub fn new(stops: bool) -> (r: Self)
        ensures
            r@.len() == 0,
            r.stops_on_failure() == stops,
    {
        let r = Batch { results: Vec::new(), stops, stopped: false };
        r
    }

    /// How many calls have a result.
    pub fn len(&self) -> (r: usize)
        ensures
            r == self@.len(),
    {
        self.results.len()
    }

    /// If the batch has stopped, gives the next call the result of the one that failed.
    pub fn repeat_failure(&mut self) -> (r: bool)
        ensures
            r == old(self).has_stopped(),
            r ==> final(self)@ == old(self)@.push(old(self)@.last()),
            !r ==> final(self)@ == old(self)@,
            final(self).stops_on_failure() == old(self).stops_on_failure(),
    {
        proof {
            use_type_invariant(&*self);
        }
        let ghost before = *self;
        if !self.stopped {
            return false;
        }
        let n: usize = self.results.len();
        let again = self.results[n - 1].duplicate();
        let ghost old_models = models(self.results@);
        let mut whole = Self::new(false);
        core::mem::swap(self, &mut whole);
        let stops = whole.stops;
        let mut results = whole.results;
        results.push(again);
        proof {
            let s = models(results@);
            assert(s =~= old_models.push(old_models.last()));
            assert forall|i: int, j: int| 0 <= i < j < s.len() && R::code_of(#[trigger] s[i])
                != 0 implies #[trigger] s[j] == s[i] by {
                if j == old_models.len() && i < j - 1 {
                    assert(old_models[i] == s[i]);
                    assert(old_models[j - 1] == s[j]);
                } else if j < old_models.len() {
                    assert(old_models[i] == s[i] && old_models[j] == s[j]);
                }
            }
        }
        *self = Batch { results, stops, stopped: true };
        true
    }

    /// Takes in the result of the next call, which was run.
    pub fn record(&mut self, result: R)
        requires
            !old(self).has_stopped(),
        ensures
            final(self)@ == old(self)@.push(result@),
            final(self).stops_on_failure() == old(self).stops_on_failure(),
    {
        proof {
            use_type_invariant(&*self);
        }
        let ghost before = models(self.results@);
        let mut whole = Self::new(false);
        core::mem::swap(self, &mut whole);
        let stops = whole.stops;
        let stopped = stops && result.result_code() != 0;
        let mut results = whole.results;
        results.push(result);
        proof {
            let s = models(results@);
            assert(s =~= before.push(result@));
            if stops {
                assert forall|i: int, j: int| 0 <= i < j < s.len() && R::code_of(#[trigger] s[i])
                    != 0 implies #[trigger] s[j] == s[i] by {
                    if i < before.len() - 1 {
                        assert(before[before.len() - 1] == before[i]);
                    }
                    assert(before[i] == s[i]);
                    if j < before.len() {
                        assert(before[j] == s[j]);
                    }
                }
            }
        }
        *self = Batch { results, stops, stopped };
    }

    /// The results, and whether all calls succeeded. In a batch that stops every result after a
    /// failure repeats it.
    pub fn into_results(self) -> (r: (Vec<R>, bool))
        ensures
            models(r.0@) == self@,
            r.1 == all_succeeded::<R>(self@),
            self.stops_on_failure() ==> failure_is_final::<R>(self@),
    {
        proof {
            use_type_invariant(&self);
        }
        let ghost all = models(self.results@);
        let mut success = true;
        let mut i: usize = 0;
        while i < self.results.len()
            invariant
                i <= self.results@.len(),
                all == models(self.results@),
                success == (forall|j: int| 0 <= j < i ==> R::code_of(#[trigger] all[j]) == 0),
            decreases self.results@.len() - i,
        {
            assert(all[i as int] == self.results@[i as int]@);
            if self.results[i].result_code() != 0 {
                success = false;
            }
            i += 1;
        }
        (self.results, success)
    }
}

/// The identifier that the next call of a batch is simulated under: the number of the call, the
/// first one being one.
pub fn next_tx_id<R: BatchResult>(batch: &Batch<R>) -> (r: H256)
    requires
        batch@.len() < u64::MAX,
    ensures
        be_value(r.0@) == batch@.len() + 1,
{
    H256::from_low_u64_be(batch.len() as u64 + 1)
}

/// The answer to a batch of simulated transactions.
pub fn simulate_response(
    batch: Batch<DebankSingleSimulateResult>,
    block_num: u64,
    block_hash: H256,
    block_time: u64,
) -> (r: DebankSimulateResp)
    ensures
        models(r.results@) == batch@,
        r.stats == (DebankSimulateStats {
            block_num,
            block_hash,
            block_time,
            success: all_succeeded::<DebankSingleSimulateResult>(batch@),
        }),
        batch.stops_on_failure() ==> failure_is_final::<DebankSingleSimulateResult>(batch@),
{
    let (results, success) = batch.into_results();
    DebankSimulateResp {
        results,
        stats: DebankSimulateStats { block_num, block_hash, block_time, success },
    }
}

/// The answer to a batch of read-only calls.
pub fn multicall_response(
    batch: Batch<DebankSingleCallResult>,
    block_num: u64,
    block_hash: H256,
    block_time: u64,
) -> (r: DebankMultiCallResp)
    ensures
        models(r.results@) == batch@,
        r.stats == (DebankMultiCallStats {
            block_num,
            block_hash,
            block_time,
            success: all_succeeded::<DebankSingleCallResult>(batch@),
            cache_enabled: false,
        }),
        batch.stops_on_failure() ==> failure_is_final::<DebankSingleCallResult>(batch@),
{
    let (results, success) = batch.into_results();
    DebankMultiCallResp {
        results,
        stats: DebankMultiCallStats {
            block_num,
            block_hash,
            block_time,
            success,
            cache_enabled: false,
        },
    }
}

} // verus!

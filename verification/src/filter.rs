//! Traces of a range of blocks, filtered by address and handed out in pages.
use crate::block_trace::{
    tx_traces_view, ActionModel, TransactionTrace, TransactionTraceAction, TxTraceModel,
};
use crate::primitives::{ByteKey, H160, H256};
use crate::text::{decimal, number_text};
use vstd::prelude::*;

verus! {

/// A block that is named by what it is at the moment.
#[derive(Clone, Copy, Debug, PartialEq, Eq, Structural)]
pub enum RequestBlockTag {
    Earliest,
    Latest,
    Finalized,
    Pending,
}

/// How a request names a block.
#[derive(Clone, Copy, Debug)]
pub enum RequestBlockId {
    Number(u32),
    Hash(H256),
    Tag(RequestBlockTag),
}

/// Which traces are asked for.
#[derive(Debug)]
pub struct FilterRequest {
    pub from_block: Option<RequestBlockId>,
    pub to_block: Option<RequestBlockId>,
    /// Only calls from one of these, if there are any.
    pub from_address: Option<Vec<H160>>,
    /// Only calls to one of these, if there are any.
    pub to_address: Option<Vec<H160>>,
    /// How many traces to leave out at the start.
    pub after: Option<u32>,
    /// How many traces to hand out.
    pub count: Option<u32>,
}

/// The height of a block, given those of the best and the finalized one.
pub open spec fn height_of(id: Option<RequestBlockId>, best: u32, finalized: u32) -> Result<
    u32,
    Seq<char>,
> {
    match id {
        Some(RequestBlockId::Number(n)) => Ok(n),
        None => Ok(best),
        Some(RequestBlockId::Tag(RequestBlockTag::Latest)) => Ok(best),
        Some(RequestBlockId::Tag(RequestBlockTag::Earliest)) => Ok(0),
        Some(RequestBlockId::Tag(RequestBlockTag::Finalized)) => Ok(finalized),
        Some(RequestBlockId::Tag(RequestBlockTag::Pending)) => Err("'pending' is not supported"@),
        Some(RequestBlockId::Hash(_)) => Err("Block hash not supported"@),
    }
}

/// What a result says, with the characters of its message.
pub open spec fn texted<T>(r: Result<T, String>) -> Result<T, Seq<char>> {
    match r {
        Ok(v) => Ok(v),
        Err(message) => Err(message@),
    }
}

/// The height of a block, given those of the best and the finalized one.
pub fn block_id(id: Option<RequestBlockId>, best_number: u32, finalized_number: u32) -> (r: Result<
    u32,
    String,
>)
    ensures
        texted(r) == height_of(id, best_number, finalized_number),
{
    match id {
        Some(RequestBlockId::Number(n)) => Ok(n),
        None | Some(RequestBlockId::Tag(RequestBlockTag::Latest)) => Ok(best_number),
        Some(RequestBlockId::Tag(RequestBlockTag::Earliest)) => Ok(0),
        Some(RequestBlockId::Tag(RequestBlockTag::Finalized)) => Ok(finalized_number),
        Some(RequestBlockId::Tag(RequestBlockTag::Pending)) => Err(
            "'pending' is not supported".to_string(),
        ),
        Some(RequestBlockId::Hash(_)) => Err("Block hash not supported".to_string()),
    }
}

/// What to hand out: the heights of the first and the last block, and how many traces.
pub type FilterPlan = (u32, u32, u32);

/// What to hand out for a request, or what is wrong with it.
pub open spec fn plan_of(
    req: FilterRequest,
    best: u32,
    finalized: u32,
    max_block_range: u32,
    max_count: u32,
) -> Result<FilterPlan, Seq<char>> {
    match height_of(req.from_block, best, finalized) {
        Err(message) => Err(message),
        Ok(from) => match height_of(req.to_block, best, finalized) {
            Err(message) => Err(message),
            Ok(to) => {
                let count = match req.count {
                    Some(count) => count,
                    None => max_count,
                };
                if to - from > max_block_range {
                    Err("block range is too wide (maximum "@ + decimal(max_block_range as nat) + ")"@)
                } else if count > max_count {
                    Err(
                        "count ("@ + decimal(count as nat) + ") can't be greater than maximum ("@
                            + decimal(max_count as nat) + ")"@,
                    )
                } else {
                    Ok((from, to, count))
                }
            },
        },
    }
}

/// What to hand out for a request, or what is wrong with it.
pub fn plan_filter(
    req: &FilterRequest,
    best_number: u32,
    finalized_number: u32,
    max_block_range: u32,
    max_count: u32,
) -> (r: Result<FilterPlan, String>)
    ensures
        texted(r) == plan_of(*req, best_number, finalized_number, max_block_range, max_count),
{
    let from_block: u32 = match block_id(req.from_block, best_number, finalized_number) {
        Ok(n) => n,
        Err(message) => return Err(message),
    };
    let to_block: u32 = match block_id(req.to_block, best_number, finalized_number) {
        Ok(n) => n,
        Err(message) => return Err(message),
    };
    let block_range: u32 = to_block.saturating_sub(from_block);
    if block_range > max_block_range {
        let limit = number_text(max_block_range as usize);
        return Err(
            "block range is too wide (maximum ".to_string().concat(limit.as_str()).concat(")"),
        );
    }
    let count: u32 = match req.count {
        Some(count) => count,
        None => max_count,
    };
    if count > max_count {
        let asked = number_text(count as usize);
        let limit = number_text(max_count as usize);
        return Err(
            "count (".to_string().concat(asked.as_str()).concat(
                ") can't be greater than maximum (",
            ).concat(limit.as_str()).concat(")"),
        );
    }
    Ok((from_block, to_block, count))
}

/// The first height from `from` on whose block has traces: the first block has none.
pub open spec fn first_height(from: u32) -> int {
    if from == 0 {
        1
    } else {
        from as int
    }
}

/// The heights of the blocks to trace, in order.
pub open spec fn heights_of(from: u32, to: u32) -> Seq<u32> {
    let first = first_height(from);
    Seq::new(
        if first <= to {
            (to - first + 1) as nat
        } else {
            0
        },
        |i: int| (first + i) as u32,
    )
}

/// The heights of the blocks to trace, in order; the first block has no traces.
pub fn block_heights(from_block: u32, to_block: u32) -> (r: Vec<u32>)
    ensures
        r@ == heights_of(from_block, to_block),
{
    let ghost wanted = heights_of(from_block, to_block);
    let mut heights: Vec<u32> = Vec::new();
    let first: u32 = if from_block == 0 {
        1
    } else {
        from_block
    };
    if first <= to_block {
        let mut n: u32 = first;
        while n < to_block
            invariant
                first == first_height(from_block),
                first <= n <= to_block,
                wanted == heights_of(from_block, to_block),
                heights@ == wanted.take(n - first),
            decreases to_block - n,
        {
            heights.push(n);
            assert(heights@ =~= wanted.take(n + 1 - first));
            n += 1;
        }
        heights.push(n);
    }
    assert(heights@ =~= wanted);
    heights
}

/// The list of addresses lets the address through: it is empty or holds it.
pub open spec fn admits(list: Seq<H160>, address: H160) -> bool {
    list.len() == 0 || list.contains(address)
}

/// The trace is asked for. Only a call has someone it is made to.
pub open spec fn is_wanted(t: TxTraceModel, from: Seq<H160>, to: Seq<H160>) -> bool {
    match t.action {
        ActionModel::Call { from: caller, to: callee, .. } => admits(from, caller) && admits(
            to,
            callee,
        ),
        ActionModel::Create { from: caller, .. } => admits(from, caller) && to.len() == 0,
        ActionModel::Suicide { address, .. } => admits(from, address) && to.len() == 0,
    }
}

/// Whether the list of addresses lets the address through.
fn list_admits(list: &Vec<H160>, address: &H160) -> (r: bool)
    ensures
        r == admits(list@, *address),
{
    if list.len() == 0 {
        return true;
    }
    let mut i: usize = 0;
    while i < list.len()
        invariant
            i <= list@.len(),
            list@.len() > 0,
            forall|j: int| 0 <= j < i ==> list@[j] != *address,
        decreases list@.len() - i,
    {
        if list[i].key_eq(address) {
            assert(list@[i as int] == *address);
            return true;
        }
        i += 1;
    }
    false
}

/// Whether the trace is asked for.
fn trace_is_wanted(trace: &TransactionTrace, from: &Vec<H160>, to: &Vec<H160>) -> (r: bool)
    ensures
        r == is_wanted(trace@, from@, to@),
{
    match &trace.action {
        TransactionTraceAction::Call { from: caller, to: callee, .. } => list_admits(from, caller)
            && list_admits(to, callee),
        TransactionTraceAction::Create { from: caller, .. } => list_admits(from, caller) && to.len()
            == 0,
        TransactionTraceAction::Suicide { address, .. } => list_admits(from, address) && to.len()
            == 0,
    }
}

/// The traces of a block that are asked for, in order.
pub open spec fn wanted_of(s: Seq<TxTraceModel>, from: Seq<H160>, to: Seq<H160>) -> Seq<TxTraceModel>
    decreases s.len(),
{
    if s.len() == 0 {
        seq![]
    } else if is_wanted(s.last(), from, to) {
        wanted_of(s.drop_last(), from, to).push(s.last())
    } else {
        wanted_of(s.drop_last(), from, to)
    }
}

/// The traces from the position `after` on, if there are that many.
pub open spec fn from_on(s: Seq<TxTraceModel>, after: int) -> Seq<TxTraceModel> {
    if after <= s.len() {
        s.skip(after)
    } else {
        seq![]
    }
}

/// The first `count` traces, or all if there are fewer.
pub open spec fn at_most(s: Seq<TxTraceModel>, count: int) -> Seq<TxTraceModel> {
    if count <= s.len() {
        s.take(count)
    } else {
        s
    }
}

/// The page: the `count` traces that follow the first `after` ones.
pub open spec fn page_of(s: Seq<TxTraceModel>, after: int, count: int) -> Seq<TxTraceModel> {
    at_most(from_on(s, after), count)
}

/// There are enough traces for the page to be complete.
pub open spec fn page_is_full(s: Seq<TxTraceModel>, after: int, count: int) -> bool {
    s.len() > after && s.len() - after >= count
}

/// There are more traces than the page may hold.
pub open spec fn page_is_exceeded(s: Seq<TxTraceModel>, after: int, count: int) -> bool {
    s.len() - after > count
}

/// Collects the traces that are asked for, block by block, until the page is complete.
pub struct TraceCollector {
    from_address: Vec<H160>,
    to_address: Vec<H160>,
    /// How many wanted traces there were, less those to leave out.
    amount: i64,
    after: u32,
    traces: Vec<TransactionTrace>,
    count: u32,
    default_count: bool,
    max_count: u32,
    /// All wanted traces so far.
    wanted: Ghost<Seq<TxTraceModel>>,
}

impl TraceCollector {
    /// The collector holds the wanted traces from the position on where the page starts.
    #[verifier::type_invariant]
    spec fn well_formed(self) -> bool {
        &&& self.amount == self.wanted@.len() - self.after
        &&& tx_traces_view(self.traces@) == from_on(self.wanted@, self.after as int)
    }

    /// All wanted traces of the blocks so far.
    pub closed spec fn view(&self) -> Seq<TxTraceModel> {
        self.wanted@
    }

    /// Only calls from these, if there are any.
    pub closed spec fn from_list(&self) -> Seq<H160> {
        self.from_address@
    }

    /// Only calls to these, if there are any.
    pub closed spec fn to_list(&self) -> Seq<H160> {
        self.to_address@
    }

    /// How many traces to leave out at the start.
    pub closed spec fn skipped(&self) -> int {
        self.after as int
    }

    /// How many traces to hand out.
    pub closed spec fn limit(&self) -> int {
        self.count as int
    }

    /// The number of traces was not asked for.
    pub closed spec fn has_default_limit(&self) -> bool {
        self.default_count
    }

    /// The largest number of traces that may be asked for.
    pub closed spec fn largest_limit(&self) -> int {
        self.max_count as int
    }

    /// What is asked for is the same.
    pub open spec fn same_request(&self, other: Self) -> bool {
        &&& self.from_list() == other.from_list()
        &&& self.to_list() == other.to_list()
        &&& self.skipped() == other.skipped()
        &&& self.limit() == other.limit()
        &&& self.has_default_limit() == other.has_default_limit()
        &&& self.largest_limit() == other.largest_limit()
    }

    /// A collector for a request that hands out `count` traces.
    pub fn new(req: FilterRequest, count: u32, max_count: u32) -> (r: Self)
        ensures
            r@.len() == 0,
            r.from_list() == match req.from_address {
                Some(list) => list@,
                None => seq![],
            },
            r.to_list() == match req.to_address {
                Some(list) => list@,
                None => seq![],
            },
            r.skipped() == match req.after {
                Some(after) => after as int,
                None => 0,
            },
            r.limit() == count,
            r.has_default_limit() == req.count is None,
            r.largest_limit() == max_count,
    {
        let from_address = match req.from_address {
            Some(list) => list,
            None => Vec::new(),
        };
        let to_address = match req.to_address {
            Some(list) => list,
            None => Vec::new(),
        };
        let after: u32 = match req.after {
            Some(after) => after,
            None => 0,
        };
        let traces: Vec<TransactionTrace> = Vec::new();
        assert(tx_traces_view(traces@) =~= seq![]);
        assert(from_on(seq![], after as int) =~= seq![]);
        TraceCollector {
            from_address,
            to_address,
            amount: -(after as i64),
            after,
            traces,
            count,
            default_count: req.count.is_none(),
            max_count,
            wanted: Ghost(Seq::empty()),
        }
    }

    /// Whether `n` more traces can be counted.
    pub fn has_room(&self, n: usize) -> (r: bool)
        ensures
            r == (self@.len() + n <= i64::MAX),
    {
        proof {
            use_type_invariant(self);
        }
        self.amount as i128 + self.after as i128 + n as i128 <= i64::MAX as i128
    }

    /// Takes in the traces of the next block, and tells whether the page is complete. Where the
    /// number of traces was not asked for, the page is to hold them all: the search goes on to the
    /// last block, and it is an error if there are more than the largest number.
    pub fn take_in(&mut self, block_traces: &Vec<TransactionTrace>) -> (r: Result<bool, String>)
        requires
            old(self)@.len() + block_traces@.len() <= i64::MAX,
        ensures
            final(self)@ == old(self)@ + wanted_of(
                tx_traces_view(block_traces@),
                old(self).from_list(),
                old(self).to_list(),
            ),
            final(self).same_request(*old(self)),
            texted(r) == if !old(self).has_default_limit() {
                Ok(page_is_full(final(self)@, old(self).skipped(), old(self).limit()))
            } else if page_is_exceeded(final(self)@, old(self).skipped(), old(self).limit()) {
                Err(
                    "the amount of traces goes over the maximum ("@ + decimal(
                        old(self).largest_limit() as nat,
                    ) + "), please use 'after' and 'count' in your request"@,
                )
            } else {
                Ok(false)
            },
    {
        proof {
            use_type_invariant(&*self);
        }
        let ghost start = *self;
        let ghost all = tx_traces_view(block_traces@);
        let ghost from = self.from_address@;
        let ghost to = self.to_address@;
        let mut i: usize = 0;
        proof {
            assert(all.take(0) =~= seq![]);
            assert(start.wanted@ + wanted_of(all.take(0), from, to) =~= start.wanted@);
        }
        while i < block_traces.len()
            invariant
                i <= block_traces@.len(),
                start.wanted@.len() + block_traces@.len() <= i64::MAX,
                all == tx_traces_view(block_traces@),
                from == start.from_address@,
                to == start.to_address@,
                self.from_address == start.from_address,
                self.to_address == start.to_address,
                self.after == start.after,
                self.count == start.count,
                self.default_count == start.default_count,
                self.max_count == start.max_count,
                self.wanted@ == start.wanted@ + wanted_of(all.take(i as int), from, to),
                self.wanted@.len() <= start.wanted@.len() + i,
                self.well_formed(),
            decreases block_traces@.len() - i,
        {
            let trace = &block_traces[i];
            assert(all.take(i + 1).drop_last() =~= all.take(i as int));
            assert(all.take(i + 1).last() == trace@);
            if trace_is_wanted(trace, &self.from_address, &self.to_address) {
                self.add(trace.duplicate());
                assert(self.wanted@ =~= start.wanted@ + wanted_of(all.take(i + 1), from, to));
            }
            i += 1;
        }
        assert(all.take(i as int) =~= all);
        if !self.default_count {
            Ok(self.amount > 0 && self.amount >= self.count as i64)
        } else if self.amount > self.count as i64 {
            let limit = number_text(self.max_count as usize);
            Err(
                "the amount of traces goes over the maximum (".to_string().concat(
                    limit.as_str(),
                ).concat("), please use 'after' and 'count' in your request"),
            )
        } else {
            Ok(false)
        }
    }

    /// Adds a wanted trace.
    fn add(&mut self, trace: TransactionTrace)
        requires
            old(self).wanted@.len() < i64::MAX,
        ensures
            final(self).wanted@ == old(self).wanted@.push(trace@),
            final(self).from_address == old(self).from_address,
            final(self).to_address == old(self).to_address,
            final(self).after == old(self).after,
            final(self).count == old(self).count,
            final(self).default_count == old(self).default_count,
            final(self).max_count == old(self).max_count,
            final(self).well_formed(),
    {
        proof {
            use_type_invariant(&*self);
        }
        let ghost before = self.wanted@;
        let ghost longer = before.push(trace@);
        let after: u32 = self.after;
        let none: Vec<TransactionTrace> = Vec::new();
        assert(tx_traces_view(none@) =~= from_on(Seq::empty(), 0));
        let mut whole = TraceCollector {
            from_address: Vec::new(),
            to_address: Vec::new(),
            amount: 0,
            after: 0,
            traces: none,
            count: 0,
            default_count: false,
            max_count: 0,
            wanted: Ghost(Seq::empty()),
        };
        core::mem::swap(self, &mut whole);
        let mut traces = whole.traces;
        let ghost held = tx_traces_view(traces@);
        let amount: i64 = whole.amount + 1;
        if amount > 0 {
            traces.push(trace);
            assert(tx_traces_view(traces@) =~= held.push(trace@));
            assert(held.push(trace@) =~= longer.skip(after as int));
        } else {
            assert(from_on(longer, after as int) =~= held);
        }
        *self =
        TraceCollector {
            from_address: whole.from_address,
            to_address: whole.to_address,
            amount,
            after,
            traces,
            count: whole.count,
            default_count: whole.default_count,
            max_count: whole.max_count,
            wanted: Ghost(longer),
        };
    }

    /// The page.
    pub fn into_page(self) -> (r: Vec<TransactionTrace>)
        ensures
            tx_traces_view(r@) == page_of(self@, self.skipped(), self.limit()),
    {
        proof {
            use_type_invariant(&self);
        }
        let count: usize = self.count as usize;
        let mut traces = self.traces;
        let ghost held = tx_traces_view(traces@);
        if count < traces.len() {
            traces.truncate(count);
            assert(tx_traces_view(traces@) =~= held.take(count as int));
        } else if count == traces.len() {
            assert(held.take(count as int) =~= held);
        }
        traces
    }
}

/// The page of all blocks is the page of those that made it complete: what comes later changes
/// nothing.
pub proof fn complete_page_is_final(
    s: Seq<TxTraceModel>,
    more: Seq<TxTraceModel>,
    after: int,
    count: int,
)
    requires
        0 <= after,
        0 <= count,
        page_is_full(s, after, count),
    ensures
        page_of(s + more, after, count) == page_of(s, after, count),
        page_is_full(s + more, after, count),
        page_of(s, after, count).len() == count,
{
    assert(page_of(s + more, after, count) =~= page_of(s, after, count));
}

/// A page that is not exceeded holds all traces from its start on.
pub proof fn page_that_suffices_is_whole(s: Seq<TxTraceModel>, after: int, count: int)
    requires
        0 <= after,
        0 <= count,
        !page_is_exceeded(s, after, count),
    ensures
        page_of(s, after, count) == from_on(s, after),
{
    assert(page_of(s, after, count) =~= from_on(s, after));
}

/// Pages that follow each other hold the traces in order, none twice and none left out.
pub proof fn pages_follow_each_other(s: Seq<TxTraceModel>, after: int, first: int, second: int)
    requires
        0 <= after,
        0 <= first,
        0 <= second,
    ensures
        page_of(s, after, first) + page_of(s, after + first, second) == page_of(
            s,
            after,
            first + second,
        ),
{
    assert(page_of(s, after, first) + page_of(s, after + first, second) =~= page_of(
        s,
        after,
        first + second,
    ));
}

/// Every trace that is handed out is one that was asked for.
pub proof fn only_wanted_traces(s: Seq<TxTraceModel>, from: Seq<H160>, to: Seq<H160>)
    ensures
        forall|i: int|
            0 <= i < wanted_of(s, from, to).len() ==> is_wanted(
                #[trigger] wanted_of(s, from, to)[i],
                from,
                to,
            ),
        wanted_of(s, from, to).len() <= s.len(),
    decreases s.len(),
{
    if s.len() > 0 {
        only_wanted_traces(s.drop_last(), from, to);
        let prior = wanted_of(s.drop_last(), from, to);
        let all = wanted_of(s, from, to);
        assert forall|i: int| 0 <= i < all.len() implies is_wanted(#[trigger] all[i], from, to) by {
            if i < prior.len() {
                assert(all[i] == prior[i]);
            }
        }
    }
}

} // verus!

//! Which traces are asked for, which blocks they come from, and what a page of them holds.
use crate::block_trace::{ActionModel, TxTraceModel};
use crate::filter::{
    first_height, from_on, height_of, heights_of, is_wanted, page_is_exceeded, page_is_full,
    page_of, plan_of, texted, wanted_of, FilterRequest, RequestBlockId, RequestBlockTag,
    TraceCollector,
};
use crate::primitives::{H160, H256};
use crate::text::decimal;
use vstd::prelude::*;

verus! {

/// The address passes a list that is empty or holds it.
pub open spec fn passes(list: Seq<H160>, a: H160) -> bool {
    list.len() > 0 ==> exists|i: int| 0 <= i < list.len() && #[trigger] list[i] == a
}

/// Whether a trace is asked for depends on the addresses of its action alone: that of the caller, of
/// the creator or of the contract destroyed has to pass the one list; that of the callee has to pass
/// the other, which lets nothing but calls through unless it is empty.
pub proof fn addresses_decide(t: TxTraceModel, from: Seq<H160>, to: Seq<H160>)
    ensures
        match t.action {
            ActionModel::Call { from: caller, to: callee, .. } => is_wanted(t, from, to) == (passes(
                from,
                caller,
            ) && passes(to, callee)),
            ActionModel::Create { from: creator, .. } => is_wanted(t, from, to) == (passes(
                from,
                creator,
            ) && to.len() == 0),
            ActionModel::Suicide { address, .. } => is_wanted(t, from, to) == (passes(
                from,
                address,
            ) && to.len() == 0),
        },
{
}

/// Two traces of the same action are both asked for or both not, however they ended and whatever
/// transaction they belong to.
pub proof fn outcome_does_not_matter(
    t: TxTraceModel,
    u: TxTraceModel,
    from: Seq<H160>,
    to: Seq<H160>,
)
    requires
        t.action == u.action,
    ensures
        is_wanted(t, from, to) == is_wanted(u, from, to),
{
}

/// Without addresses every trace is asked for.
pub proof fn without_addresses_all_are_wanted(s: Seq<TxTraceModel>)
    ensures
        wanted_of(s, seq![], seq![]) == s,
    decreases s.len(),
{
    if s.len() > 0 {
        without_addresses_all_are_wanted(s.drop_last());
        assert(wanted_of(s, seq![], seq![]) =~= s);
    } else {
        assert(wanted_of(s, seq![], seq![]) =~= s);
    }
}

/// The traces asked for are picked one by one and keep their order: what is asked for of two lists
/// in turn is what is asked for of each.
pub proof fn traces_are_picked_one_by_one(
    a: Seq<TxTraceModel>,
    b: Seq<TxTraceModel>,
    t: TxTraceModel,
    from: Seq<H160>,
    to: Seq<H160>,
)
    ensures
        wanted_of(a + b, from, to) == wanted_of(a, from, to) + wanted_of(b, from, to),
        wanted_of(seq![], from, to).len() == 0,
        is_wanted(t, from, to) ==> wanted_of(seq![t], from, to) == seq![t],
        !is_wanted(t, from, to) ==> wanted_of(seq![t], from, to).len() == 0,
    decreases b.len(),
{
    let none = Seq::<TxTraceModel>::empty();
    let one = seq![t];
    assert(one.drop_last() =~= none);
    assert(wanted_of(none, from, to) =~= none);
    if is_wanted(t, from, to) {
        assert(wanted_of(one, from, to) =~= one);
    }
    if b.len() == 0 {
        assert(a + b =~= a);
        assert(wanted_of(a, from, to) + wanted_of(b, from, to) =~= wanted_of(a, from, to));
    } else {
        traces_are_picked_one_by_one(a, b.drop_last(), t, from, to);
        assert((a + b).drop_last() =~= a + b.drop_last());
        assert(wanted_of(a + b, from, to) =~= wanted_of(a, from, to) + wanted_of(b, from, to));
    }
}

/// Every trace whose addresses pass is among those asked for.
pub proof fn wanted_traces_are_found(
    s: Seq<TxTraceModel>,
    from: Seq<H160>,
    to: Seq<H160>,
    i: int,
)
    requires
        0 <= i < s.len(),
        is_wanted(s[i], from, to),
    ensures
        wanted_of(s, from, to).contains(s[i]),
    decreases s.len(),
{
    let all = wanted_of(s, from, to);
    if i == s.len() - 1 {
        assert(all[all.len() - 1] == s[i]);
    } else {
        let rest = s.drop_last();
        assert(rest[i] == s[i]);
        wanted_traces_are_found(rest, from, to, i);
        let prior = wanted_of(rest, from, to);
        let j = choose|j: int| 0 <= j < prior.len() && prior[j] == s[i];
        assert(all[j] == s[i]);
    }
}

/// A page holds the traces that follow the first `after` ones, in their order: as many as it may,
/// or all there are.
pub proof fn page_holds_what_follows(s: Seq<TxTraceModel>, after: int, count: int)
    requires
        0 <= after,
        0 <= count,
    ensures
        ({
            let p = page_of(s, after, count);
            let left = if after <= s.len() {
                s.len() - after
            } else {
                0
            };
            &&& p.len() == if count <= left {
                count
            } else {
                left
            }
            &&& forall|i: int| 0 <= i < p.len() ==> #[trigger] p[i] == s[after + i]
            &&& from_on(s, after).len() == left
            &&& forall|i: int| 0 <= i < left ==> #[trigger] from_on(s, after)[i] == s[after + i]
            &&& page_is_full(s, after, count) == (left > 0 && left >= count)
            &&& page_is_exceeded(s, after, count) == (left > count)
        }),
{
}

/// Two collectors are asked for the same exactly if they agree in all that was asked for.
pub proof fn same_request_agrees_in_everything(a: TraceCollector, b: TraceCollector)
    ensures
        a.same_request(b) == {
            &&& a.from_list() == b.from_list()
            &&& a.to_list() == b.to_list()
            &&& a.skipped() == b.skipped()
            &&& a.limit() == b.limit()
            &&& a.has_default_limit() == b.has_default_limit()
            &&& a.largest_limit() == b.largest_limit()
        },
{
}

/// A block is named by its number, or as the best one, which an absent name stands for, the first or
/// the finalized one; the next block and a hash are refused.
pub proof fn blocks_are_found_by_name(best: u32, finalized: u32, n: u32, hash: H256)
    ensures
        height_of(None, best, finalized) == Ok::<u32, Seq<char>>(best),
        height_of(Some(RequestBlockId::Number(n)), best, finalized) == Ok::<u32, Seq<char>>(n),
        height_of(Some(RequestBlockId::Tag(RequestBlockTag::Latest)), best, finalized) == Ok::<
            u32,
            Seq<char>,
        >(best),
        height_of(Some(RequestBlockId::Tag(RequestBlockTag::Earliest)), best, finalized) == Ok::<
            u32,
            Seq<char>,
        >(0),
        height_of(Some(RequestBlockId::Tag(RequestBlockTag::Finalized)), best, finalized) == Ok::<
            u32,
            Seq<char>,
        >(finalized),
        height_of(Some(RequestBlockId::Tag(RequestBlockTag::Pending)), best, finalized) == Err::<
            u32,
            Seq<char>,
        >("'pending' is not supported"@),
        height_of(Some(RequestBlockId::Hash(hash)), best, finalized) == Err::<u32, Seq<char>>(
            "Block hash not supported"@,
        ),
{
}

/// A request is planned exactly if both its blocks can be named, they are not too far apart, and it
/// asks for no more traces than allowed. The plan names these blocks and that number; where none is
/// asked for it is the largest one.
pub proof fn request_is_planned(
    req: FilterRequest,
    best: u32,
    finalized: u32,
    max_block_range: u32,
    max_count: u32,
)
    ensures
        ({
            let p = plan_of(req, best, finalized, max_block_range, max_count);
            let first = height_of(req.from_block, best, finalized);
            let last = height_of(req.to_block, best, finalized);
            &&& first is Err ==> p is Err && p->Err_0 == first->Err_0
            &&& first is Ok && last is Err ==> p is Err && p->Err_0 == last->Err_0
            &&& first is Ok && last is Ok && last->Ok_0 > first->Ok_0 + max_block_range ==> p is Err
                && p->Err_0 == "block range is too wide (maximum "@ + decimal(
                max_block_range as nat,
            ) + ")"@
            &&& first is Ok && last is Ok && last->Ok_0 <= first->Ok_0 + max_block_range ==> {
                &&& req.count is Some && req.count->0 > max_count ==> p is Err && p->Err_0
                    == "count ("@ + decimal(req.count->0 as nat)
                    + ") can't be greater than maximum ("@ + decimal(max_count as nat) + ")"@
                &&& req.count is Some && req.count->0 <= max_count ==> p is Ok && p->Ok_0 == (
                    first->Ok_0,
                    last->Ok_0,
                    req.count->0,
                )
                &&& req.count is None ==> p is Ok && p->Ok_0 == (
                    first->Ok_0,
                    last->Ok_0,
                    max_count,
                )
            }
        }),
{
}

/// The heights to trace are all those from the first to the last one, each once and in order, but
/// for that of the first block of the chain.
pub proof fn heights_are_all_between(from: u32, to: u32, h: u32)
    ensures
        heights_of(from, to).contains(h) == (from <= h <= to && h != 0),
        forall|i: int, j: int|
            0 <= i < j < heights_of(from, to).len() ==> #[trigger] heights_of(from, to)[i]
                < #[trigger] heights_of(from, to)[j],
{
    let s = heights_of(from, to);
    let first = first_height(from);
    if from <= h <= to && h != 0 {
        assert(s[h - first] == h);
    }
    if s.contains(h) {
        let i = choose|i: int| 0 <= i < s.len() && s[i] == h;
        assert(s[i] == (first + i) as u32);
    }
}

/// A result and its form with characters say the same.
pub proof fn results_keep_their_text<T>(r: Result<T, String>)
    ensures
        texted(r) is Ok == r is Ok,
        r is Ok ==> texted(r)->Ok_0 == r->Ok_0,
        r is Err ==> texted(r)->Err_0 == r->Err_0@,
{
}

} // verus!

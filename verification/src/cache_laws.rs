//! Who waits for which block, what they are told, and what is noted in traces.
use crate::block_trace::{TransactionTrace, TxTraceModel};
use crate::cache::{
    all_labelled, all_waiters, hashes_by_index, is_told_to_all, kept, labelled, overdue_blocks,
    shared, with_waiter, EntryModel, SharedTraces,
};
use crate::primitives::H256;
use vstd::prelude::*;
use vstd::utf8::encode_utf8;

verus! {

/// A request is added behind those that wait for its block already, whose time stays; the first one
/// brings the time. Nobody else's place changes.
pub proof fn request_is_added_at_the_end(
    m: Map<H256, EntryModel>,
    block: H256,
    waiter: u64,
    now: u64,
    other: H256,
)
    ensures
        ({
            let t = with_waiter(m, block, waiter, now);
            let list = t[block].waiters;
            &&& t.contains_key(block)
            &&& list.len() > 0
            &&& list.last() == waiter
            &&& m.contains_key(block) ==> list.drop_last() == m[block].waiters && t[block].created_at
                == m[block].created_at
            &&& !m.contains_key(block) ==> list.len() == 1 && t[block].created_at == now
            &&& other != block ==> {
                &&& t.contains_key(other) == m.contains_key(other)
                &&& t.contains_key(other) ==> t[other] == m[other]
            }
        }),
{
    if m.contains_key(block) {
        assert(with_waiter(m, block, waiter, now)[block].waiters.drop_last()
            =~= m[block].waiters);
    }
}

/// A block is given up exactly if its first request came more than seventy seconds ago.
pub proof fn old_blocks_are_given_up(m: Map<H256, EntryModel>, now: u64, block: H256)
    ensures
        overdue_blocks(m, now).contains(block) == (m.contains_key(block) && now
            > m[block].created_at + 70_000_000_000),
{
}

/// Those who wait for several blocks are listed block by block, each with all who wait for it, in
/// order.
pub proof fn waiters_are_listed_block_by_block(
    m: Map<H256, EntryModel>,
    a: Seq<H256>,
    b: Seq<H256>,
    block: H256,
)
    ensures
        all_waiters(m, a + b) == all_waiters(m, a) + all_waiters(m, b),
        all_waiters(m, seq![block]) == m[block].waiters,
        all_waiters(m, seq![]).len() == 0,
    decreases b.len(),
{
    let none = Seq::<H256>::empty();
    assert(seq![block].drop_last() =~= none);
    assert(all_waiters(m, none) =~= seq![]);
    assert(all_waiters(m, seq![block]) =~= m[block].waiters);
    if b.len() == 0 {
        assert(a + b =~= a);
        assert(all_waiters(m, a) + all_waiters(m, b) =~= all_waiters(m, a));
    } else {
        waiters_are_listed_block_by_block(m, a, b.drop_last(), block);
        assert((a + b).drop_last() =~= a + b.drop_last());
        assert(all_waiters(m, a + b) =~= all_waiters(m, a) + all_waiters(m, b));
    }
}

/// What is told to all is told to each who waits, once and in order: the traces there are, or the
/// error. Only traces are kept, and those that are kept are those that are told.
pub proof fn all_are_told_the_result(
    answers: Seq<(u64, SharedTraces)>,
    waiters: Seq<u64>,
    result: Result<Vec<TransactionTrace>, String>,
)
    requires
        is_told_to_all(answers, waiters, shared(result)),
    ensures
        answers.len() == waiters.len(),
        forall|i: int|
            0 <= i < waiters.len() ==> {
                let answer = #[trigger] answers[i];
                &&& answer.0 == waiters[i]
                &&& answer.1 is Ok == result is Ok
                &&& result is Ok ==> *(answer.1->Ok_0) == result->Ok_0
                &&& result is Err ==> *(answer.1->Err_0) == result->Err_0
            },
        result is Ok ==> kept(result) is Some && *(kept(result)->0) == result->Ok_0,
        result is Err ==> kept(result) is None,
{
}

/// Of two hashes for one position the later one counts; other positions are not affected.
pub proof fn later_hash_counts(s: Seq<(u32, H256)>, position: u32, hash: H256, other: u32)
    ensures
        ({
            let t = hashes_by_index(s.push((position, hash)));
            &&& t.contains_key(position)
            &&& t[position] == hash
            &&& other != position ==> {
                &&& t.contains_key(other) == hashes_by_index(s).contains_key(other)
                &&& t.contains_key(other) ==> t[other] == hashes_by_index(s)[other]
            }
        }),
        !hashes_by_index(seq![]).contains_key(other),
{
    assert(s.push((position, hash)).drop_last() =~= s);
}

/// A trace is labelled with the hash and height of its block and the hash of its transaction. What it
/// did stays; of its outcome only the message of a reverted call is put into its short form.
pub proof fn labels_leave_the_trace(t: TxTraceModel, block_hash: H256, height: u32, hash: H256)
    ensures
        ({
            let u = labelled(t, block_hash, height, hash);
            &&& u.block_hash == block_hash
            &&& u.block_number == height
            &&& u.transaction_hash == hash
            &&& u.action == t.action
            &&& u.subtraces == t.subtraces
            &&& u.trace_address == t.trace_address
            &&& u.transaction_position == t.transaction_position
            &&& u.output is Error == t.output is Error
            &&& t.output !is Error ==> u.output == t.output
            &&& t.output is Error && t.output->message == encode_utf8("execution reverted"@)
                ==> u.output->message == encode_utf8("Reverted"@)
            &&& t.output is Error && t.output->message != encode_utf8("execution reverted"@)
                ==> u.output == t.output
        }),
{
}

/// Traces are labelled one by one and keep their order; those of unknown transactions are left out.
pub proof fn traces_are_labelled_one_by_one(
    a: Seq<TxTraceModel>,
    b: Seq<TxTraceModel>,
    t: TxTraceModel,
    hashes: Map<u32, H256>,
    block_hash: H256,
    height: u32,
)
    ensures
        all_labelled(a + b, hashes, block_hash, height) == all_labelled(
            a,
            hashes,
            block_hash,
            height,
        ) + all_labelled(b, hashes, block_hash, height),
        all_labelled(seq![], hashes, block_hash, height).len() == 0,
        hashes.contains_key(t.transaction_position) ==> all_labelled(
            seq![t],
            hashes,
            block_hash,
            height,
        ) == seq![labelled(t, block_hash, height, hashes[t.transaction_position])],
        !hashes.contains_key(t.transaction_position) ==> all_labelled(
            seq![t],
            hashes,
            block_hash,
            height,
        ).len() == 0,
    decreases b.len(),
{
    let none = Seq::<TxTraceModel>::empty();
    assert(seq![t].drop_last() =~= none);
    assert(all_labelled(none, hashes, block_hash, height) =~= none);
    if hashes.contains_key(t.transaction_position) {
        assert(all_labelled(seq![t], hashes, block_hash, height) =~= seq![
            labelled(t, block_hash, height, hashes[t.transaction_position]),
        ]);
    }
    if b.len() == 0 {
        assert(a + b =~= a);
        assert(all_labelled(a, hashes, block_hash, height) + all_labelled(
            b,
            hashes,
            block_hash,
            height,
        ) =~= all_labelled(a, hashes, block_hash, height));
    } else {
        traces_are_labelled_one_by_one(a, b.drop_last(), t, hashes, block_hash, height);
        assert((a + b).drop_last() =~= a + b.drop_last());
        assert(all_labelled(a + b, hashes, block_hash, height) =~= all_labelled(
            a,
            hashes,
            block_hash,
            height,
        ) + all_labelled(b, hashes, block_hash, height));
    }
}

} // verus!

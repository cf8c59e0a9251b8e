//! What is handed out of a block, against the header, transactions and receipts it comes from.
use crate::block_file::{
    sum_bytes, sum_ids, validation_hash_of, BlockFile, DebankBlock, DebankBlockHeader,
    DebankTransaction,
};
use crate::block_output::{all_sound, receipt_at, EthHeader, EthReceipt, EthTransaction};
use crate::primitives::be_value;
use crate::text::hash_text;
use vstd::prelude::*;
use vstd::utf8::encode_utf8;

verus! {

/// The block of a header carries its hashes, its miner and its gas, the height it is asked for at,
/// and its time in whole seconds.
pub proof fn block_is_that_of_its_header(h: EthHeader, r: DebankBlock, height: u32, start: u64)
    requires
        h.is_block(r, height, start),
    ensures
        r.id == h.hash,
        r.parent_id == h.parent_hash,
        r.height == height,
        r.miner == h.beneficiary,
        r.gas_limit == h.gas_limit.value(),
        r.gas_used == h.gas_used.value(),
        r.timestamp * 1000 <= h.timestamp < r.timestamp * 1000 + 1000,
        r.process_start_timestamp == start,
        r.base_fee_per_gas is None,
{
}

/// The header that is handed out carries what the header of the node does, with its time in whole
/// seconds and its nonce as a number.
pub proof fn header_is_that_of_the_node(h: EthHeader, r: DebankBlockHeader, height: u32)
    requires
        h.is_header(r, height),
    ensures
        r.parent_hash == h.parent_hash,
        r.sha3_uncles == h.ommers_hash,
        r.miner == h.beneficiary,
        r.state_root == h.state_root,
        r.transactions_root == h.transactions_root,
        r.receipts_root == h.receipts_root,
        r.logs_bloom@ == h.logs_bloom@,
        r.difficulty == h.difficulty,
        r.number == height,
        r.gas_limit == h.gas_limit.value(),
        r.gas_used == h.gas_used.value(),
        r.timestamp * 1000 <= h.timestamp < r.timestamp * 1000 + 1000,
        r.extra_data@ == h.extra_data@,
        r.mix_hash == h.mix_hash,
        r.nonce == be_value(h.nonce@),
        r.base_fee_per_gas is None,
        r.hash == h.hash,
{
}

/// A block and the header handed out with it agree.
pub proof fn block_and_header_agree(
    h: EthHeader,
    b: DebankBlock,
    r: DebankBlockHeader,
    height: u32,
    start: u64,
)
    requires
        h.is_block(b, height, start),
        h.is_header(r, height),
    ensures
        b.id == r.hash,
        b.parent_id == r.parent_hash,
        b.height == r.number,
        b.miner == r.miner,
        b.gas_limit == r.gas_limit,
        b.gas_used == r.gas_used,
        b.timestamp == r.timestamp,
{
}

/// A header can be handed out exactly if its amounts of gas are below 2^64, and a list of
/// transactions if none of their numbers is too large for its place.
pub proof fn large_numbers_are_refused(
    h: EthHeader,
    t: EthTransaction,
    txs: Seq<EthTransaction>,
    receipts: Seq<EthReceipt>,
)
    ensures
        h.is_sound() == (h.gas_limit.value() < 0x1_0000_0000_0000_0000 && h.gas_used.value()
            < 0x1_0000_0000_0000_0000),
        t.is_sound() == {
            &&& t.gas.value() < 0x1_0000_0000_0000_0000
            &&& t.nonce.value() < 0x1_0000_0000_0000_0000
            &&& t.transaction_index is Some ==> t.transaction_index->0.value()
                < 0x1_0000_0000_0000_0000
            &&& t.gas_price is Some ==> t.gas_price->0.value()
                < 0x1_0000_0000_0000_0000_0000_0000_0000_0000
            &&& t.max_fee_per_gas is Some ==> t.max_fee_per_gas->0.value()
                < 0x1_0000_0000_0000_0000_0000_0000_0000_0000
            &&& t.max_priority_fee_per_gas is Some ==> t.max_priority_fee_per_gas->0.value()
                < 0x1_0000_0000_0000_0000_0000_0000_0000_0000
        },
        all_sound(txs, receipts) == forall|i: int|
            0 <= i < txs.len() ==> (#[trigger] txs[i]).is_sound() && (i < receipts.len()
                && receipts[i].gas_used is Some ==> receipts[i].gas_used->0.value()
                < 0x1_0000_0000_0000_0000),
{
}

/// A transaction that is handed out carries what the node has of it. Gas used and status are those
/// of its receipt. A price that is not known is zero, a fee cap that is not known is the price, and
/// without an index of its own the transaction has that of its place.
pub proof fn transaction_is_that_of_the_node(
    t: EthTransaction,
    r: DebankTransaction,
    receipt: Option<EthReceipt>,
    idx: nat,
)
    requires
        t.is_transaction(r, receipt, idx),
    ensures
        r.id == t.hash,
        r.from == t.from,
        t.to is Some ==> r.to == t.to->0,
        t.to is None ==> r.to.0@ == Seq::new(20, |i: int| 0u8),
        r.gas_limit == t.gas.value(),
        r.input@ == t.input@,
        r.nonce == t.nonce.value(),
        r.value == t.value,
        t.gas_price is Some ==> r.gas_price == t.gas_price->0.value(),
        t.gas_price is None ==> r.gas_price == 0,
        t.max_fee_per_gas is Some ==> r.gas_fee_cap == t.max_fee_per_gas->0.value(),
        t.max_fee_per_gas is None ==> r.gas_fee_cap == r.gas_price,
        t.max_priority_fee_per_gas is Some ==> r.gas_tip_cap
            == t.max_priority_fee_per_gas->0.value(),
        t.max_priority_fee_per_gas is None ==> r.gas_tip_cap == 0,
        t.transaction_index is Some ==> r.transaction_index == t.transaction_index->0.value(),
        t.transaction_index is None ==> r.transaction_index == idx,
        receipt is Some && receipt->0.gas_used is Some ==> r.gas_used
            == receipt->0.gas_used->0.value(),
        receipt is None || receipt->0.gas_used is None ==> r.gas_used == 0,
        r.status == (receipt is Some && receipt->0.status_code is Some && receipt->0.status_code->0
            == 1),
{
    assert(crate::primitives::H160::zero().0@ =~= Seq::new(20, |i: int| 0u8));
}

/// A transaction has the receipt at its own place, if there is one.
pub proof fn receipts_stand_beside_their_transactions(receipts: Seq<EthReceipt>, i: int)
    ensures
        0 <= i < receipts.len() ==> receipt_at(receipts, i) == Some(receipts[i]),
        i >= receipts.len() ==> receipt_at(receipts, i) is None,
{
}

/// The identifiers that count are that of the block, then those of the transactions, the events and
/// the traces, each once and in order; what failed does not count.
pub proof fn identifiers_are_all_that_lasted(f: BlockFile)
    ensures
        ({
            let n = f.transactions@.len() as int;
            let m = f.events@.len() as int;
            let k = f.traces@.len() as int;
            &&& f.ids().len() == 1 + n + m + k
            &&& f.ids()[0] == hash_text(f.block.id)
            &&& forall|i: int|
                0 <= i < n ==> #[trigger] f.ids()[1 + i] == hash_text(f.transactions@[i].id)
            &&& forall|i: int| 0 <= i < m ==> #[trigger] f.ids()[1 + n + i] == f.events@[i].id@
            &&& forall|i: int| 0 <= i < k ==> #[trigger] f.ids()[1 + n + m + i] == f.traces@[i].id@
        }),
{
}

/// The sum of bytes grows by each byte, and that of identifiers by the bytes of each.
pub proof fn sums_grow_by_their_parts(data: Seq<u8>, b: u8, ids: Seq<Seq<char>>, id: Seq<char>)
    ensures
        sum_bytes(seq![]) == 0,
        sum_bytes(data.push(b)) == sum_bytes(data) + b,
        sum_ids(seq![]) == 0,
        sum_ids(ids.push(id)) == sum_ids(ids) + sum_bytes(encode_utf8(id)),
{
    assert(data.push(b).drop_last() =~= data);
    assert(ids.push(id).drop_last() =~= ids);
}

/// The validation hash is the last six digits of the sum, as long as that fits into 64 bits.
pub proof fn validation_hash_is_the_last_digits(ids: Seq<Seq<char>>)
    requires
        sum_ids(ids) < 0x1_0000_0000_0000_0000,
    ensures
        validation_hash_of(ids) == sum_ids(ids) % 1_000_000,
{
}

} // verus!

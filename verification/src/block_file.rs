//! The file of a block: its header, transactions, traces and events, and its validation hash.
pub use crate::formatter::{DebankEvent, DebankTrace};
use crate::primitives::{H160, H256, U256};
pub use crate::text::calculate_debank_id;
use crate::text::{hash_text, hash_to_text};
use vstd::prelude::*;
use vstd::utf8::encode_utf8;

verus! {

/// A block.
#[derive(Clone, Copy, Debug)]
pub struct DebankBlock {
    pub id: H256,
    pub height: u64,
    pub parent_id: H256,
    pub base_fee_per_gas: Option<u64>,
    pub miner: H160,
    pub gas_limit: u64,
    pub gas_used: u64,
    pub timestamp: u64,
    pub process_start_timestamp: u64,
}

/// A transaction.
#[derive(Debug)]
pub struct DebankTransaction {
    pub id: H256,
    pub from: H160,
    pub to: H160,
    pub gas_limit: u64,
    pub gas_price: u128,
    pub gas_used: u64,
    pub status: bool,
    pub gas_fee_cap: u128,
    pub gas_tip_cap: u128,
    pub input: Vec<u8>,
    pub nonce: u64,
    pub transaction_index: u64,
    pub value: U256,
}

/// What a block file is checked by.
#[derive(Clone, Copy, Debug, PartialEq, Eq, Structural)]
pub struct BlockValidation {
    pub validation_hash: i64,
    pub is_fork: bool,
}

/// All that is known of a block.
#[derive(Debug)]
pub struct BlockFile {
    pub block: DebankBlock,
    pub transactions: Vec<DebankTransaction>,
    pub events: Vec<DebankEvent>,
    pub traces: Vec<DebankTrace>,
    pub error_events: Vec<DebankEvent>,
    pub error_traces: Vec<DebankTrace>,
    pub storage_contracts: Vec<H160>,
}

/// The header of a block.
#[derive(Debug)]
pub struct DebankBlockHeader {
    pub parent_hash: H256,
    pub sha3_uncles: H256,
    pub miner: H160,
    pub state_root: H256,
    pub transactions_root: H256,
    pub receipts_root: H256,
    pub logs_bloom: Vec<u8>,
    pub difficulty: U256,
    pub number: u64,
    pub gas_limit: u64,
    pub gas_used: u64,
    pub timestamp: u64,
    pub extra_data: Vec<u8>,
    pub mix_hash: H256,
    pub nonce: u64,
    pub base_fee_per_gas: Option<u64>,
    pub hash: H256,
}

/// What is handed out of a block.
#[derive(Debug)]
pub struct DebankOutput {
    pub block_file: BlockFile,
    pub header: DebankBlockHeader,
    pub state_diff: Vec<u8>,
    pub validation_hash: i64,
}

/// The sum of the bytes.
pub open spec fn sum_bytes(data: Seq<u8>) -> nat
    decreases data.len(),
{
    if data.len() == 0 {
        0
    } else {
        sum_bytes(data.drop_last()) + data.last() as nat
    }
}

/// The sum of the UTF-8 bytes of all the identifiers.
pub open spec fn sum_ids(ids: Seq<Seq<char>>) -> nat
    decreases ids.len(),
{
    if ids.len() == 0 {
        0
    } else {
        sum_ids(ids.drop_last()) + sum_bytes(encode_utf8(ids.last()))
    }
}

/// The validation hash: the last six digits of the sum of the bytes, which is kept to 64 bits.
pub open spec fn validation_hash_of(ids: Seq<Seq<char>>) -> int {
    (sum_ids(ids) % 0x1_0000_0000_0000_0000) as int % 1_000_000
}

/// The characters of each identifier.
pub open spec fn ids_view(ids: Seq<String>) -> Seq<Seq<char>> {
    ids.map_values(|s: String| s@)
}

/// Adding to a sum that is kept to 64 bits.
proof fn kept_sum(sum: nat, n: nat)
    ensures
        (sum % 0x1_0000_0000_0000_0000 + n) % 0x1_0000_0000_0000_0000 == (sum + n)
            % 0x1_0000_0000_0000_0000,
{
}

/// The validation hash of the identifiers.
pub fn calc_validation_hash(ids: &[String]) -> (r: i64)
    ensures
        r == validation_hash_of(ids_view(ids@)),
        0 <= r < 1_000_000,
{
    let ghost all = ids_view(ids@);
    let mut sum: u64 = 0;
    let mut i: usize = 0;
    assert(all.take(0) =~= seq![]);
    while i < ids.len()
        invariant
            i <= ids@.len(),
            all == ids_view(ids@),
            sum == sum_ids(all.take(i as int)) % 0x1_0000_0000_0000_0000,
        decreases ids@.len() - i,
    {
        let bytes = ids[i].as_str().as_bytes();
        let ghost data = bytes@;
        let ghost start = sum_ids(all.take(i as int));
        let mut j: usize = 0;
        assert(data.take(0) =~= seq![]);
        while j < bytes.len()
            invariant
                j <= bytes@.len(),
                data == bytes@,
                sum == (start + sum_bytes(data.take(j as int))) % 0x1_0000_0000_0000_0000,
            decreases bytes@.len() - j,
        {
            assert(data.take(j + 1).drop_last() =~= data.take(j as int));
            proof {
                kept_sum(start + sum_bytes(data.take(j as int)), bytes@[j as int] as nat);
            }
            sum = sum.wrapping_add(bytes[j] as u64);
            j += 1;
        }
        assert(data.take(j as int) =~= data);
        assert(all.take(i + 1).drop_last() =~= all.take(i as int));
        assert(all.take(i + 1).last() == ids@[i as int]@);
        i += 1;
    }
    assert(all.take(i as int) =~= all);
    (sum % 1_000_000) as i64
}

/// The identifiers of the events.
pub open spec fn event_ids(events: Seq<DebankEvent>) -> Seq<Seq<char>> {
    events.map_values(|e: DebankEvent| e.id@)
}

/// The identifiers of the traces.
pub open spec fn trace_ids(traces: Seq<DebankTrace>) -> Seq<Seq<char>> {
    traces.map_values(|t: DebankTrace| t.id@)
}

/// The identifiers of the transactions.
pub open spec fn transaction_ids(txs: Seq<DebankTransaction>) -> Seq<Seq<char>> {
    txs.map_values(|t: DebankTransaction| hash_text(t.id))
}

impl BlockFile {
    /// The identifiers that the validation hash is made of: those of the block, its transactions,
    /// and the events and traces that lasted.
    pub open spec fn ids(&self) -> Seq<Seq<char>> {
        seq![hash_text(self.block.id)] + transaction_ids(self.transactions@) + event_ids(
            self.events@,
        ) + trace_ids(self.traces@)
    }

    /// What the block file is checked by.
    pub fn validation(&self) -> (r: BlockValidation)
        ensures
            r.validation_hash == validation_hash_of(self.ids()),
            !r.is_fork,
    {
        let mut ids: Vec<String> = Vec::new();
        ids.push(hash_to_text(&self.block.id));
        let ghost a = seq![hash_text(self.block.id)];
        let ghost txs = transaction_ids(self.transactions@);
        let ghost events = event_ids(self.events@);
        let ghost traces = trace_ids(self.traces@);
        assert(ids_view(ids@) =~= a + txs.take(0));
        let mut i: usize = 0;
        while i < self.transactions.len()
            invariant
                i <= self.transactions@.len(),
                txs == transaction_ids(self.transactions@),
                ids_view(ids@) == a + txs.take(i as int),
            decreases self.transactions@.len() - i,
        {
            let ghost before = ids_view(ids@);
            let id = hash_to_text(&self.transactions[i].id);
            ids.push(id);
            assert(ids_view(ids@) =~= before.push(id@));
            assert(ids_view(ids@) =~= a + txs.take(i + 1));
            i += 1;
        }
        let ghost b = a + txs;
        assert(txs.take(i as int) =~= txs);
        assert(ids_view(ids@) =~= b + events.take(0));
        let mut j: usize = 0;
        while j < self.events.len()
            invariant
                j <= self.events@.len(),
                events == event_ids(self.events@),
                ids_view(ids@) == b + events.take(j as int),
            decreases self.events@.len() - j,
        {
            let ghost before = ids_view(ids@);
            let id = self.events[j].id.clone();
            ids.push(id);
            assert(ids_view(ids@) =~= before.push(id@));
            assert(ids_view(ids@) =~= b + events.take(j + 1));
            j += 1;
        }
        let ghost c = b + events;
        assert(events.take(j as int) =~= events);
        assert(ids_view(ids@) =~= c + traces.take(0));
        let mut k: usize = 0;
        while k < self.traces.len()
            invariant
                k <= self.traces@.len(),
                traces == trace_ids(self.traces@),
                ids_view(ids@) == c + traces.take(k as int),
            decreases self.traces@.len() - k,
        {
            let ghost before = ids_view(ids@);
            let id = self.traces[k].id.clone();
            ids.push(id);
            assert(ids_view(ids@) =~= before.push(id@));
            assert(ids_view(ids@) =~= c + traces.take(k + 1));
            k += 1;
        }
        assert(traces.take(k as int) =~= traces);
        BlockValidation { validation_hash: calc_validation_hash(ids.as_slice()), is_fork: false }
    }
}

/// The sums of two lists of identifiers add up.
pub proof fn sums_add_up(a: Seq<Seq<char>>, b: Seq<Seq<char>>)
    ensures
        sum_ids(a + b) == sum_ids(a) + sum_ids(b),
    decreases b.len(),
{
    if b.len() == 0 {
        assert(a + b =~= a);
    } else {
        assert((a + b).drop_last() =~= a + b.drop_last());
        sums_add_up(a, b.drop_last());
    }
}

/// The validation hash has six digits at most, and does not depend on which of two parts of the
/// list comes first.
pub proof fn validation_hash_ignores_order(a: Seq<Seq<char>>, b: Seq<Seq<char>>)
    ensures
        validation_hash_of(a + b) == validation_hash_of(b + a),
        0 <= validation_hash_of(a) < 1_000_000,
{
    sums_add_up(a, b);
    sums_add_up(b, a);
}

} // verus!

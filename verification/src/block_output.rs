//! Puts together what is handed out of a block.
use crate::block_file::{
    validation_hash_of, BlockFile, DebankBlock, DebankBlockHeader, DebankOutput, DebankTransaction,
};
use crate::filter::{height_of, RequestBlockId, RequestBlockTag};
use crate::formatter::DebankBlockOutput;
use crate::primitives::{be_value, H160, H256, U256};
use crate::state_diff::{
    address_to_hash, diff_rlp, empty_diff, empty_state_diff, encode_state_diff, hashed, NewAccount,
};
use vstd::prelude::*;

verus! {

/// The header of a block, as the node has it.
#[derive(Debug)]
pub struct EthHeader {
    pub parent_hash: H256,
    pub ommers_hash: H256,
    pub beneficiary: H160,
    pub state_root: H256,
    pub transactions_root: H256,
    pub receipts_root: H256,
    pub logs_bloom: Vec<u8>,
    pub difficulty: U256,
    pub gas_limit: U256,
    pub gas_used: U256,
    /// The time of the block in milliseconds.
    pub timestamp: u64,
    pub extra_data: Vec<u8>,
    pub mix_hash: H256,
    pub nonce: [u8; 8],
    /// The hash of the header.
    pub hash: H256,
}

/// A transaction, as the node has it.
#[derive(Debug)]
pub struct EthTransaction {
    pub hash: H256,
    pub from: H160,
    pub to: Option<H160>,
    pub gas: U256,
    pub gas_price: Option<U256>,
    pub max_fee_per_gas: Option<U256>,
    pub max_priority_fee_per_gas: Option<U256>,
    pub input: Vec<u8>,
    pub nonce: U256,
    pub transaction_index: Option<U256>,
    pub value: U256,
}

/// The receipt of a transaction, as the node has it.
#[derive(Clone, Copy, Debug)]
pub struct EthReceipt {
    pub gas_used: Option<U256>,
    pub status_code: Option<u64>,
}

/// The number, if there is one, is below 2^64.
pub open spec fn small_u64(n: Option<U256>) -> bool {
    n is Some ==> n->0.value() <= u64::MAX
}

/// The number, if there is one, is below 2^128.
pub open spec fn small_u128(n: Option<U256>) -> bool {
    n is Some ==> n->0.value() <= u128::MAX
}

/// The number, or zero.
pub open spec fn number_or(n: Option<U256>, default: nat) -> nat {
    match n {
        Some(n) => n.value(),
        None => default,
    }
}

/// The number, or another.
fn u64_or(n: Option<U256>, default: u64) -> (r: u64)
    requires
        small_u64(n),
    ensures
        r == number_or(n, default as nat),
{
    match n {
        Some(n) => n.as_u64(),
        None => default,
    }
}

/// The number, or another.
fn u128_or(n: Option<U256>, default: u128) -> (r: u128)
    requires
        small_u128(n),
    ensures
        r == number_or(n, default as nat),
{
    match n {
        Some(n) => n.as_u128(),
        None => default,
    }
}

/// Whether the number, if there is one, is below 2^64.
fn is_small_u64(n: &Option<U256>) -> (r: bool)
    ensures
        r == small_u64(*n),
{
    match n {
        Some(n) => n.fits_u64(),
        None => true,
    }
}

/// Whether the number, if there is one, is below 2^128.
fn is_small_u128(n: &Option<U256>) -> (r: bool)
    ensures
        r == small_u128(*n),
{
    match n {
        Some(n) => n.fits_u128(),
        None => true,
    }
}

/// 256 to the power of `n`.
spec fn pow256(n: nat) -> nat
    decreases n,
{
    if n == 0 {
        1
    } else {
        256 * pow256((n - 1) as nat)
    }
}

/// Bytes hold a number below 256 to the power of their count.
proof fn be_value_bound(data: Seq<u8>)
    ensures
        be_value(data) < pow256(data.len()),
    decreases data.len(),
{
    if data.len() > 0 {
        be_value_bound(data.drop_last());
    }
}

/// The number whose eight bytes are given, the most significant first.
pub fn read_u64(bytes: &[u8; 8]) -> (r: u64)
    ensures
        r == be_value(bytes@),
{
    let mut n: u64 = 0;
    let mut i: usize = 0;
    assert(bytes@.take(0) =~= seq![]);
    while i < 8
        invariant
            i <= 8,
            bytes@.len() == 8,
            n == be_value(bytes@.take(i as int)),
        decreases 8 - i,
    {
        proof {
            assert(bytes@.take(i + 1).drop_last() =~= bytes@.take(i as int));
            be_value_bound(bytes@.take(i + 1));
            reveal_with_fuel(pow256, 9);
        }
        n = n * 256 + bytes[i] as u64;
        i += 1;
    }
    assert(bytes@.take(8) =~= bytes@);
    n
}

impl EthHeader {
    /// The amounts of gas are below 2^64.
    pub open spec fn is_sound(&self) -> bool {
        self.gas_limit.value() <= u64::MAX && self.gas_used.value() <= u64::MAX
    }

    /// Whether the amounts of gas are below 2^64.
    pub fn sound(&self) -> (r: bool)
        ensures
            r == self.is_sound(),
    {
        self.gas_limit.fits_u64() && self.gas_used.fits_u64()
    }

    /// The block is the one of this header, with its time in seconds.
    pub open spec fn is_block(&self, r: DebankBlock, height: u32, start: u64) -> bool {
        &&& r.id == self.hash
        &&& r.height == height
        &&& r.parent_id == self.parent_hash
        &&& r.base_fee_per_gas is None
        &&& r.miner == self.beneficiary
        &&& r.gas_limit == self.gas_limit.value()
        &&& r.gas_used == self.gas_used.value()
        &&& r.timestamp == self.timestamp / 1000
        &&& r.process_start_timestamp == start
    }

    /// The block of this header, whose processing started at `start`.
    pub fn to_block(&self, height: u32, start: u64) -> (r: DebankBlock)
        requires
            self.is_sound(),
        ensures
            self.is_block(r, height, start),
    {
        DebankBlock {
            id: self.hash,
            height: height as u64,
            parent_id: self.parent_hash,
            base_fee_per_gas: None,
            miner: self.beneficiary,
            gas_limit: self.gas_limit.as_u64(),
            gas_used: self.gas_used.as_u64(),
            timestamp: self.timestamp / 1000,
            process_start_timestamp: start,
        }
    }

    /// The header is the one handed out for this one, with its time in seconds.
    pub open spec fn is_header(&self, r: DebankBlockHeader, height: u32) -> bool {
        &&& r.parent_hash == self.parent_hash
        &&& r.sha3_uncles == self.ommers_hash
        &&& r.miner == self.beneficiary
        &&& r.state_root == self.state_root
        &&& r.transactions_root == self.transactions_root
        &&& r.receipts_root == self.receipts_root
        &&& r.logs_bloom@ == self.logs_bloom@
        &&& r.difficulty == self.difficulty
        &&& r.number == height
        &&& r.gas_limit == self.gas_limit.value()
        &&& r.gas_used == self.gas_used.value()
        &&& r.timestamp == self.timestamp / 1000
        &&& r.extra_data@ == self.extra_data@
        &&& r.mix_hash == self.mix_hash
        &&& r.nonce == be_value(self.nonce@)
        &&& r.base_fee_per_gas is None
        &&& r.hash == self.hash
    }

    /// The header as it is handed out.
    pub fn to_header(&self, height: u32) -> (r: DebankBlockHeader)
        requires
            self.is_sound(),
        ensures
            self.is_header(r, height),
    {
        DebankBlockHeader {
            parent_hash: self.parent_hash,
            sha3_uncles: self.ommers_hash,
            miner: self.beneficiary,
            state_root: self.state_root,
            transactions_root: self.transactions_root,
            receipts_root: self.receipts_root,
            logs_bloom: self.logs_bloom.clone(),
            difficulty: self.difficulty,
            number: height as u64,
            gas_limit: self.gas_limit.as_u64(),
            gas_used: self.gas_used.as_u64(),
            timestamp: self.timestamp / 1000,
            extra_data: self.extra_data.clone(),
            mix_hash: self.mix_hash,
            nonce: read_u64(&self.nonce),
            base_fee_per_gas: None,
            hash: self.hash,
        }
    }
}

impl EthTransaction {
    /// Gas, nonce and index are below 2^64, and prices below 2^128.
    pub open spec fn is_sound(&self) -> bool {
        &&& self.gas.value() <= u64::MAX
        &&& self.nonce.value() <= u64::MAX
        &&& small_u64(self.transaction_index)
        &&& small_u128(self.gas_price)
        &&& small_u128(self.max_fee_per_gas)
        &&& small_u128(self.max_priority_fee_per_gas)
    }

    /// Whether gas, nonce and index are below 2^64, and prices below 2^128.
    pub fn sound(&self) -> (r: bool)
        ensures
            r == self.is_sound(),
    {
        self.gas.fits_u64() && self.nonce.fits_u64() && is_small_u64(&self.transaction_index)
            && is_small_u128(&self.gas_price) && is_small_u128(&self.max_fee_per_gas)
            && is_small_u128(&self.max_priority_fee_per_gas)
    }

    /// The transaction is the one handed out for this one at position `idx`, with its receipt if
    /// there is one.
    pub open spec fn is_transaction(
        &self,
        r: DebankTransaction,
        receipt: Option<EthReceipt>,
        idx: nat,
    ) -> bool {
        &&& r.id == self.hash
        &&& r.from == self.from
        &&& r.to == match self.to {
            Some(to) => to,
            None => H160::zero(),
        }
        &&& r.gas_limit == self.gas.value()
        &&& r.gas_price == number_or(self.gas_price, 0)
        &&& r.gas_used == match receipt {
            Some(receipt) => number_or(receipt.gas_used, 0),
            None => 0,
        }
        &&& r.status == (receipt is Some && receipt->0.status_code == Some(1u64))
        &&& r.gas_fee_cap == number_or(self.max_fee_per_gas, number_or(self.gas_price, 0))
        &&& r.gas_tip_cap == number_or(self.max_priority_fee_per_gas, 0)
        &&& r.input@ == self.input@
        &&& r.nonce == self.nonce.value()
        &&& r.transaction_index == number_or(self.transaction_index, idx)
        &&& r.value == self.value
    }

    /// The transaction as it is handed out.
    pub fn to_transaction(&self, receipt: Option<EthReceipt>, idx: usize) -> (r: DebankTransaction)
        requires
            self.is_sound(),
            receipt is Some ==> small_u64(receipt->0.gas_used),
        ensures
            self.is_transaction(r, receipt, idx as nat),
    {
        let (gas_used, status) = match receipt {
            Some(receipt) => {
                let status = match receipt.status_code {
                    Some(code) => code == 1,
                    None => false,
                };
                (u64_or(receipt.gas_used, 0), status)
            },
            None => (0, false),
        };
        let gas_price: u128 = u128_or(self.gas_price, 0);
        let to = match self.to {
            Some(to) => to,
            None => H160::zero(),
        };
        DebankTransaction {
            id: self.hash,
            from: self.from,
            to,
            gas_limit: self.gas.as_u64(),
            gas_price,
            gas_used,
            status,
            gas_fee_cap: u128_or(self.max_fee_per_gas, gas_price),
            gas_tip_cap: u128_or(self.max_priority_fee_per_gas, 0),
            input: self.input.clone(),
            nonce: self.nonce.as_u64(),
            transaction_index: u64_or(self.transaction_index, idx as u64),
            value: self.value,
        }
    }
}

/// The receipt of the transaction at position `i`, if there is one.
pub open spec fn receipt_at(receipts: Seq<EthReceipt>, i: int) -> Option<EthReceipt> {
    if 0 <= i < receipts.len() {
        Some(receipts[i])
    } else {
        None
    }
}

/// The transactions and their receipts hold no number that is too large.
pub open spec fn all_sound(txs: Seq<EthTransaction>, receipts: Seq<EthReceipt>) -> bool {
    forall|i: int|
        0 <= i < txs.len() ==> (#[trigger] txs[i]).is_sound() && (i < receipts.len() ==> small_u64(
            receipts[i].gas_used,
        ))
}

/// Whether the transactions and their receipts hold no number that is too large.
pub fn transactions_sound(txs: &Vec<EthTransaction>, receipts: &Vec<EthReceipt>) -> (r: bool)
    ensures
        r == all_sound(txs@, receipts@),
{
    let mut i: usize = 0;
    while i < txs.len()
        invariant
            i <= txs@.len(),
            forall|j: int|
                0 <= j < i ==> (#[trigger] txs@[j]).is_sound() && (j < receipts@.len() ==> small_u64(
                    receipts@[j].gas_used,
                )),
        decreases txs@.len() - i,
    {
        if !txs[i].sound() {
            assert(!txs@[i as int].is_sound());
            return false;
        }
        if i < receipts.len() && !is_small_u64(&receipts[i].gas_used) {
            assert(!small_u64(receipts@[i as int].gas_used));
            assert(txs@[i as int].is_sound());
            return false;
        }
        i += 1;
    }
    true
}

/// The transactions of a block as they are handed out.
pub fn list_transactions(txs: &Vec<EthTransaction>, receipts: &Vec<EthReceipt>) -> (r: Vec<
    DebankTransaction,
>)
    requires
        all_sound(txs@, receipts@),
    ensures
        r@.len() == txs@.len(),
        forall|i: int|
            0 <= i < txs@.len() ==> txs@[i].is_transaction(
                #[trigger] r@[i],
                receipt_at(receipts@, i),
                i as nat,
            ),
{
    let mut list: Vec<DebankTransaction> = Vec::new();
    let mut i: usize = 0;
    while i < txs.len()
        invariant
            i <= txs@.len(),
            all_sound(txs@, receipts@),
            list@.len() == i,
            forall|j: int|
                0 <= j < i ==> txs@[j].is_transaction(
                    #[trigger] list@[j],
                    receipt_at(receipts@, j),
                    j as nat,
                ),
        decreases txs@.len() - i,
    {
        assert(txs@[i as int].is_sound());
        let receipt = if i < receipts.len() {
            Some(receipts[i])
        } else {
            None
        };
        list.push(txs[i].to_transaction(receipt, i));
        i += 1;
    }
    list
}

/// What is handed out of the first block, which has neither traces nor a parent.
pub fn genesis_output(
    block: DebankBlock,
    header: DebankBlockHeader,
    transactions: Vec<DebankTransaction>,
    state_root: H256,
) -> (r: DebankOutput)
    ensures
        r.block_file.block == block,
        r.block_file.transactions == transactions,
        r.block_file.events@.len() == 0,
        r.block_file.traces@.len() == 0,
        r.block_file.error_events@.len() == 0,
        r.block_file.error_traces@.len() == 0,
        r.block_file.storage_contracts@.len() == 0,
        r.header == header,
        r.state_diff@ == diff_rlp(empty_diff(state_root, H256::zero())),
        r.validation_hash == validation_hash_of(r.block_file.ids()),
{
    let state_diff = empty_state_diff(state_root, H256::zero());
    let block_file = BlockFile {
        block,
        transactions,
        events: Vec::new(),
        traces: Vec::new(),
        error_events: Vec::new(),
        error_traces: Vec::new(),
        storage_contracts: Vec::new(),
    };
    let validation_hash: i64 = block_file.validation().validation_hash;
    DebankOutput { block_file, header, state_diff: encode_state_diff(&state_diff), validation_hash }
}

/// What is handed out of a block, given what was collected when it was replayed.
pub fn block_output(
    block: DebankBlock,
    header: DebankBlockHeader,
    transactions: Vec<DebankTransaction>,
    formatted: DebankBlockOutput,
) -> (r: DebankOutput)
    ensures
        r.block_file == (BlockFile {
            block,
            transactions,
            events: formatted.events,
            traces: formatted.traces,
            error_events: formatted.error_events,
            error_traces: formatted.error_traces,
            storage_contracts: formatted.storage_contracts,
        }),
        r.header == header,
        r.state_diff@ == diff_rlp(formatted.state_diff@),
        r.validation_hash == validation_hash_of(r.block_file.ids()),
{
    let state_diff = encode_state_diff(&formatted.state_diff);
    let block_file = BlockFile {
        block,
        transactions,
        events: formatted.events,
        traces: formatted.traces,
        error_events: formatted.error_events,
        error_traces: formatted.error_traces,
        storage_contracts: formatted.storage_contracts,
    };
    let validation_hash: i64 = block_file.validation().validation_hash;
    DebankOutput { block_file, header, state_diff, validation_hash }
}

/// Where a block that is asked for is found.
#[derive(Clone, Copy, Debug)]
pub enum BlockTarget {
    /// By its hash.
    Hash(H256),
    /// By its height.
    Height(u32),
}

/// Where a block that is asked for is found, given the heights of the best and the finalized one.
pub fn resolve_block(id: RequestBlockId, best_number: u32, finalized_number: u32) -> (r: Result<
    BlockTarget,
    String,
>)
    ensures
        match id {
            RequestBlockId::Hash(hash) => r == Ok::<BlockTarget, String>(BlockTarget::Hash(hash)),
            _ => match height_of(Some(id), best_number, finalized_number) {
                Ok(n) => r == Ok::<BlockTarget, String>(BlockTarget::Height(n)),
                Err(message) => r is Err && r->Err_0@ == message,
            },
        },
{
    match id {
        RequestBlockId::Hash(hash) => Ok(BlockTarget::Hash(hash)),
        RequestBlockId::Number(n) => Ok(BlockTarget::Height(n)),
        RequestBlockId::Tag(RequestBlockTag::Latest) => Ok(BlockTarget::Height(best_number)),
        RequestBlockId::Tag(RequestBlockTag::Earliest) => Ok(BlockTarget::Height(0)),
        RequestBlockId::Tag(RequestBlockTag::Finalized) => Ok(
            BlockTarget::Height(finalized_number),
        ),
        RequestBlockId::Tag(RequestBlockTag::Pending) => Err(
            "'pending' is not supported".to_string(),
        ),
    }
}

/// The Keccak-256 hash of a code.
pub uninterp spec fn code_digest(code: Seq<u8>) -> Seq<u8>;

/// `sp_core::keccak_256`: the hash, a function of the data alone.
#[verifier::external_body]
fn keccak_256(data: &[u8]) -> (r: [u8; 32])
    ensures
        r@ == code_digest(data@),
{
    sp_core::keccak_256(data)
}

/// What an account is after the block, and its code, given what the node tells of it. An account
/// without code has the hash of no bytes.
pub fn account_info(address: &H160, balance: U256, nonce: U256, code: Option<Vec<u8>>) -> (r: (
    NewAccount,
    Vec<u8>,
))
    requires
        nonce.value() <= u64::MAX,
    ensures
        r.1@ == match code {
            Some(code) => code@,
            None => seq![],
        },
        r.0.address == hashed(*address),
        r.0.balance == balance,
        r.0.nonce == nonce.value(),
        r.0.code_hash.0@ == code_digest(r.1@),
{
    let code = match code {
        Some(code) => code,
        None => Vec::new(),
    };
    let code_hash = H256(keccak_256(code.as_slice()));
    let account = NewAccount {
        address: address_to_hash(address),
        balance,
        nonce: nonce.as_u64(),
        code_hash,
    };
    (account, code)
}

} // verus!

//! Simulated transactions and read-only calls in batches.
use crate::events::{ExitError, ExitFatal, ExitReason};
use crate::formatter::{
    events_view, frame_events, frame_to_debank, frame_traces, marked, root_id, texts_view,
    traces_view, EventModel, TraceModel,
};
use crate::frame::{CallFrame, FrameModel};
use crate::listener::{ended, spare, Listener, ListenerModel};
use crate::primitives::{H160, H256, U256};
use crate::text::{decimal, number_text};
use evm::ExitError as Outside;
use vstd::prelude::*;

verus! {

/// The call was reverted.
pub const DEBANK_ERR_REVERTED: i32 = -39000;

/// The gas ran out.
pub const DEBANK_ERR_GAS_EXHAUSTED: i32 = -39001;

/// The balance does not cover the call.
pub const DEBANK_ERR_INSUFFICIENT_BALANCE: i32 = -39002;

/// The nonce is wrong.
pub const DEBANK_ERR_NONCE: i32 = -39003;

/// The call failed otherwise.
pub const DEBANK_ERR_UNKNOWN: i32 = -39004;

/// The precompile is not supported.
pub const DEBANK_ERR_UNSUPPORTED_PRECOMPILE: i32 = -39008;

/// How many calls a batch may hold unless something else is said.
pub const DEFAULT_MAX_BATCH_SIZE: usize = 50;

/// How a block is named by a request.
#[derive(Clone, Copy, Debug)]
pub enum BlockNumberOrHash {
    Hash { hash: H256, require_canonical: bool },
    Num(u64),
    Latest,
    Earliest,
    Pending,
    Safe,
    Finalized,
}

/// What the block of a context stands for.
#[derive(Clone, Copy, Debug, PartialEq, Eq, Structural)]
pub enum BlockType {
    /// The state at exactly that block.
    Equals,
    /// Any state that holds that block, which the latest one does.
    Contains,
}

impl Default for BlockType {
    fn default() -> (r: Self)
        ensures
            r == BlockType::Equals,
    {
        BlockType::Equals
    }
}

/// The block that a request is about.
#[derive(Clone, Copy, Debug)]
pub struct DebankBlockContext {
    pub block_id: BlockNumberOrHash,
    pub block_type: BlockType,
}

impl DebankBlockContext {
    /// The block whose state is meant.
    pub fn to_block_number_or_hash(self) -> (r: BlockNumberOrHash)
        ensures
            r == match self.block_type {
                BlockType::Equals => self.block_id,
                BlockType::Contains => BlockNumberOrHash::Latest,
            },
    {
        match self.block_type {
            BlockType::Equals => self.block_id,
            BlockType::Contains => BlockNumberOrHash::Latest,
        }
    }
}

/// A call, as it is handed out of a simulation.
#[derive(Debug)]
pub struct DebankTrace {
    pub id: String,
    pub from_addr: H160,
    pub gas_limit: u64,
    pub input: Vec<u8>,
    pub to_addr: H160,
    pub value: U256,
    pub gas_used: u64,
    pub output: Vec<u8>,
    pub call_create_type: String,
    pub call_type: String,
    pub tx_id: H256,
    pub parent_trace_id: String,
    pub pos_in_parent_trace: usize,
    pub self_storage_change: bool,
    pub storage_change: bool,
}

/// A log entry, as it is handed out of a simulation.
#[derive(Debug)]
pub struct DebankEvent {
    pub id: String,
    pub contract_id: H160,
    pub selector: String,
    pub topics: Vec<String>,
    pub data: Vec<u8>,
    pub tx_id: H256,
    pub parent_trace_id: String,
    pub pos_in_parent_trace: usize,
}

/// A call of a simulation as a mathematical value.
#[verifier::ext_equal]
pub struct WireTraceModel {
    pub id: Seq<char>,
    pub from_addr: H160,
    pub gas_limit: u64,
    pub input: Seq<u8>,
    pub to_addr: H160,
    pub value: U256,
    pub gas_used: u64,
    pub output: Seq<u8>,
    pub call_create_type: Seq<char>,
    pub call_type: Seq<char>,
    pub tx_id: H256,
    pub parent_trace_id: Seq<char>,
    pub pos_in_parent_trace: nat,
    pub self_storage_change: bool,
    pub storage_change: bool,
}

/// A log entry of a simulation as a mathematical value.
#[verifier::ext_equal]
pub struct WireEventModel {
    pub id: Seq<char>,
    pub contract_id: H160,
    pub selector: Seq<char>,
    pub topics: Seq<Seq<char>>,
    pub data: Seq<u8>,
    pub tx_id: H256,
    pub parent_trace_id: Seq<char>,
    pub pos_in_parent_trace: nat,
}

impl View for DebankTrace {
    type V = WireTraceModel;

    open spec fn view(&self) -> WireTraceModel {
        WireTraceModel {
            id: self.id@,
            from_addr: self.from_addr,
            gas_limit: self.gas_limit,
            input: self.input@,
            to_addr: self.to_addr,
            value: self.value,
            gas_used: self.gas_used,
            output: self.output@,
            call_create_type: self.call_create_type@,
            call_type: self.call_type@,
            tx_id: self.tx_id,
            parent_trace_id: self.parent_trace_id@,
            pos_in_parent_trace: self.pos_in_parent_trace as nat,
            self_storage_change: self.self_storage_change,
            storage_change: self.storage_change,
        }
    }
}

impl View for DebankEvent {
    type V = WireEventModel;

    open spec fn view(&self) -> WireEventModel {
        WireEventModel {
            id: self.id@,
            contract_id: self.contract_id,
            selector: self.selector@,
            topics: texts_view(self.topics@),
            data: self.data@,
            tx_id: self.tx_id,
            parent_trace_id: self.parent_trace_id@,
            pos_in_parent_trace: self.pos_in_parent_trace as nat,
        }
    }
}

/// What a simulation hands out of a trace.
pub open spec fn wire_trace(t: TraceModel) -> WireTraceModel {
    WireTraceModel {
        id: t.id,
        from_addr: t.from_addr,
        gas_limit: t.gas_limit,
        input: t.input,
        to_addr: t.to_addr,
        value: t.value,
        gas_used: t.gas_used,
        output: t.output,
        call_create_type: t.call_create_type,
        call_type: t.call_type,
        tx_id: t.tx_id,
        parent_trace_id: t.parent_trace_id,
        pos_in_parent_trace: t.pos_in_parent_trace,
        self_storage_change: t.self_storage_change,
        storage_change: t.storage_change,
    }
}

/// What a simulation hands out of an event.
pub open spec fn wire_event(e: EventModel, tx_id: H256) -> WireEventModel {
    WireEventModel {
        id: e.id,
        contract_id: e.contract_id,
        selector: e.selector,
        topics: e.topics,
        data: e.data,
        tx_id,
        parent_trace_id: e.parent_trace_id,
        pos_in_parent_trace: e.pos_in_parent_trace,
    }
}

/// What a simulation hands out of a trace.
pub fn to_wire_trace(t: crate::formatter::DebankTrace) -> (r: DebankTrace)
    ensures
        r@ == wire_trace(t@),
{
    DebankTrace {
        id: t.id,
        from_addr: t.from_addr,
        gas_limit: t.gas_limit,
        input: t.input,
        to_addr: t.to_addr,
        value: t.value,
        gas_used: t.gas_used,
        output: t.output,
        call_create_type: t.call_create_type,
        call_type: t.call_type,
        tx_id: t.tx_id,
        parent_trace_id: t.parent_trace_id,
        pos_in_parent_trace: t.pos_in_parent_trace,
        self_storage_change: t.self_storage_change,
        storage_change: t.storage_change,
    }
}

/// What a simulation hands out of an event.
pub fn to_wire_event(e: crate::formatter::DebankEvent, tx_id: H256) -> (r: DebankEvent)
    ensures
        r@ == wire_event(e@, tx_id),
{
    DebankEvent {
        id: e.id,
        contract_id: e.contract_id,
        selector: e.selector,
        topics: e.topics,
        data: e.data,
        tx_id,
        parent_trace_id: e.parent_trace_id,
        pos_in_parent_trace: e.pos_in_parent_trace,
    }
}

/// The result of one simulated transaction.
#[derive(Debug)]
pub struct DebankSingleSimulateResult {
    /// Zero if it succeeded.
    pub code: i32,
    pub err: String,
    pub gas_used: u64,
    pub traces: Vec<DebankTrace>,
    pub events: Vec<DebankEvent>,
}

/// The result of one simulated transaction as a mathematical value.
#[verifier::ext_equal]
pub struct SimulateModel {
    pub code: i32,
    pub err: Seq<char>,
    pub gas_used: u64,
    pub traces: Seq<WireTraceModel>,
    pub events: Seq<WireEventModel>,
}

/// The calls as mathematical values.
pub open spec fn wire_traces_view(s: Seq<DebankTrace>) -> Seq<WireTraceModel> {
    s.map_values(|t: DebankTrace| t@)
}

/// The log entries as mathematical values.
pub open spec fn wire_events_view(s: Seq<DebankEvent>) -> Seq<WireEventModel> {
    s.map_values(|e: DebankEvent| e@)
}

impl View for DebankSingleSimulateResult {
    type V = SimulateModel;

    open spec fn view(&self) -> SimulateModel {
        SimulateModel {
            code: self.code,
            err: self.err@,
            gas_used: self.gas_used,
            traces: wire_traces_view(self.traces@),
            events: wire_events_view(self.events@),
        }
    }
}

/// What is said of a batch of simulated transactions as a whole.
#[derive(Clone, Copy, Debug)]
pub struct DebankSimulateStats {
    pub block_num: u64,
    pub block_hash: H256,
    pub block_time: u64,
    pub success: bool,
}

/// The answer to a batch of simulated transactions.
#[derive(Debug)]
pub struct DebankSimulateResp {
    pub results: Vec<DebankSingleSimulateResult>,
    pub stats: DebankSimulateStats,
}

/// The result of one read-only call. How long it took is not measured.
#[derive(Debug)]
pub struct DebankSingleCallResult {
    /// Zero if it succeeded.
    pub code: i32,
    pub err: String,
    pub from_cache: bool,
    pub result: Vec<u8>,
    pub gas_used: i64,
}

/// The result of one read-only call as a mathematical value.
#[verifier::ext_equal]
pub struct CallModel {
    pub code: i32,
    pub err: Seq<char>,
    pub from_cache: bool,
    pub result: Seq<u8>,
    pub gas_used: i64,
}

impl View for DebankSingleCallResult {
    type V = CallModel;

    open spec fn view(&self) -> CallModel {
        CallModel {
            code: self.code,
            err: self.err@,
            from_cache: self.from_cache,
            result: self.result@,
            gas_used: self.gas_used,
        }
    }
}

/// What is said of a batch of read-only calls as a whole.
#[derive(Clone, Copy, Debug)]
pub struct DebankMultiCallStats {
    pub block_num: u64,
    pub block_hash: H256,
    pub block_time: u64,
    pub success: bool,
    pub cache_enabled: bool,
}

/// The answer to a batch of read-only calls.
#[derive(Debug)]
pub struct DebankMultiCallResp {
    pub results: Vec<DebankSingleCallResult>,
    pub stats: DebankMultiCallStats,
}

/// An account and the slots of it that a transaction declares to use.
#[derive(Debug)]
pub struct AccessListItem {
    pub address: H160,
    pub storage_keys: Vec<H256>,
}

/// A call that is asked for; what is left out is filled in.
#[derive(Debug)]
pub struct TransactionRequest {
    pub from: Option<H160>,
    pub to: Option<H160>,
    pub gas_price: Option<U256>,
    pub max_fee_per_gas: Option<U256>,
    pub max_priority_fee_per_gas: Option<U256>,
    pub gas: Option<U256>,
    pub value: Option<U256>,
    pub data: Option<Vec<u8>>,
    pub nonce: Option<U256>,
    pub access_list: Option<Vec<AccessListItem>>,
}

/// A call as it is run.
#[derive(Debug)]
pub struct CallArgs {
    pub from: H160,
    pub to: H160,
    pub data: Vec<u8>,
    pub value: U256,
    pub gas_limit: U256,
    pub max_fee_per_gas: Option<U256>,
    pub max_priority_fee_per_gas: Option<U256>,
    pub nonce: Option<U256>,
    pub access_list: Option<Vec<(H160, Vec<H256>)>>,
}

/// The fees to run with: a gas price, unless it is zero, stands for both if neither is given.
pub open spec fn fees_of(
    gas_price: Option<U256>,
    max_fee: Option<U256>,
    max_prio: Option<U256>,
) -> (Option<U256>, Option<U256>) {
    if max_fee is None && max_prio is None {
        if gas_price is Some && gas_price->0.value() != 0 {
            (gas_price, gas_price)
        } else {
            (None, None)
        }
    } else {
        (max_fee, max_prio)
    }
}

/// The fees to run with.
pub fn normalize_fees(
    gas_price: Option<U256>,
    max_fee: Option<U256>,
    max_prio: Option<U256>,
) -> (r: (Option<U256>, Option<U256>))
    ensures
        r == fees_of(gas_price, max_fee, max_prio),
{
    match (gas_price, max_fee, max_prio) {
        (Some(price), None, None) => if price.is_zero() {
            (None, None)
        } else {
            (Some(price), Some(price))
        },
        (None, None, None) => (None, None),
        (_, max_fee, max_prio) => (max_fee, max_prio),
    }
}

/// The accounts of the list with their slots.
pub open spec fn access_pairs(items: Seq<AccessListItem>) -> Seq<(H160, Seq<H256>)> {
    items.map_values(|i: AccessListItem| (i.address, i.storage_keys@))
}

/// The accounts of the list with their slots.
pub open spec fn pairs_view(pairs: Seq<(H160, Vec<H256>)>) -> Seq<(H160, Seq<H256>)> {
    pairs.map_values(|p: (H160, Vec<H256>)| (p.0, p.1@))
}

/// The value, or zero.
pub open spec fn or_zero(v: Option<U256>) -> U256 {
    match v {
        Some(v) => v,
        None => U256::zero(),
    }
}

/// The call is what was asked for, with what was left out filled in.
pub open spec fn is_prepared(
    args: CallArgs,
    req: TransactionRequest,
    block_gas_limit: U256,
) -> bool {
    &&& Some(args.to) == req.to
    &&& args.from == match req.from {
        Some(from) => from,
        None => H160::zero(),
    }
    &&& args.data@ == match req.data {
        Some(data) => data@,
        None => seq![],
    }
    &&& args.value == or_zero(req.value)
    &&& args.gas_limit == match req.gas {
        Some(gas) => gas,
        None => block_gas_limit,
    }
    &&& (args.max_fee_per_gas, args.max_priority_fee_per_gas) == fees_of(
        req.gas_price,
        req.max_fee_per_gas,
        req.max_priority_fee_per_gas,
    )
    &&& args.nonce == req.nonce
    &&& (args.access_list is Some) == (req.access_list is Some)
    &&& args.access_list is Some ==> pairs_view(args.access_list->0@) == access_pairs(
        req.access_list->0@,
    )
}

/// The accounts of the list with their slots.
fn list_access(items: Vec<AccessListItem>) -> (r: Vec<(H160, Vec<H256>)>)
    ensures
        pairs_view(r@) == access_pairs(items@),
{
    let ghost wanted = access_pairs(items@);
    let mut pairs: Vec<(H160, Vec<H256>)> = Vec::new();
    let mut i: usize = 0;
    assert(pairs_view(pairs@) =~= wanted.take(0));
    while i < items.len()
        invariant
            i <= items@.len(),
            wanted == access_pairs(items@),
            pairs_view(pairs@) == wanted.take(i as int),
        decreases items@.len() - i,
    {
        let ghost before = pairs_view(pairs@);
        let pair = (items[i].address, items[i].storage_keys.clone());
        pairs.push(pair);
        assert(pair.1@ =~= items@[i as int].storage_keys@);
        assert(pairs_view(pairs@) =~= before.push(wanted[i as int]));
        assert(wanted.take(i + 1) =~= wanted.take(i as int).push(wanted[i as int]));
        i += 1;
    }
    assert(wanted.take(i as int) =~= wanted);
    pairs
}

/// The call to run, with what was left out filled in; none if no account is called.
pub fn prepare_call(req: TransactionRequest, block_gas_limit: U256) -> (r: Option<CallArgs>)
    ensures
        r is Some == req.to is Some,
        r is Some ==> is_prepared(r->0, req, block_gas_limit),
{
    let to = match req.to {
        Some(to) => to,
        None => return None,
    };
    let from = match req.from {
        Some(from) => from,
        None => H160::zero(),
    };
    let data = match req.data {
        Some(data) => data,
        None => Vec::new(),
    };
    let value = match req.value {
        Some(value) => value,
        None => U256::zero(),
    };
    let gas_limit = match req.gas {
        Some(gas) => gas,
        None => block_gas_limit,
    };
    let (max_fee_per_gas, max_priority_fee_per_gas) = normalize_fees(
        req.gas_price,
        req.max_fee_per_gas,
        req.max_priority_fee_per_gas,
    );
    let access_list = match req.access_list {
        Some(items) => Some(list_access(items)),
        None => None,
    };
    Some(
        CallArgs {
            from,
            to,
            data,
            value,
            gas_limit,
            max_fee_per_gas,
            max_priority_fee_per_gas,
            nonce: req.nonce,
            access_list,
        },
    )
}

/// The gas limit, time in seconds and hash to go by, given those of the current block with its
/// time in milliseconds; without it the limit is the largest 64-bit number, the time zero and the
/// hash `at`.
pub fn block_context(current: Option<(U256, u64, H256)>, at: H256) -> (r: (U256, u64, H256))
    ensures
        match current {
            Some((gas_limit, time, hash)) => r == (gas_limit, (time / 1000) as u64, hash),
            None => r.0.value() == u64::MAX && r.1 == 0 && r.2 == at,
        },
{
    match current {
        Some((gas_limit, time, hash)) => (gas_limit, time / 1000, hash),
        None => (U256::from_u64(u64::MAX), 0, at),
    }
}

/// The code for the way a root frame failed; zero if it did not.
pub open spec fn frame_code_of(f: FrameModel) -> (i32, Seq<char>) {
    if !f.failed {
        (0i32, seq![])
    } else if f.error == "execution reverted"@ {
        (DEBANK_ERR_REVERTED, f.error)
    } else if f.error == "out of gas"@ {
        (DEBANK_ERR_GAS_EXHAUSTED, f.error)
    } else if f.error == "out of funds"@ {
        (DEBANK_ERR_INSUFFICIENT_BALANCE, f.error)
    } else {
        (DEBANK_ERR_UNKNOWN, f.error)
    }
}

/// The code and message for the way a root frame failed.
pub fn frame_code(frame: &CallFrame) -> (r: (i32, String))
    ensures
        (r.0, r.1@) == frame_code_of(frame@),
{
    if !frame.failed {
        return (0, String::new());
    }
    let code: i32 = if frame.error == "execution reverted".to_string() {
        DEBANK_ERR_REVERTED
    } else if frame.error == "out of gas".to_string() {
        DEBANK_ERR_GAS_EXHAUSTED
    } else if frame.error == "out of funds".to_string() {
        DEBANK_ERR_INSUFFICIENT_BALANCE
    } else {
        DEBANK_ERR_UNKNOWN
    };
    (code, frame.error.clone())
}

/// The `Debug` form of an error of the kind `Other` with the given message.
pub uninterp spec fn other_debug(message: Seq<char>) -> Seq<char>;

/// The `Debug` form of an error.
pub open spec fn error_debug(e: ExitError) -> Seq<char> {
    match e {
        ExitError::StackUnderflow => "StackUnderflow"@,
        ExitError::StackOverflow => "StackOverflow"@,
        ExitError::InvalidJump => "InvalidJump"@,
        ExitError::InvalidRange => "InvalidRange"@,
        ExitError::DesignatedInvalid => "DesignatedInvalid"@,
        ExitError::CallTooDeep => "CallTooDeep"@,
        ExitError::CreateCollision => "CreateCollision"@,
        ExitError::CreateContractLimit => "CreateContractLimit"@,
        ExitError::InvalidCode(opcode) => "InvalidCode(Opcode("@ + decimal(opcode as nat) + "))"@,
        ExitError::OutOfOffset => "OutOfOffset"@,
        ExitError::OutOfGas => "OutOfGas"@,
        ExitError::OutOfFund => "OutOfFund"@,
        ExitError::PCUnderflow => "PCUnderflow"@,
        ExitError::CreateEmpty => "CreateEmpty"@,
        ExitError::Other(message) => other_debug(message@),
        ExitError::MaxNonce => "MaxNonce"@,
    }
}

/// The `Debug` form of a fatal error.
pub open spec fn fatal_debug(e: ExitFatal) -> Seq<char> {
    match e {
        ExitFatal::NotSupported => "NotSupported"@,
        ExitFatal::UnhandledInterrupt => "UnhandledInterrupt"@,
        ExitFatal::CallErrorAsFatal(e) => "CallErrorAsFatal("@ + error_debug(e) + ")"@,
        ExitFatal::Other(message) => other_debug(message@),
    }
}

/// The `Debug` form of `evm::ExitError`, which is derived: the name of the kind, with the number of
/// the opcode for an invalid code. For the kind `Other` it also holds the message, in quotes and
/// with its special characters escaped; what that is in detail is not stated, only that it is a
/// function of the message alone.
#[verifier::external_body]
fn debug_error(e: &ExitError) -> (r: String)
    ensures
        r@ == match *e {
            ExitError::Other(message) => other_debug(message@),
            _ => error_debug(*e),
        },
{
    let error = match e {
        ExitError::StackUnderflow => Outside::StackUnderflow, ExitError::StackOverflow => Outside::StackOverflow,
        ExitError::InvalidJump => Outside::InvalidJump, ExitError::InvalidRange => Outside::InvalidRange,
        ExitError::DesignatedInvalid => Outside::DesignatedInvalid, ExitError::CallTooDeep => Outside::CallTooDeep,
        ExitError::CreateCollision => Outside::CreateCollision, ExitError::CreateContractLimit => Outside::CreateContractLimit,
        ExitError::OutOfOffset => Outside::OutOfOffset, ExitError::OutOfGas => Outside::OutOfGas,
        ExitError::OutOfFund => Outside::OutOfFund, ExitError::PCUnderflow => Outside::PCUnderflow,
        ExitError::CreateEmpty => Outside::CreateEmpty, ExitError::MaxNonce => Outside::MaxNonce,
        ExitError::InvalidCode(opcode) => Outside::InvalidCode(evm::Opcode(*opcode)),
        ExitError::Other(message) => Outside::Other(message.clone().into()),
    };
    format!("{:?}", error)
}

/// The `Debug` form of a fatal error.
fn debug_fatal(e: &ExitFatal) -> (r: String)
    ensures
        r@ == fatal_debug(*e),
{
    match e {
        ExitFatal::NotSupported => "NotSupported".to_string(),
        ExitFatal::UnhandledInterrupt => "UnhandledInterrupt".to_string(),
        ExitFatal::CallErrorAsFatal(e) => {
            let inner = debug_error(e);
            "CallErrorAsFatal(".to_string().concat(inner.as_str()).concat(")")
        },
        ExitFatal::Other(message) => debug_error(&ExitError::Other(message.clone())),
    }
}

/// The code and message for the way a call ended; zero and no message if it succeeded.
pub open spec fn reason_code(reason: ExitReason) -> (i32, Seq<char>) {
    match reason {
        ExitReason::Succeed(_) => (0i32, seq![]),
        ExitReason::Revert(_) => (DEBANK_ERR_REVERTED, "execution reverted"@),
        ExitReason::Error(e) => (
            match e {
                ExitError::OutOfGas => DEBANK_ERR_GAS_EXHAUSTED,
                ExitError::OutOfFund => DEBANK_ERR_INSUFFICIENT_BALANCE,
                _ => DEBANK_ERR_UNKNOWN,
            },
            error_debug(e),
        ),
        ExitReason::Fatal(e) => (DEBANK_ERR_UNKNOWN, fatal_debug(e)),
    }
}

/// The code and message for the way a call ended.
pub fn exit_reason_to_code(reason: &ExitReason) -> (r: (i32, String))
    ensures
        (r.0, r.1@) == reason_code(*reason),
{
    match reason {
        ExitReason::Succeed(_) => (0, String::new()),
        ExitReason::Revert(_) => (DEBANK_ERR_REVERTED, "execution reverted".to_string()),
        ExitReason::Error(e) => {
            let code: i32 = match e {
                ExitError::OutOfGas => DEBANK_ERR_GAS_EXHAUSTED,
                ExitError::OutOfFund => DEBANK_ERR_INSUFFICIENT_BALANCE,
                _ => DEBANK_ERR_UNKNOWN,
            };
            (code, debug_error(e))
        },
        ExitReason::Fatal(e) => (DEBANK_ERR_UNKNOWN, debug_fatal(e)),
    }
}

/// The result of a simulated transaction that could not be run.
pub open spec fn simulate_error(code: i32, message: Seq<char>) -> SimulateModel {
    SimulateModel { code, err: message, gas_used: 0, traces: seq![], events: seq![] }
}

/// The result of a simulated transaction that could not be run.
pub fn err_simulate(code: i32, message: String) -> (r: DebankSingleSimulateResult)
    ensures
        r@ == simulate_error(code, message@),
{
    let r = DebankSingleSimulateResult {
        code,
        err: message,
        gas_used: 0,
        traces: Vec::new(),
        events: Vec::new(),
    };
    assert(r@ =~= simulate_error(code, message@));
    r
}

/// The result of a read-only call that could not be run.
pub open spec fn call_error(code: i32, message: Seq<char>) -> CallModel {
    CallModel { code, err: message, from_cache: false, result: seq![], gas_used: 0 }
}

/// The result of a read-only call that could not be run.
pub fn err_call(code: i32, message: String) -> (r: DebankSingleCallResult)
    ensures
        r@ == call_error(code, message@),
{
    let r = DebankSingleCallResult {
        code,
        err: message,
        from_cache: false,
        result: Vec::new(),
        gas_used: 0,
    };
    assert(r@ =~= call_error(code, message@));
    r
}

/// The call to run for a simulated transaction, or the result if no account is called.
pub fn simulate_request(req: TransactionRequest, block_gas_limit: U256) -> (r: Result<
    CallArgs,
    DebankSingleSimulateResult,
>)
    ensures
        r is Ok == req.to is Some,
        r is Ok ==> is_prepared(r->Ok_0, req, block_gas_limit),
        r is Err ==> r->Err_0@ == simulate_error(
            DEBANK_ERR_UNKNOWN,
            "debank: contract creation not supported in simulateTransactions"@,
        ),
{
    match prepare_call(req, block_gas_limit) {
        Some(args) => Ok(args),
        None => Err(
            err_simulate(
                DEBANK_ERR_UNKNOWN,
                "debank: contract creation not supported in simulateTransactions".to_string(),
            ),
        ),
    }
}

/// The call to run for a read-only call, or the result if no account is called.
pub fn multicall_request(req: TransactionRequest, block_gas_limit: U256) -> (r: Result<
    CallArgs,
    DebankSingleCallResult,
>)
    ensures
        r is Ok == req.to is Some,
        r is Ok ==> is_prepared(r->Ok_0, req, block_gas_limit),
        r is Err ==> r->Err_0@ == call_error(
            DEBANK_ERR_UNKNOWN,
            "debank: 'to' address required"@,
        ),
{
    match prepare_call(req, block_gas_limit) {
        Some(args) => Ok(args),
        None => Err(err_call(DEBANK_ERR_UNKNOWN, "debank: 'to' address required".to_string())),
    }
}

/// How the runtime answered when it was asked to trace a call.
#[derive(Debug)]
pub enum TraceOutcome {
    /// It ran the call.
    Done,
    /// It refused to; the text of its error.
    Dispatch(String),
    /// It could not be asked; the text of the error.
    Api(String),
}

/// The result of a simulated transaction, given what the listener collected and how the runtime
/// answered.
pub open spec fn simulated(s: ListenerModel, outcome: TraceOutcome, tx_id: H256) -> SimulateModel {
    match outcome {
        TraceOutcome::Dispatch(text) => simulate_error(
            DEBANK_ERR_UNKNOWN,
            "debank: dispatch error: "@ + text@,
        ),
        TraceOutcome::Api(text) => simulate_error(
            DEBANK_ERR_UNKNOWN,
            "debank: trace_call api error: "@ + text@,
        ),
        TraceOutcome::Done => if s.completed_frames.len() == 0 {
            simulate_error(DEBANK_ERR_UNKNOWN, "debank: no trace produced"@)
        } else {
            let f = s.completed_frames[0];
            let (code, err) = frame_code_of(f);
            SimulateModel {
                code,
                err,
                gas_used: f.gas_used,
                traces: frame_traces(f, tx_id, seq![], root_id(tx_id)).map_values(
                    |m: (bool, TraceModel)| wire_trace(m.1),
                ),
                events: if code == 0 {
                    marked(frame_events(f, tx_id, root_id(tx_id)), false).map_values(
                        |e: EventModel| wire_event(e, tx_id),
                    )
                } else {
                    seq![]
                },
            }
        },
    }
}

/// What a simulation hands out of traces.
fn wire_traces(traces: Vec<crate::formatter::DebankTrace>) -> (r: Vec<DebankTrace>)
    ensures
        wire_traces_view(r@) == traces_view(traces@).map_values(|t: TraceModel| wire_trace(t)),
{
    let ghost all = traces_view(traces@);
    let ghost item = |t: TraceModel| wire_trace(t);
    let mut list: Vec<DebankTrace> = Vec::new();
    assert(wire_traces_view(list@) =~= all.take(0).map_values(item));
    for t in it: traces
        invariant
            item == (|t: TraceModel| wire_trace(t)),
            all == traces_view(it.seq()),
            wire_traces_view(list@) == all.take(it.index() as int).map_values(item),
    {
        let ghost before = wire_traces_view(list@);
        let ghost i = it.index() as int;
        let w = to_wire_trace(t);
        list.push(w);
        assert(wire_traces_view(list@) =~= before.push(w@));
        assert(all.take(i + 1).map_values(item) =~= all.take(i).map_values(item).push(
            item(all[i]),
        ));
    }
    assert(all.take(all.len() as int) =~= all);
    list
}

/// What a simulation hands out of events.
fn wire_events(events: Vec<crate::formatter::DebankEvent>, tx_id: H256) -> (r: Vec<DebankEvent>)
    ensures
        wire_events_view(r@) == events_view(events@).map_values(
            |e: EventModel| wire_event(e, tx_id),
        ),
{
    let ghost all = events_view(events@);
    let ghost item = |e: EventModel| wire_event(e, tx_id);
    let mut list: Vec<DebankEvent> = Vec::new();
    assert(wire_events_view(list@) =~= all.take(0).map_values(item));
    for t in it: events
        invariant
            item == (|e: EventModel| wire_event(e, tx_id)),
            all == events_view(it.seq()),
            wire_events_view(list@) == all.take(it.index() as int).map_values(item),
    {
        let ghost before = wire_events_view(list@);
        let ghost i = it.index() as int;
        let w = to_wire_event(t, tx_id);
        list.push(w);
        assert(wire_events_view(list@) =~= before.push(w@));
        assert(all.take(i + 1).map_values(item) =~= all.take(i).map_values(item).push(
            item(all[i]),
        ));
    }
    assert(all.take(all.len() as int) =~= all);
    list
}

/// The result of a simulated transaction, given the listener that was told of the run and how the
/// runtime answered. A transaction that failed has no events.
pub fn simulate_one(mut listener: Listener, outcome: TraceOutcome, tx_id: H256) -> (r:
    DebankSingleSimulateResult)
    requires
        spare(listener@.callstack, 0),
    ensures
        r@ == simulated(listener@.finished(), outcome, tx_id),
{
    listener.finish_transaction();
    match outcome {
        TraceOutcome::Done => {},
        TraceOutcome::Dispatch(text) => {
            return err_simulate(
                DEBANK_ERR_UNKNOWN,
                "debank: dispatch error: ".to_string().concat(text.as_str()),
            );
        },
        TraceOutcome::Api(text) => {
            return err_simulate(
                DEBANK_ERR_UNKNOWN,
                "debank: trace_call api error: ".to_string().concat(text.as_str()),
            );
        },
    }
    if listener.completed_frames.len() == 0 {
        return err_simulate(DEBANK_ERR_UNKNOWN, "debank: no trace produced".to_string());
    }
    let frame = &listener.completed_frames[0];
    assert(frame@ == listener@.completed_frames[0]);
    let (code, err) = frame_code(frame);
    let gas_used: u64 = frame.gas_used;
    let (fmt_traces, fmt_events) = frame_to_debank(frame, tx_id);
    let ghost tree = frame_traces(frame@, tx_id, seq![], root_id(tx_id));
    let traces = wire_traces(fmt_traces);
    let events = if code == 0 {
        wire_events(fmt_events, tx_id)
    } else {
        Vec::new()
    };
    let r = DebankSingleSimulateResult { code, err, gas_used, traces, events };
    assert(r@.traces =~= tree.map_values(|m: (bool, TraceModel)| wire_trace(m.1)));
    assert(r@.events =~= simulated(listener@, outcome, tx_id).events);
    r
}

/// How the runtime answered when it was asked to run a read-only call.
#[derive(Debug)]
pub enum CallOutcome {
    /// It ran the call: how that ended, what it returned and the gas it used.
    Done { exit_reason: ExitReason, value: Vec<u8>, used_gas: U256 },
    /// It refused to; the text of its error.
    Dispatch(String),
    /// It could not be asked; the text of the error.
    Api(String),
}

/// The low 64 bits of a number, read as a signed number.
pub open spec fn low_i64(n: nat) -> int {
    let low = (n % 0x1_0000_0000_0000_0000) as int;
    if low <= i64::MAX {
        low
    } else {
        low - 0x1_0000_0000_0000_0000
    }
}

/// The number with the same 64 bits, read as a signed number.
fn to_i64(n: u64) -> (r: i64)
    ensures
        r == low_i64(n as nat),
{
    if n <= 0x7fff_ffff_ffff_ffff {
        n as i64
    } else {
        let below: u64 = u64::MAX - n;
        -(below as i64) - 1
    }
}

/// The result is that of a read-only call which the runtime answered like this.
pub open spec fn is_call_result(r: CallModel, outcome: CallOutcome) -> bool {
    match outcome {
        CallOutcome::Done { exit_reason, value, used_gas } => {
            &&& (r.code, r.err) == reason_code(exit_reason)
            &&& !r.from_cache
            &&& r.result == value@
            &&& r.gas_used == low_i64(used_gas.value())
        },
        CallOutcome::Dispatch(text) => r == call_error(
            DEBANK_ERR_UNKNOWN,
            "debank: dispatch error: "@ + text@,
        ),
        CallOutcome::Api(text) => r == call_error(
            DEBANK_ERR_UNKNOWN,
            "debank: call api error: "@ + text@,
        ),
    }
}

/// The result of a read-only call, given how the runtime answered.
pub fn multicall_one(outcome: CallOutcome) -> (r: DebankSingleCallResult)
    ensures
        is_call_result(r@, outcome),
{
    match outcome {
        CallOutcome::Done { exit_reason, value, used_gas } => {
            let (code, err) = exit_reason_to_code(&exit_reason);
            DebankSingleCallResult {
                code,
                err,
                from_cache: false,
                result: value,
                gas_used: to_i64(used_gas.low_u64()),
            }
        },
        CallOutcome::Dispatch(text) => err_call(
            DEBANK_ERR_UNKNOWN,
            "debank: dispatch error: ".to_string().concat(text.as_str()),
        ),
        CallOutcome::Api(text) => err_call(
            DEBANK_ERR_UNKNOWN,
            "debank: call api error: ".to_string().concat(text.as_str()),
        ),
    }
}

/// What is wrong with the size of a batch for the method `method`, if it holds more than `max`
/// calls.
fn batch_error(len: usize, max: usize, method: &str) -> (r: Option<String>)
    ensures
        r is Some == (len > max),
        r is Some ==> r->0@ == "debank: "@ + method@ + " accepts at most "@ + decimal(max as nat)
            + " calls"@,
{
    if len > max {
        let limit = number_text(max);
        let message = "debank: ".to_string().concat(method).concat(" accepts at most ").concat(
            limit.as_str(),
        ).concat(" calls");
        Some(message)
    } else {
        None
    }
}

/// What is wrong with a batch of simulated transactions.
pub fn simulate_refusal(len: usize, max_batch_size: usize) -> (r: Option<String>)
    ensures
        r is Some == (len > max_batch_size),
        r is Some ==> r->0@ == "debank: "@ + "simulateTransactions"@ + " accepts at most "@
            + decimal(max_batch_size as nat) + " calls"@,
{
    batch_error(len, max_batch_size, "simulateTransactions")
}

/// What is wrong with a batch of read-only calls: it is too large, or it asks for a state other
/// than that of the chain.
pub fn multicall_refusal(len: usize, max_batch_size: usize, overrides: bool) -> (r: Option<String>)
    ensures
        r is Some == (len > max_batch_size || overrides),
        len > max_batch_size ==> r->0@ == "debank: "@ + "contractMultiCall"@ + " accepts at most "@
            + decimal(max_batch_size as nat) + " calls"@,
        len <= max_batch_size && overrides ==> r->0@
            == "debank: contractMultiCall state_override is not yet supported"@,
{
    match batch_error(len, max_batch_size, "contractMultiCall") {
        Some(message) => Some(message),
        None => if overrides {
            Some("debank: contractMultiCall state_override is not yet supported".to_string())
        } else {
            None
        },
    }
}

/// A simulated transaction that failed has no events, and one that could not be run has no traces
/// either.
pub proof fn failure_has_no_events(s: ListenerModel, outcome: TraceOutcome, tx_id: H256)
    ensures
        simulated(s, outcome, tx_id).code != 0 ==> simulated(s, outcome, tx_id).events.len() == 0,
        outcome !is Done ==> {
            &&& simulated(s, outcome, tx_id).code == DEBANK_ERR_UNKNOWN
            &&& simulated(s, outcome, tx_id).traces.len() == 0
        },
{
}

/// A simulated transaction succeeds exactly if it was run and its root frame did not fail.
pub proof fn success_means_the_root_succeeded(s: ListenerModel, outcome: TraceOutcome, tx_id: H256)
    ensures
        (simulated(s, outcome, tx_id).code == 0) == (outcome is Done && s.completed_frames.len() > 0
            && !s.completed_frames[0].failed),
{
}

/// The error is one whose message is taken from outside and happens to be that of another error.
pub open spec fn borrows_a_message(reason: ExitReason) -> bool {
    reason matches ExitReason::Error(ExitError::Other(message)) && (message@
        == "execution reverted"@ || message@ == "out of gas"@ || message@ == "out of funds"@)
}

/// A simulated transaction and a read-only call that end for the same reason get the same code,
/// unless the reason borrows the message of another one.
pub proof fn codes_agree(f: FrameModel, output: Seq<u8>, reason: ExitReason)
    requires
        !f.failed,
        !borrows_a_message(reason),
    ensures
        frame_code_of(ended(f, output, reason)).0 == reason_code(reason).0,
{
    reveal_strlit("execution reverted");
    reveal_strlit("out of gas");
    reveal_strlit("out of funds");
    reveal_strlit("fatal error");
    reveal_strlit("stack underflow");
    reveal_strlit("stack overflow");
    reveal_strlit("invalid jump");
    reveal_strlit("invalid range");
    reveal_strlit("designated invalid");
    reveal_strlit("call too deep");
    reveal_strlit("create collision");
    reveal_strlit("create contract limit");
    reveal_strlit("out of offset");
    reveal_strlit("unexpected error");
    let reverted = "execution reverted"@;
    let gas = "out of gas"@;
    let funds = "out of funds"@;
    assert(reverted.len() == 18 && reverted[0] == 'e');
    assert(gas.len() == 10 && gas[0] == 'o');
    assert(funds.len() == 12 && funds[0] == 'o');
    assert("designated invalid"@[0] == 'd');
    assert("invalid jump"@[0] == 'i');
    assert("out of offset"@.len() == 13);
}

} // verus!

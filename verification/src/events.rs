//! What the virtual machine reports while it runs a transaction.
use crate::primitives::{H160, H256, U256};
use vstd::prelude::*;

verus! {

/// How a frame ended successfully.
#[derive(Clone, Copy, Debug, PartialEq, Eq, Structural)]
pub enum ExitSucceed {
    Stopped,
    Returned,
    Suicided,
}

/// How a frame reverted.
#[derive(Clone, Copy, Debug, PartialEq, Eq, Structural)]
pub enum ExitRevert {
    Reverted,
}

/// An ordinary execution error.
#[derive(Debug)]
pub enum ExitError {
    StackUnderflow,
    StackOverflow,
    InvalidJump,
    InvalidRange,
    DesignatedInvalid,
    CallTooDeep,
    CreateCollision,
    CreateContractLimit,
    InvalidCode(u8),
    OutOfOffset,
    OutOfGas,
    OutOfFund,
    PCUnderflow,
    CreateEmpty,
    Other(String),
    MaxNonce,
}

/// An error that no program is supposed to meet.
#[derive(Debug)]
pub enum ExitFatal {
    NotSupported,
    UnhandledInterrupt,
    CallErrorAsFatal(ExitError),
    Other(String),
}

/// Why a frame ended.
#[derive(Debug)]
pub enum ExitReason {
    Succeed(ExitSucceed),
    Error(ExitError),
    Revert(ExitRevert),
    Fatal(ExitFatal),
}

/// What stopped the interpreter: the end of the frame, or an opcode that the machine has to serve.
#[derive(Debug)]
pub enum Capture<E, T> {
    Exit(E),
    Trap(T),
}

/// The account that a frame runs as, who called it, and the value it sees.
#[derive(Clone, Copy, Debug)]
pub struct Context {
    pub address: H160,
    pub caller: H160,
    pub apparent_value: U256,
}

/// A transfer of value between two accounts.
#[derive(Clone, Copy, Debug)]
pub struct Transfer {
    pub source: H160,
    pub target: H160,
    pub value: U256,
}

/// How the address of a created contract is chosen.
#[derive(Clone, Copy, Debug)]
pub enum CreateScheme {
    Legacy { caller: H160 },
    Create2 { caller: H160, code_hash: H256, salt: H256 },
    Fixed(H160),
}

/// The interpreter's stack at one step.
#[derive(Debug)]
pub struct Stack {
    pub data: Vec<H256>,
    pub limit: u64,
}

/// The interpreter's memory at one step.
#[derive(Debug)]
pub struct Memory {
    pub data: Vec<u8>,
    pub effective_len: U256,
    pub limit: u64,
}

/// The gas meter at one moment.
#[derive(Clone, Copy, Debug)]
pub struct Snapshot {
    pub gas_limit: u64,
    pub memory_gas: u64,
    pub used_gas: u64,
    pub refunded_gas: i64,
}

impl Snapshot {
    /// No more gas is spent than there was.
    pub open spec fn balanced(&self) -> bool {
        self.used_gas + self.memory_gas <= self.gas_limit
    }

    /// The gas that is left.
    pub open spec fn gas_left(&self) -> u64 {
        (self.gas_limit - self.used_gas - self.memory_gas) as u64
    }

    /// The gas that is left.
    pub fn gas(&self) -> (r: u64)
        requires
            self.balanced(),
        ensures
            r == self.gas_left(),
            r + self.used_gas + self.memory_gas == self.gas_limit,
    {
        self.gas_limit - self.used_gas - self.memory_gas
    }
}

/// A report of the gas meter.
#[derive(Debug)]
pub enum GasometerEvent {
    RecordCost { cost: u64, snapshot: Snapshot },
    RecordRefund { refund: i64, snapshot: Snapshot },
    RecordStipend { stipend: u64, snapshot: Snapshot },
    RecordDynamicCost { gas_cost: u64, memory_gas: u64, gas_refund: i64, snapshot: Snapshot },
    RecordTransaction { cost: u64, snapshot: Snapshot },
}

/// A report of the interpreter.
#[derive(Debug)]
pub enum RuntimeEvent {
    Step {
        context: Context,
        opcode: Vec<u8>,
        position: Result<u64, ExitReason>,
        stack: Option<Stack>,
        memory: Option<Memory>,
    },
    StepResult { result: Result<(), Capture<ExitReason, Vec<u8>>>, return_value: Vec<u8> },
    SLoad { address: H160, index: H256, value: H256 },
    SStore { address: H160, index: H256, value: H256 },
}

/// A report of the call machinery.
#[derive(Debug)]
pub enum EvmEvent {
    Call {
        code_address: H160,
        transfer: Option<Transfer>,
        input: Vec<u8>,
        target_gas: Option<u64>,
        is_static: bool,
        context: Context,
    },
    Create {
        caller: H160,
        address: H160,
        scheme: CreateScheme,
        value: U256,
        init_code: Vec<u8>,
        target_gas: Option<u64>,
    },
    Suicide { address: H160, target: H160, balance: U256 },
    Exit { reason: ExitReason, return_value: Vec<u8> },
    TransactCall { caller: H160, address: H160, value: U256, data: Vec<u8>, gas_limit: u64 },
    TransactCreate { caller: H160, value: U256, init_code: Vec<u8>, gas_limit: u64, address: H160 },
    TransactCreate2 {
        caller: H160,
        value: U256,
        init_code: Vec<u8>,
        salt: H256,
        gas_limit: u64,
        address: H160,
    },
    PrecompileSubcall {
        code_address: H160,
        transfer: Option<Transfer>,
        input: Vec<u8>,
        target_gas: Option<u64>,
        is_static: bool,
        context: Context,
    },
    Log { address: H160, topics: Vec<H256>, data: Vec<u8> },
}

/// Anything that is reported; `CallListNew` stands between two transactions.
#[derive(Debug)]
pub enum Event {
    Gasometer(GasometerEvent),
    Runtime(RuntimeEvent),
    Evm(EvmEvent),
    CallListNew(),
}

impl GasometerEvent {
    /// The state of the meter that the event carries.
    pub open spec fn snapshot(&self) -> Snapshot {
        match *self {
            GasometerEvent::RecordCost { snapshot, .. } => snapshot,
            GasometerEvent::RecordRefund { snapshot, .. } => snapshot,
            GasometerEvent::RecordStipend { snapshot, .. } => snapshot,
            GasometerEvent::RecordDynamicCost { snapshot, .. } => snapshot,
            GasometerEvent::RecordTransaction { snapshot, .. } => snapshot,
        }
    }

    /// The event updates the gas that is left to the current frame.
    pub open spec fn is_gas_reading(&self) -> bool {
        self is RecordCost || self is RecordStipend || self is RecordDynamicCost
    }
}

impl Event {
    /// A gas reading says of no meter that it spent more than it had.
    pub open spec fn consistent(&self) -> bool {
        *self matches Event::Gasometer(e) ==> e.is_gas_reading() ==> e.snapshot().balanced()
    }
}

/// Which details of a step the listener wants to be told.
#[derive(Clone, Copy, Debug, PartialEq, Eq, Structural)]
pub struct StepEventFilter {
    pub enable_memory: bool,
    pub enable_stack: bool,
}

} // verus!

//! Traces of the transactions of a block, one for each call.
use crate::primitives::{H160, H256, U256};
use vstd::prelude::*;

verus! {

/// The result of tracing one transaction of a block.
#[derive(Debug)]
pub struct BlockTransactionTrace<R> {
    pub tx_hash: H256,
    pub result: R,
    pub tx_position: u32,
}

/// How a contract was called.
#[derive(Clone, Copy, Debug, PartialEq, Eq, Structural)]
pub enum CallType {
    Call,
    CallCode,
    DelegateCall,
    StaticCall,
}

/// How a contract was created.
#[derive(Clone, Copy, Debug, PartialEq, Eq, Structural)]
pub enum CreateType {
    Create,
}

/// What a call did.
#[derive(Debug)]
pub enum TransactionTraceAction {
    Call { call_type: CallType, from: H160, gas: U256, input: Vec<u8>, to: H160, value: U256 },
    Create { creation_method: CreateType, from: H160, gas: U256, init: Vec<u8>, value: U256 },
    Suicide { address: H160, balance: U256, refund_address: H160 },
}

/// What came of a call that succeeded.
#[derive(Debug)]
pub enum TransactionTraceResult {
    Call { gas_used: U256, output: Vec<u8> },
    Create { address: H160, code: Vec<u8>, gas_used: U256 },
    Suicide,
}

/// How a call ended.
#[derive(Debug)]
pub enum TransactionTraceOutput {
    Result(TransactionTraceResult),
    Error(Vec<u8>),
}

/// The trace of one call.
#[derive(Debug)]
pub struct TransactionTrace {
    pub action: TransactionTraceAction,
    pub block_hash: H256,
    pub block_number: u32,
    pub output: TransactionTraceOutput,
    pub subtraces: u32,
    pub trace_address: Vec<u32>,
    pub transaction_hash: H256,
    pub transaction_position: u32,
}

/// What a call did, as a mathematical value.
#[verifier::ext_equal]
pub enum ActionModel {
    Call { call_type: CallType, from: H160, gas: U256, input: Seq<u8>, to: H160, value: U256 },
    Create { creation_method: CreateType, from: H160, gas: U256, init: Seq<u8>, value: U256 },
    Suicide { address: H160, balance: U256, refund_address: H160 },
}

/// How a call ended, as a mathematical value.
#[verifier::ext_equal]
pub enum OutputModel {
    Call { gas_used: U256, output: Seq<u8> },
    Create { address: H160, code: Seq<u8>, gas_used: U256 },
    Suicide,
    Error { message: Seq<u8> },
}

/// The trace of one call as a mathematical value.
#[verifier::ext_equal]
pub struct TxTraceModel {
    pub action: ActionModel,
    pub block_hash: H256,
    pub block_number: u32,
    pub output: OutputModel,
    pub subtraces: u32,
    pub trace_address: Seq<u32>,
    pub transaction_hash: H256,
    pub transaction_position: u32,
}

impl View for TransactionTraceAction {
    type V = ActionModel;

    open spec fn view(&self) -> ActionModel {
        match *self {
            TransactionTraceAction::Call {
                call_type,
                from,
                gas,
                input,
                to,
                value,
            } => ActionModel::Call { call_type, from, gas, input: input@, to, value },
            TransactionTraceAction::Create {
                creation_method,
                from,
                gas,
                init,
                value,
            } => ActionModel::Create { creation_method, from, gas, init: init@, value },
            TransactionTraceAction::Suicide {
                address,
                balance,
                refund_address,
            } => ActionModel::Suicide { address, balance, refund_address },
        }
    }
}

impl View for TransactionTraceOutput {
    type V = OutputModel;

    open spec fn view(&self) -> OutputModel {
        match *self {
            TransactionTraceOutput::Result(
                TransactionTraceResult::Call { gas_used, output },
            ) => OutputModel::Call { gas_used, output: output@ },
            TransactionTraceOutput::Result(
                TransactionTraceResult::Create { address, code, gas_used },
            ) => OutputModel::Create { address, code: code@, gas_used },
            TransactionTraceOutput::Result(TransactionTraceResult::Suicide) => OutputModel::Suicide,
            TransactionTraceOutput::Error(message) => OutputModel::Error { message: message@ },
        }
    }
}

impl View for TransactionTrace {
    type V = TxTraceModel;

    open spec fn view(&self) -> TxTraceModel {
        TxTraceModel {
            action: self.action@,
            block_hash: self.block_hash,
            block_number: self.block_number,
            output: self.output@,
            subtraces: self.subtraces,
            trace_address: self.trace_address@,
            transaction_hash: self.transaction_hash,
            transaction_position: self.transaction_position,
        }
    }
}

/// The traces as mathematical values.
pub open spec fn tx_traces_view(s: Seq<TransactionTrace>) -> Seq<TxTraceModel> {
    s.map_values(|t: TransactionTrace| t@)
}

impl TransactionTraceAction {
    /// The same action once more.
    pub fn duplicate(&self) -> (r: Self)
        ensures
            r@ == self@,
    {
        match self {
            TransactionTraceAction::Call {
                call_type,
                from,
                gas,
                input,
                to,
                value,
            } => TransactionTraceAction::Call {
                call_type: *call_type,
                from: *from,
                gas: *gas,
                input: input.clone(),
                to: *to,
                value: *value,
            },
            TransactionTraceAction::Create {
                creation_method,
                from,
                gas,
                init,
                value,
            } => TransactionTraceAction::Create {
                creation_method: *creation_method,
                from: *from,
                gas: *gas,
                init: init.clone(),
                value: *value,
            },
            TransactionTraceAction::Suicide {
                address,
                balance,
                refund_address,
            } => TransactionTraceAction::Suicide {
                address: *address,
                balance: *balance,
                refund_address: *refund_address,
            },
        }
    }
}

impl TransactionTraceOutput {
    /// The same output once more.
    pub fn duplicate(&self) -> (r: Self)
        ensures
            r@ == self@,
    {
        match self {
            TransactionTraceOutput::Result(
                TransactionTraceResult::Call { gas_used, output },
            ) => TransactionTraceOutput::Result(
                TransactionTraceResult::Call { gas_used: *gas_used, output: output.clone() },
            ),
            TransactionTraceOutput::Result(
                TransactionTraceResult::Create { address, code, gas_used },
            ) => TransactionTraceOutput::Result(
                TransactionTraceResult::Create {
                    address: *address,
                    code: code.clone(),
                    gas_used: *gas_used,
                },
            ),
            TransactionTraceOutput::Result(
                TransactionTraceResult::Suicide,
            ) => TransactionTraceOutput::Result(TransactionTraceResult::Suicide),
            TransactionTraceOutput::Error(message) => TransactionTraceOutput::Error(message.clone()),
        }
    }
}

impl TransactionTrace {
    /// The same trace once more.
    pub fn duplicate(&self) -> (r: Self)
        ensures
            r@ == self@,
    {
        let r = TransactionTrace {
            action: self.action.duplicate(),
            block_hash: self.block_hash,
            block_number: self.block_number,
            output: self.output.duplicate(),
            subtraces: self.subtraces,
            trace_address: self.trace_address.clone(),
            transaction_hash: self.transaction_hash,
            transaction_position: self.transaction_position,
        };
        assert(r@ =~= self@);
        r
    }
}

} // verus!

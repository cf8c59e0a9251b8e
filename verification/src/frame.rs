//! Call frames: one node of the call tree of a transaction.
use crate::events::{ExitError, ExitReason};
use crate::ordered::SortedSet;
use crate::primitives::{H160, H256, U256};
use vstd::prelude::*;

verus! {

/// What kind of call a frame is.
#[derive(Clone, Copy, Debug, PartialEq, Eq, Structural)]
pub enum DebankCallType {
    Call,
    CallCode,
    DelegateCall,
    StaticCall,
    Create,
    Suicide,
}

/// A log entry, as a frame emitted it.
#[derive(Debug)]
pub struct EventLog {
    /// The contract that emitted the log.
    pub address: H160,
    pub topics: Vec<H256>,
    pub data: Vec<u8>,
    /// The position among the calls and logs of the frame.
    pub position: usize,
    /// The running number of the log.
    pub log_index: usize,
}

/// One call or contract creation.
#[derive(Debug)]
pub struct CallFrame {
    pub call_type: DebankCallType,
    pub from: H160,
    /// The called or created account.
    pub to: H160,
    /// The gas that the frame was given.
    pub gas: u64,
    pub gas_used: u64,
    /// The gas that was left at the last reading.
    pub gas_remaining: u64,
    /// The gas at the first reading.
    pub start_gas: Option<u64>,
    pub input: Vec<u8>,
    pub output: Vec<u8>,
    pub value: U256,
    /// Why the frame failed; empty if it did not.
    pub error: String,
    /// The position among the calls and logs of the parent.
    pub pos_in_parent_trace: usize,
    /// The frame itself wrote to storage.
    pub self_storage_change: bool,
    /// The frame, or a call below it that succeeded, wrote to storage.
    pub storage_change: bool,
    pub failed: bool,
    /// A frame above this one failed.
    pub parent_failed: bool,
    pub calls: Vec<CallFrame>,
    pub logs: Vec<EventLog>,
    /// The path from the root: the index among the siblings at each level.
    pub trace_address: Vec<usize>,
    /// The end of the frame was reported.
    pub exited: bool,
    pub is_precompile: bool,
    /// The precompile called back into the machine.
    pub had_subcall: bool,
}

/// A log entry as a mathematical value.
#[verifier::ext_equal]
pub struct LogModel {
    pub address: H160,
    pub topics: Seq<H256>,
    pub data: Seq<u8>,
    pub position: nat,
    pub log_index: nat,
}

/// A frame as a mathematical value.
#[verifier::ext_equal]
pub struct FrameModel {
    pub call_type: DebankCallType,
    pub from: H160,
    pub to: H160,
    pub gas: u64,
    pub gas_used: u64,
    pub gas_remaining: u64,
    pub start_gas: Option<u64>,
    pub input: Seq<u8>,
    pub output: Seq<u8>,
    pub value: U256,
    pub error: Seq<char>,
    pub pos_in_parent_trace: nat,
    pub self_storage_change: bool,
    pub storage_change: bool,
    pub failed: bool,
    pub parent_failed: bool,
    pub calls: Seq<FrameModel>,
    pub logs: Seq<LogModel>,
    pub trace_address: Seq<nat>,
    pub exited: bool,
    pub is_precompile: bool,
    pub had_subcall: bool,
}

impl View for EventLog {
    type V = LogModel;

    open spec fn view(&self) -> LogModel {
        LogModel {
            address: self.address,
            topics: self.topics@,
            data: self.data@,
            position: self.position as nat,
            log_index: self.log_index as nat,
        }
    }
}

/// The log entries as mathematical values.
pub open spec fn logs_view(s: Seq<EventLog>) -> Seq<LogModel> {
    s.map_values(|l: EventLog| l@)
}

/// The numbers of a path.
pub open spec fn path_view(s: Seq<usize>) -> Seq<nat> {
    s.map_values(|n: usize| n as nat)
}

/// The frame as a mathematical value.
pub open spec fn frame_model(f: CallFrame) -> FrameModel
    decreases f,
{
    FrameModel {
        call_type: f.call_type,
        from: f.from,
        to: f.to,
        gas: f.gas,
        gas_used: f.gas_used,
        gas_remaining: f.gas_remaining,
        start_gas: f.start_gas,
        input: f.input@,
        output: f.output@,
        value: f.value,
        error: f.error@,
        pos_in_parent_trace: f.pos_in_parent_trace as nat,
        self_storage_change: f.self_storage_change,
        storage_change: f.storage_change,
        failed: f.failed,
        parent_failed: f.parent_failed,
        calls: Seq::new(
            f.calls@.len(),
            |i: int|
                if 0 <= i < f.calls@.len() {
                    frame_model(f.calls@[i])
                } else {
                    arbitrary()
                },
        ),
        logs: logs_view(f.logs@),
        trace_address: path_view(f.trace_address@),
        exited: f.exited,
        is_precompile: f.is_precompile,
        had_subcall: f.had_subcall,
    }
}

impl View for CallFrame {
    type V = FrameModel;

    open spec fn view(&self) -> FrameModel {
        frame_model(*self)
    }
}

/// The frames as mathematical values.
pub open spec fn frames_view(s: Seq<CallFrame>) -> Seq<FrameModel> {
    s.map_values(|f: CallFrame| f@)
}

/// A frame that has only just been entered.
pub open spec fn fresh_frame(
    call_type: DebankCallType,
    from: H160,
    to: H160,
    gas: u64,
    value: U256,
    input: Seq<u8>,
) -> FrameModel {
    FrameModel {
        call_type,
        from,
        to,
        gas,
        gas_used: 0,
        gas_remaining: gas,
        start_gas: None,
        input,
        output: seq![],
        value,
        error: seq![],
        pos_in_parent_trace: 0,
        self_storage_change: false,
        storage_change: false,
        failed: false,
        parent_failed: false,
        calls: seq![],
        logs: seq![],
        trace_address: seq![],
        exited: false,
        is_precompile: false,
        had_subcall: false,
    }
}

/// The message for an execution error.
pub open spec fn error_text(error: ExitError) -> Seq<char> {
    match error {
        ExitError::StackUnderflow => "stack underflow"@,
        ExitError::StackOverflow => "stack overflow"@,
        ExitError::InvalidJump => "invalid jump"@,
        ExitError::InvalidRange => "invalid range"@,
        ExitError::DesignatedInvalid => "designated invalid"@,
        ExitError::CallTooDeep => "call too deep"@,
        ExitError::CreateCollision => "create collision"@,
        ExitError::CreateContractLimit => "create contract limit"@,
        ExitError::OutOfOffset => "out of offset"@,
        ExitError::OutOfGas => "out of gas"@,
        ExitError::OutOfFund => "out of funds"@,
        ExitError::Other(message) => message@,
        _ => "unexpected error"@,
    }
}

/// The message for an execution error.
pub fn error_message(error: &ExitError) -> (r: String)
    ensures
        r@ == error_text(*error),
{
    match error {
        ExitError::StackUnderflow => "stack underflow".to_string(),
        ExitError::StackOverflow => "stack overflow".to_string(),
        ExitError::InvalidJump => "invalid jump".to_string(),
        ExitError::InvalidRange => "invalid range".to_string(),
        ExitError::DesignatedInvalid => "designated invalid".to_string(),
        ExitError::CallTooDeep => "call too deep".to_string(),
        ExitError::CreateCollision => "create collision".to_string(),
        ExitError::CreateContractLimit => "create contract limit".to_string(),
        ExitError::OutOfOffset => "out of offset".to_string(),
        ExitError::OutOfGas => "out of gas".to_string(),
        ExitError::OutOfFund => "out of funds".to_string(),
        ExitError::Other(message) => message.clone(),
        _ => "unexpected error".to_string(),
    }
}

/// The call type that an opcode asks for.
pub open spec fn opcode_call_type(opcode: Seq<u8>) -> Option<DebankCallType> {
    if opcode.len() == 0 {
        None
    } else if opcode[0] == 0xF1 {
        Some(DebankCallType::Call)
    } else if opcode[0] == 0xF2 {
        Some(DebankCallType::CallCode)
    } else if opcode[0] == 0xF4 {
        Some(DebankCallType::DelegateCall)
    } else if opcode[0] == 0xFA {
        Some(DebankCallType::StaticCall)
    } else {
        None
    }
}

/// The call type that an opcode asks for.
pub fn call_type_from_opcode(opcode: &[u8]) -> (r: Option<DebankCallType>)
    ensures
        r == opcode_call_type(opcode@),
{
    match opcode.first() {
        Some(0xF1) => Some(DebankCallType::Call),
        Some(0xF2) => Some(DebankCallType::CallCode),
        Some(0xF4) => Some(DebankCallType::DelegateCall),
        Some(0xFA) => Some(DebankCallType::StaticCall),
        _ => None,
    }
}

/// The frame once its end is reported with `reason` and `output`.
pub open spec fn with_outcome(f: FrameModel, output: Seq<u8>, reason: ExitReason) -> FrameModel {
    match reason {
        ExitReason::Succeed(_) => FrameModel { exited: true, output, ..f },
        ExitReason::Error(e) => FrameModel {
            exited: true,
            failed: true,
            error: error_text(e),
            to: if f.call_type == DebankCallType::Create {
                H160::zero()
            } else {
                f.to
            },
            ..f
        },
        ExitReason::Revert(_) => FrameModel {
            exited: true,
            failed: true,
            error: "execution reverted"@,
            output,
            ..f
        },
        ExitReason::Fatal(_) => FrameModel { exited: true, failed: true, error: "fatal error"@, ..f },
    }
}

/// The frame once its gas is settled: the first reading, if there was one, is the gas it was
/// given, and what is no longer left of that was used.
pub open spec fn with_gas_settled(f: FrameModel) -> FrameModel {
    let gas = match f.start_gas {
        Some(g) => g,
        None => f.gas,
    };
    FrameModel {
        gas,
        gas_used: if gas >= f.gas_remaining {
            (gas - f.gas_remaining) as u64
        } else {
            0
        },
        ..f
    }
}

impl CallFrame {
    /// A frame that has only just been entered.
    pub fn new(
        call_type: DebankCallType,
        from: H160,
        to: H160,
        gas: u64,
        value: U256,
        input: Vec<u8>,
    ) -> (r: Self)
        ensures
            r@ == fresh_frame(call_type, from, to, gas, value, input@),
            r.input == input,
    {
        let r = CallFrame {
            call_type,
            from,
            to,
            gas,
            gas_used: 0,
            gas_remaining: gas,
            start_gas: None,
            input,
            output: Vec::new(),
            value,
            error: String::new(),
            pos_in_parent_trace: 0,
            self_storage_change: false,
            storage_change: false,
            failed: false,
            parent_failed: false,
            calls: Vec::new(),
            logs: Vec::new(),
            trace_address: Vec::new(),
            exited: false,
            is_precompile: false,
            had_subcall: false,
        };
        assert(r@.calls =~= seq![]);
        assert(r@.logs =~= seq![]);
        assert(r@.trace_address =~= seq![]);
        r
    }

    /// Takes in how the frame ended.
    pub fn process_output(&mut self, output: Vec<u8>, reason: &ExitReason)
        ensures
            final(self)@ == with_outcome(old(self)@, output@, *reason),
            final(self).calls == old(self).calls,
            final(self).logs == old(self).logs,
    {
        self.exited = true;
        match reason {
            ExitReason::Succeed(_) => {
                self.output = output;
            },
            ExitReason::Error(error) => {
                self.failed = true;
                self.error = error_message(error);
                if self.call_type == DebankCallType::Create {
                    self.to = H160::zero();
                }
            },
            ExitReason::Revert(_) => {
                self.failed = true;
                self.error = "execution reverted".to_string();
                self.output = output;
            },
            ExitReason::Fatal(_) => {
                self.failed = true;
                self.error = "fatal error".to_string();
            },
        }
        assert(self@ =~= with_outcome(old(self)@, output@, *reason));
    }

    /// Works out the gas given to the frame and the gas it used.
    pub fn settle_gas(&mut self)
        ensures
            final(self)@ == with_gas_settled(old(self)@),
            final(self).calls == old(self).calls,
            final(self).logs == old(self).logs,
    {
        if let Some(sg) = self.start_gas {
            self.gas = sg;
        }
        self.gas_used = self.gas.saturating_sub(self.gas_remaining);
        assert(self@ =~= with_gas_settled(old(self)@));
    }
}

/// The frame whose calls know whether a frame above them failed.
pub open spec fn with_parent_failed(f: FrameModel, parent_failed: bool) -> FrameModel
    decreases f,
{
    let failed = f.failed || parent_failed;
    FrameModel {
        calls: Seq::new(
            f.calls.len(),
            |i: int|
                if 0 <= i < f.calls.len() {
                    FrameModel { parent_failed: failed, ..with_parent_failed(f.calls[i], failed) }
                } else {
                    arbitrary()
                },
        ),
        ..f
    }
}

/// Tells every frame below `frame` whether one above it failed.
pub fn set_parent_failed(frame: &mut CallFrame, parent_failed: bool)
    ensures
        final(frame)@ == with_parent_failed(old(frame)@, parent_failed),
    decreases *old(frame),
{
    let failed = frame.failed || parent_failed;
    let ghost before = *frame;
    let mut i: usize = 0;
    while i < frame.calls.len()
        invariant
            i <= frame.calls@.len(),
            before == *old(frame),
            failed == (before.failed || parent_failed),
            frame.calls@.len() == before.calls@.len(),
            (CallFrame { calls: before.calls, ..*frame }) == before,
            forall|j: int| i <= j < frame.calls@.len() ==> frame.calls@[j] == before.calls@[j],
            forall|j: int|
                0 <= j < i ==> (#[trigger] frame.calls@[j])@ == (FrameModel {
                    parent_failed: failed,
                    ..with_parent_failed(before.calls@[j]@, failed)
                }),
        decreases frame.calls@.len() - i,
    {
        assert(decreases_to!(before => before.calls@[i as int]));
        let child = &mut frame.calls[i];
        set_parent_failed(child, failed);
        child.parent_failed = failed;
        i += 1;
    }
    assert(frame@.calls =~= with_parent_failed(before@, parent_failed).calls);
}

/// The contract whose storage a frame writes to: the caller's for a delegate call.
pub open spec fn storage_owner(f: FrameModel) -> H160 {
    if f.call_type == DebankCallType::DelegateCall {
        f.from
    } else {
        f.to
    }
}

/// The contracts that the frame and the frames below it wrote to.
pub open spec fn storage_writers(f: FrameModel) -> Set<H160>
    decreases f, f.calls.len() + 1,
{
    let own = if f.self_storage_change {
        set![storage_owner(f)]
    } else {
        set![]
    };
    own + storage_writers_below(f, f.calls.len() as int)
}

/// The contracts that the first `n` calls of the frame and the frames below these wrote to.
pub open spec fn storage_writers_below(f: FrameModel, n: int) -> Set<H160>
    decreases f, n,
{
    if n <= 0 || n > f.calls.len() {
        set![]
    } else {
        storage_writers_below(f, n - 1) + storage_writers(f.calls[n - 1])
    }
}

/// The frame whose `storage_change` tells of the calls below it too: a call that wrote to storage
/// and did not fail makes its parent one that did.
pub open spec fn with_storage_change(f: FrameModel) -> FrameModel
    decreases f,
{
    let calls = Seq::new(
        f.calls.len(),
        |i: int|
            if 0 <= i < f.calls.len() {
                with_storage_change(f.calls[i])
            } else {
                arbitrary()
            },
    );
    FrameModel {
        calls,
        storage_change: f.storage_change || exists|i: int|
            0 <= i < calls.len() && (#[trigger] calls[i]).storage_change && !calls[i].failed,
        ..f
    }
}

/// Works out `storage_change` for the whole tree and notes the contracts that were written to.
pub fn set_storage_change(frame: &mut CallFrame, storage_contracts: &mut SortedSet<H160>)
    ensures
        final(frame)@ == with_storage_change(old(frame)@),
        final(storage_contracts)@ == old(storage_contracts)@ + storage_writers(old(frame)@),
    decreases *old(frame),
{
    let ghost before = *frame;
    let ghost noted = storage_contracts@;
    if frame.self_storage_change {
        match frame.call_type {
            DebankCallType::DelegateCall => {
                storage_contracts.insert(frame.from);
            },
            _ => {
                storage_contracts.insert(frame.to);
            },
        }
    }
    let ghost own = if before.self_storage_change {
        set![storage_owner(before@)]
    } else {
        set![]
    };
    assert(storage_contracts@ =~= noted + own);
    let ghost calls = with_storage_change(before@).calls;
    let mut sub_storage_change = false;
    let mut i: usize = 0;
    while i < frame.calls.len()
        invariant
            i <= frame.calls@.len(),
            before == *old(frame),
            calls == with_storage_change(before@).calls,
            frame.calls@.len() == before.calls@.len(),
            (CallFrame { calls: before.calls, ..*frame }) == before,
            forall|j: int| i <= j < frame.calls@.len() ==> frame.calls@[j] == before.calls@[j],
            forall|j: int| 0 <= j < i ==> (#[trigger] frame.calls@[j])@ == calls[j],
            sub_storage_change == exists|j: int|
                0 <= j < i && (#[trigger] calls[j]).storage_change && !calls[j].failed,
            storage_contracts@ == noted + own + storage_writers_below(before@, i as int),
        decreases frame.calls@.len() - i,
    {
        assert(decreases_to!(before => before.calls@[i as int]));
        assert(before@.calls[i as int] == before.calls@[i as int]@);
        let child = &mut frame.calls[i];
        set_storage_change(child, storage_contracts);
        if child.storage_change && !child.failed {
            sub_storage_change = true;
        }
        assert(child@ == calls[i as int]);
        i += 1;
        assert(storage_contracts@ =~= noted + own + storage_writers_below(before@, i as int));
    }
    if sub_storage_change {
        frame.storage_change = true;
    }
    assert(frame@.calls =~= calls);
    assert(frame@ =~= with_storage_change(before@));
    assert(storage_contracts@ =~= noted + storage_writers(before@));
}

} // verus!

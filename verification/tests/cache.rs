//! Who waits for which block, and what becomes of its traces.
use debank_tracing::block_trace::{
    TransactionTrace, TransactionTraceAction, TransactionTraceOutput, TransactionTraceResult,
};
use debank_tracing::cache::{
    give_up_message, label_traces, replay_plan, task_result, tell_all, ReplayPlan, RequestAction,
    TaskOutcome, WaitList, TRACING_TIMEOUT_SECS, WAIT_LIMIT_NANOS,
};
use debank_tracing::primitives::{H160, H256, U256};
use std::sync::Arc;

const SECOND: u64 = 1_000_000_000;

fn block(n: u8) -> H256 {
    H256([n; 32])
}

#[test]
fn block_is_traced_once_for_all_who_ask() {
    let mut list = WaitList::new();
    assert_eq!(list.request_get_traces(block(1), 10, 0, false), RequestAction::Spawn);
    assert_eq!(list.request_get_traces(block(1), 11, 5, false), RequestAction::Join);
    assert_eq!(list.request_get_traces(block(2), 12, 5, false), RequestAction::Spawn);
    assert_eq!(list.request_get_traces(block(1), 13, 6, false), RequestAction::Join);
    assert_eq!(list.len(), 2);
    assert_eq!(list.blocking_finished(block(1)), Some(vec![10, 11, 13]));
    assert_eq!(list.blocking_finished(block(1)), None);
    assert_eq!(list.len(), 1);
    assert_eq!(list.request_get_traces(block(1), 14, 7, false), RequestAction::Spawn);
}

#[test]
fn cached_traces_are_handed_out_at_once() {
    let mut list = WaitList::new();
    assert_eq!(list.request_get_traces(block(1), 10, 0, true), RequestAction::Reply);
    assert_eq!(list.len(), 0);
}

#[test]
fn blocks_waited_for_too_long_are_given_up() {
    assert_eq!(TRACING_TIMEOUT_SECS, 60);
    assert_eq!(WAIT_LIMIT_NANOS, 70 * SECOND);
    let mut list = WaitList::new();
    list.request_get_traces(block(3), 1, 0, false);
    list.request_get_traces(block(2), 2, 1, false);
    list.request_get_traces(block(3), 3, 60 * SECOND, false);
    list.request_get_traces(block(1), 4, 2 * SECOND, false);
    assert_eq!(list.cleanup_wait_list(70 * SECOND), (0, vec![]));
    assert_eq!(list.cleanup_wait_list(70 * SECOND + 2), (2, vec![2, 1, 3]));
    assert_eq!(list.len(), 1);
    assert_eq!(list.cleanup_wait_list(0), (0, vec![]));
    assert_eq!(list.cleanup_wait_list(80 * SECOND), (1, vec![4]));
    assert_eq!(list.len(), 0);
    assert_eq!(
        give_up_message(),
        "Trace request timeout (task failed or was cancelled)"
    );
}

#[test]
fn tracing_comes_to_a_result() {
    assert_eq!(
        task_result(TaskOutcome::TimedOut).unwrap_err(),
        "Tracing timeout after 60 seconds"
    );
    assert_eq!(
        task_result(TaskOutcome::Panicked("why".to_string())).unwrap_err(),
        "Tracing panicked: why"
    );
    assert_eq!(
        task_result(TaskOutcome::Done(Err("no".to_string()))).unwrap_err(),
        "no"
    );
    assert_eq!(task_result(TaskOutcome::Done(Ok(vec![]))).unwrap().len(), 0);
}

#[test]
fn replay_depends_on_the_runtime() {
    assert_eq!(replay_plan(5, 0), ReplayPlan::TraceBlock);
    assert_eq!(replay_plan(4, 5), ReplayPlan::InitializeThenTrace);
    assert_eq!(replay_plan(4, 4), ReplayPlan::InitializeBeforeVersion5ThenTrace);
}

fn trace(position: u32, output: TransactionTraceOutput) -> TransactionTrace {
    TransactionTrace {
        action: TransactionTraceAction::Suicide {
            address: H160([1; 20]),
            balance: U256::zero(),
            refund_address: H160([2; 20]),
        },
        block_hash: H256::zero(),
        block_number: 0,
        output,
        subtraces: 4,
        trace_address: vec![1, 2],
        transaction_hash: H256::zero(),
        transaction_position: position,
    }
}

fn error(text: &str) -> TransactionTraceOutput {
    TransactionTraceOutput::Error(text.as_bytes().to_vec())
}

fn message(t: &TransactionTrace) -> String {
    match &t.output {
        TransactionTraceOutput::Error(m) => String::from_utf8(m.clone()).unwrap(),
        _ => panic!("no error"),
    }
}

#[test]
fn traces_are_labelled_and_unknown_ones_dropped() {
    let traces = vec![
        trace(0, error("execution reverted")),
        trace(7, error("x")),
        trace(1, error("execution reverted!")),
        trace(1, TransactionTraceOutput::Result(TransactionTraceResult::Suicide)),
    ];
    let statuses = vec![(0, H256([1; 32])), (1, H256([2; 32])), (1, H256([3; 32]))];
    let out = label_traces(traces, &statuses, H256([9; 32]), 44);
    assert_eq!(out.len(), 3);
    assert_eq!(message(&out[0]), "Reverted");
    assert_eq!(out[0].transaction_hash, H256([1; 32]));
    assert_eq!(message(&out[1]), "execution reverted!");
    assert_eq!(out[1].transaction_hash, H256([3; 32]));
    for t in &out {
        assert_eq!(t.block_hash, H256([9; 32]));
        assert_eq!(t.block_number, 44);
        assert_eq!(t.subtraces, 4);
        assert_eq!(t.trace_address, vec![1, 2]);
    }
    assert!(matches!(out[2].output, TransactionTraceOutput::Result(_)));
}

#[test]
fn traces_are_shared_by_all_who_waited_and_kept() {
    let mut list = WaitList::new();
    list.request_get_traces(block(1), 10, 0, false);
    list.request_get_traces(block(1), 11, 5, false);
    list.request_get_traces(block(2), 12, 5, false);
    let delivery = list
        .finish(block(1), Ok(vec![trace(0, error("a")), trace(1, error("b"))]))
        .unwrap();
    let keep = delivery.keep.unwrap();
    assert_eq!(keep.len(), 2);
    assert_eq!(delivery.answers.len(), 2);
    assert_eq!((delivery.answers[0].0, delivery.answers[1].0), (10, 11));
    for (_, answer) in &delivery.answers {
        assert!(Arc::ptr_eq(answer.as_ref().unwrap(), &keep));
    }
    assert_eq!(list.len(), 1);
    // Nobody waits any more.
    assert!(list.finish(block(1), Ok(vec![])).is_none());
}

#[test]
fn failure_is_told_to_all_who_waited_and_not_kept() {
    let mut list = WaitList::new();
    list.request_get_traces(block(1), 10, 0, false);
    list.request_get_traces(block(1), 11, 5, false);
    let delivery = list.finish(block(1), Err("no".to_string())).unwrap();
    assert!(delivery.keep.is_none());
    let told: Vec<(u64, String)> = delivery
        .answers
        .iter()
        .map(|(w, a)| (*w, a.as_ref().unwrap_err().to_string()))
        .collect();
    assert_eq!(told, vec![(10, "no".to_string()), (11, "no".to_string())]);
    assert_eq!(list.request_get_traces(block(1), 12, 6, false), RequestAction::Spawn);
}

#[test]
fn one_answer_is_told_to_all() {
    let answers = tell_all(vec![4, 2], &Err(Arc::new(give_up_message())));
    assert_eq!(answers.len(), 2);
    assert_eq!((answers[0].0, answers[1].0), (4, 2));
    assert!(answers.iter().all(|(_, a)| **a.as_ref().unwrap_err() == give_up_message()));
    assert!(tell_all(vec![], &Err(Arc::new(String::new()))).is_empty());
}

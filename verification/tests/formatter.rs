//! What is handed out of the frames of a block.
use debank_tracing::formatter::{
    build_state_diff, format_state_diff, frame_to_debank, frame_to_trace, Formatter,
};
use debank_tracing::frame::{CallFrame, DebankCallType, EventLog};
use debank_tracing::listener::Listener;
use debank_tracing::ordered::{SortedMap, SortedSet};
use debank_tracing::primitives::{H160, H256, U256};
use debank_tracing::state_diff::{address_to_hash, NewAccount};

fn at(n: u8) -> H160 {
    H160([n; 20])
}

fn frame(call_type: DebankCallType, to: u8) -> CallFrame {
    CallFrame::new(call_type, at(1), at(to), 10, U256::from_u64(3), vec![to])
}

fn entry(position: usize, log_index: usize, topics: Vec<H256>) -> EventLog {
    EventLog {
        address: at(9),
        topics,
        data: vec![1],
        position,
        log_index,
    }
}

/// A root with a log at position 0, a call at 1 that failed and has a log of its own, and a call
/// below that one.
fn tree() -> CallFrame {
    let mut root = frame(DebankCallType::Call, 2);
    root.exited = true;
    root.logs.push(entry(0, 0, vec![H256([5; 32]), H256([6; 32]), H256([7; 32])]));
    let mut child = frame(DebankCallType::DelegateCall, 3);
    child.pos_in_parent_trace = 1;
    child.trace_address = vec![0];
    child.failed = true;
    child.error = "execution reverted".to_string();
    child.logs.push(entry(0, 1, vec![]));
    let mut grandchild = frame(DebankCallType::Create, 4);
    grandchild.pos_in_parent_trace = 1;
    grandchild.trace_address = vec![0, 0];
    grandchild.logs.push(entry(0, 2, vec![H256([8; 32])]));
    child.calls.push(grandchild);
    root.calls.push(child);
    root
}

fn no_account(_: H160) -> Option<(NewAccount, Vec<u8>)> {
    None
}

#[test]
fn identifiers_are_those_of_the_tree() {
    let mut listener = Listener::new();
    listener.callstack.push(tree());
    let out = Formatter::format(
        listener,
        H256::zero(),
        H256::zero(),
        &[H256([0x11; 32])],
        no_account,
    );
    assert_eq!(out.traces[0].id, "7af0b4dab570a8f9147dac2da287366d");
    assert_eq!(out.traces[0].parent_trace_id, "");
    assert_eq!(out.error_traces[0].id, "5e9786872acc10d8681a5830c12af5a0");
    assert_eq!(out.error_traces[0].parent_trace_id, out.traces[0].id);
    assert_eq!(out.events[0].id, "4788a25788d54ba0b32e94f8a40ced15");
    assert_eq!(out.events[0].parent_trace_id, out.traces[0].id);
    assert_eq!(out.error_events[1].id, "a9c3d4e98cf118a27f2b02476b53200c");
    assert_eq!(out.error_events[1].parent_trace_id, out.error_traces[0].id);
}

#[test]
fn failed_calls_and_lost_events_are_kept_apart() {
    let mut listener = Listener::new();
    listener.callstack.push(tree());
    let out = Formatter::format(
        listener,
        H256::zero(),
        H256::zero(),
        &[H256([0x11; 32])],
        no_account,
    );
    // The call below the failed one did not fail itself, but its event did not last.
    assert_eq!(out.traces.len(), 2);
    assert_eq!(out.error_traces.len(), 1);
    assert_eq!(out.events.len(), 1);
    assert_eq!(out.error_events.len(), 2);
    assert_eq!(out.error_events[0].idx, 2);
    assert_eq!(out.error_events[1].idx, 1);
    assert_eq!(out.traces[1].trace_address, vec![0, 0]);
    assert_eq!(out.error_traces[0].error, "execution reverted");
    assert_eq!(out.error_traces[0].subtraces, 1);
}

#[test]
fn selector_is_the_first_topic() {
    let mut listener = Listener::new();
    listener.callstack.push(tree());
    let out = Formatter::format(listener, H256::zero(), H256::zero(), &[], no_account);
    assert_eq!(out.events[0].selector, format!("0x{}", "05".repeat(32)));
    assert_eq!(
        out.events[0].topics,
        vec![
            format!("0x{}", "06".repeat(32)),
            format!("0x{}", "07".repeat(32))
        ]
    );
    assert_eq!(out.error_events[1].selector, "");
    assert!(out.error_events[0].topics.is_empty());
    assert_eq!(out.error_events[0].selector, format!("0x{}", "08".repeat(32)));
}

#[test]
fn transaction_without_a_hash_has_the_zero_hash() {
    let mut listener = Listener::new();
    listener.callstack.push(frame(DebankCallType::Call, 2));
    let out = Formatter::format(listener, H256::zero(), H256::zero(), &[], no_account);
    assert_eq!(out.error_traces[0].tx_id, H256::zero());
    assert_eq!(out.error_traces[0].id, "249657c7bf9bee925f36e85e134136b9");
}

#[test]
fn call_types_have_their_names() {
    for (call_type, kind, name) in [
        (DebankCallType::Call, "call", "call"),
        (DebankCallType::CallCode, "call", "callcode"),
        (DebankCallType::DelegateCall, "call", "delegatecall"),
        (DebankCallType::StaticCall, "call", "staticcall"),
        (DebankCallType::Create, "create", ""),
        (DebankCallType::Suicide, "suicide", ""),
    ] {
        let t = frame_to_trace(&frame(call_type, 2), H256([1; 32]), "p".to_string(), "i");
        assert_eq!(t.call_create_type, kind);
        assert_eq!(t.call_type, name);
        assert_eq!(t.id, "i");
        assert_eq!(t.parent_trace_id, "p");
        assert_eq!(t.gas_limit, 10);
        assert_eq!(t.value, U256::from_u64(3));
    }
}

#[test]
fn simulation_gets_all_traces_and_the_events_that_lasted() {
    let mut root = tree();
    root.calls[0].calls[0].parent_failed = true;
    let (traces, events) = frame_to_debank(&root, H256([0x11; 32]));
    let ids: Vec<usize> = traces.iter().map(|t| t.trace_address.len()).collect();
    assert_eq!(ids, vec![0, 1, 2]);
    assert_eq!(traces[1].id, "5e9786872acc10d8681a5830c12af5a0");
    assert_eq!(events.len(), 1);
    assert_eq!(events[0].idx, 0);
}

fn account(address: u8, code_hash: u8) -> NewAccount {
    NewAccount {
        address: H256([address; 32]),
        balance: U256::from_u64(address as u64),
        nonce: 1,
        code_hash: H256([code_hash; 32]),
    }
}

fn changes() -> Listener {
    let mut l = Listener::new();
    for n in [1u8, 2, 3, 4] {
        l.touched_accounts.insert(at(n));
    }
    l.deleted_accounts.insert(at(4));
    l.created_accounts.insert(at(2));
    l.created_accounts.insert(at(3));
    let mut slots = SortedMap::new();
    slots.insert(H256([2; 32]), H256([0; 32]));
    let mut one = [0u8; 32];
    one[31] = 1;
    slots.insert(H256([1; 32]), H256(one));
    l.storage_changes.insert(at(8), slots);
    l.storage_changes.insert(at(7), SortedMap::new());
    l
}

#[test]
fn state_diff_asks_for_what_is_left() {
    let diff = format_state_diff(&changes(), H256([1; 32]), H256([2; 32]), |a: H160| {
        // The hashes are in the opposite order of the addresses.
        let n = a.0[0];
        assert_ne!(n, 4);
        if n == 1 {
            Some((account(0x30, 0xc1), vec![0xee]))
        } else if n == 2 {
            Some((account(0x20, 0xc2), vec![0xdd]))
        } else {
            Some((account(0x10, 0xc3), vec![]))
        }
    });
    assert_eq!(diff.hash, H256([1; 32]));
    assert_eq!(diff.parent_hash, H256([2; 32]));
    let order: Vec<u8> = diff.new_accounts.iter().map(|a| a.address.0[0]).collect();
    assert_eq!(order, vec![0x10, 0x20, 0x30]);
    // Only a created account with code has its code listed.
    assert_eq!(diff.new_codes.len(), 1);
    assert_eq!(diff.new_codes[0].code_hash, H256([0xc2; 32]));
    assert_eq!(diff.new_codes[0].code, vec![0xdd]);
    assert_eq!(diff.deleted_accounts, vec![address_to_hash(&at(4))]);
    assert_eq!(diff.storage_diff.len(), 1);
    assert_eq!(diff.storage_diff[0].address, address_to_hash(&at(8)));
    assert_eq!(diff.storage_diff[0].values[0].index, H256([1; 32]));
    assert_eq!(diff.storage_diff[0].values[0].value, U256::from_u64(1));
    assert_eq!(diff.storage_diff[0].values[1].value, U256::zero());
}

#[test]
fn unknown_accounts_are_left_out() {
    let diff = format_state_diff(&changes(), H256::zero(), H256::zero(), no_account);
    assert!(diff.new_accounts.is_empty());
    assert!(diff.new_codes.is_empty());
}

#[test]
fn accounts_with_one_hash_stay_in_order_and_the_last_code_counts() {
    let mut first = account(5, 0xaa);
    first.nonce = 1;
    let mut second = account(5, 0xaa);
    second.nonce = 2;
    let diff = build_state_diff(
        &changes(),
        H256::zero(),
        H256::zero(),
        vec![
            (at(2), Some((first, vec![1]))),
            (at(9), None),
            (at(3), Some((second, vec![2]))),
        ],
    );
    assert_eq!(diff.new_accounts[0].nonce, 1);
    assert_eq!(diff.new_accounts[1].nonce, 2);
    assert_eq!(diff.new_codes.len(), 1);
    assert_eq!(diff.new_codes[0].code, vec![2]);
}

#[test]
fn contracts_written_to_are_listed_in_order() {
    let mut listener = Listener::new();
    listener.storage_contracts.insert(at(9));
    listener.storage_contracts.insert(at(3));
    let out = Formatter::format(listener, H256::zero(), H256::zero(), &[], no_account);
    assert_eq!(out.storage_contracts, vec![at(3), at(9)]);
}

#[test]
fn sorted_collections_keep_their_order() {
    let mut set = SortedSet::new();
    for n in [5u8, 1, 3, 1] {
        set.insert(at(n));
    }
    assert_eq!(set.len(), 3);
    assert_eq!(*set.at(0), at(1));
    assert_eq!(*set.at(2), at(5));
    set.remove(&at(3));
    assert!(!set.contains(&at(3)));
    let mut map = SortedMap::new();
    assert!(map.is_empty());
    map.insert(at(2), 'b');
    map.insert(at(1), 'a');
    map.insert(at(2), 'c');
    assert_eq!(map.len(), 2);
    assert_eq!(map.entry(1), (&at(2), &'c'));
    assert_eq!(map.remove(&at(2)), Some('c'));
    assert_eq!(map.remove(&at(2)), None);
    assert_eq!(map.get(&at(1)), Some(&'a'));
}

#[test]
fn order_of_the_changes_does_not_matter() {
    let info = |a: H160| {
        let account = NewAccount {
            address: address_to_hash(&a),
            balance: U256::from_u64(a.0[0] as u64),
            nonce: 1,
            code_hash: H256([a.0[0]; 32]),
        };
        Some((account, vec![a.0[0]]))
    };
    let diff = |order: &[u8]| {
        let mut listener = Listener::new();
        for n in order {
            listener.touched_accounts.insert(at(*n));
            listener.created_accounts.insert(at(*n));
            listener.deleted_accounts.insert(at(*n + 100));
            let mut slots = SortedMap::new();
            for k in order {
                slots.insert(H256([*k; 32]), H256([1; 32]));
            }
            listener.storage_changes.insert(at(*n), slots);
        }
        format_state_diff(&listener, H256([1; 32]), H256([2; 32]), info)
    };
    let first = diff(&[1, 2, 3, 4, 5]);
    let second = diff(&[4, 1, 5, 3, 2]);
    assert_eq!(format!("{:?}", first), format!("{:?}", second));
    assert_eq!(first.new_accounts.len(), 5);
    for i in 1..5 {
        assert!(first.new_accounts[i - 1].address.0 < first.new_accounts[i].address.0);
        assert!(first.new_codes[i - 1].code_hash.0 < first.new_codes[i].code_hash.0);
        let values = &first.storage_diff[0].values;
        assert!(values[i - 1].index.0 < values[i].index.0);
    }
}

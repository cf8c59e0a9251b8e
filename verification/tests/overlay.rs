//! What the storage overlay of a block says of its changes.
use debank_tracing::overlay::{scan_entries, scan_overlay};
use debank_tracing::primitives::{H160, H256};
use parity_scale_codec::Encode;
use sp_core::hashing::{blake2_128, twox_128};

fn sys_account_key(addr: H160) -> Vec<u8> {
    let prefix: Vec<u8> = [twox_128(b"System").as_slice(), twox_128(b"Account").as_slice()]
        .concat();
    let hashed = blake2_128(&addr.0);
    [
        prefix.as_slice(),
        hashed.as_slice(),
        &addr.0,
    ]
    .concat()
}

fn evm_codes_key(addr: H160) -> Vec<u8> {
    let prefix: Vec<u8> = [
        twox_128(b"EVM").as_slice(),
        twox_128(b"AccountCodes").as_slice(),
    ]
    .concat();
    let hashed = blake2_128(&addr.0);
    [
        prefix.as_slice(),
        hashed.as_slice(),
        &addr.0,
    ]
    .concat()
}

fn evm_storages_key(addr: H160, slot: H256) -> Vec<u8> {
    let prefix: Vec<u8> = [
        twox_128(b"EVM").as_slice(),
        twox_128(b"AccountStorages").as_slice(),
    ]
    .concat();
    let addr_hash = blake2_128(&addr.0);
    let slot_hash = blake2_128(&slot.0);
    [
        prefix.as_slice(),
        addr_hash.as_slice(),
        &addr.0,
        slot_hash.as_slice(),
        &slot.0,
    ]
    .concat()
}

#[test]
fn system_account_some_goes_to_changed() {
    let addr = H160([0xAA; 20]);
    let input = vec![(sys_account_key(addr), Some(vec![1, 2, 3]))];
    let d = scan_overlay(&input);
    assert!(d.changed_accounts.contains(&addr));
    assert!(d.deleted_accounts.is_empty());
}

#[test]
fn system_account_none_goes_to_deleted() {
    let addr = H160([0xBB; 20]);
    let input = vec![(sys_account_key(addr), None)];
    let d = scan_overlay(&input);
    assert!(d.deleted_accounts.contains(&addr));
    assert!(d.changed_accounts.is_empty());
}

#[test]
fn account_codes_none_does_not_delete_account() {
    // EIP-7702 reset_delegation calls remove_account_code which only
    // clears AccountCodes/AccountCodesMetadata. The account itself
    // (System::Account) stays alive.
    let addr = H160([0xCC; 20]);
    let input = vec![(evm_codes_key(addr), None)];
    let d = scan_overlay(&input);
    assert!(d.changed_accounts.contains(&addr));
    assert!(!d.deleted_accounts.contains(&addr));
    assert_eq!(d.code_updates.get(&addr), Some(&Vec::<u8>::new()));
}

#[test]
fn account_codes_some_decodes_scale_vec_u8() {
    let addr = H160([0xDD; 20]);
    let code = vec![0x60, 0x80, 0x60, 0x40];
    let scale_encoded = code.encode();
    let input = vec![(evm_codes_key(addr), Some(scale_encoded))];
    let d = scan_overlay(&input);
    assert!(d.changed_accounts.contains(&addr));
    assert_eq!(d.code_updates.get(&addr), Some(&code));
}

#[test]
fn account_storages_some_decodes_scale_h256() {
    let addr = H160([0xEE; 20]);
    let slot = H256([0x11; 32]);
    let val = H256([0x42; 32]);
    let scale_encoded = val.0.encode();
    let input = vec![(evm_storages_key(addr, slot), Some(scale_encoded))];
    let d = scan_overlay(&input);
    assert!(d.changed_accounts.contains(&addr));
    assert_eq!(
        d.storage_diff.get(&addr).and_then(|m| m.get(&slot)),
        Some(&val)
    );
}

#[test]
fn account_storages_none_maps_to_zero() {
    // SSTORE(slot, 0) and reset_storage / clear_prefix land here.
    let addr = H160([0xEF; 20]);
    let slot = H256([0x22; 32]);
    let input = vec![(evm_storages_key(addr, slot), None)];
    let d = scan_overlay(&input);
    assert_eq!(
        d.storage_diff.get(&addr).and_then(|m| m.get(&slot)),
        Some(&H256::zero())
    );
}

#[test]
fn selfdestruct_dedup_strips_storage_and_code() {
    // Scenario: SELFDESTRUCT on `addr` kills System::Account and
    // synchronously fires AccountCodes::remove + AccountStorages
    // clear_prefix. Deleted accounts must take priority — they must not
    // also appear as changed_accounts, storage_diff, or code_updates.
    let addr = H160([0x99; 20]);
    let slot = H256([0x33; 32]);
    let input = vec![
        (sys_account_key(addr), None),
        (evm_codes_key(addr), None),
        (evm_storages_key(addr, slot), None),
    ];
    let d = scan_overlay(&input);
    assert!(d.deleted_accounts.contains(&addr));
    assert!(!d.changed_accounts.contains(&addr));
    assert!(!d.storage_diff.contains_key(&addr));
    assert!(!d.code_updates.contains_key(&addr));
}

#[test]
fn unrelated_prefixes_are_ignored() {
    // A key under some other pallet prefix must not produce any delta.
    let unrelated_prefix: Vec<u8> = [
        twox_128(b"Balances").as_slice(),
        twox_128(b"Locks").as_slice(),
    ]
    .concat();
    let mut key = unrelated_prefix;
    key.extend_from_slice(&[0u8; 36]);
    let input = vec![(key, Some(vec![1, 2, 3]))];
    let d = scan_overlay(&input);
    assert!(d.changed_accounts.is_empty());
    assert!(d.deleted_accounts.is_empty());
    assert!(d.storage_diff.is_empty());
    assert!(d.code_updates.is_empty());
}

#[test]
fn wrong_length_keys_are_skipped_not_panicking() {
    // A System::Account prefix match with an impossible key length
    // must not panic or corrupt the delta.
    let sys_prefix: Vec<u8> =
        [twox_128(b"System").as_slice(), twox_128(b"Account").as_slice()].concat();
    let short = sys_prefix.clone(); // 32 bytes, below the 68 expected
    let input = vec![(short, Some(vec![0x00]))];
    let d = scan_overlay(&input);
    assert!(d.changed_accounts.is_empty());
}

#[test]
fn value_that_cannot_be_read_is_zero() {
    let addr = H160([0x31; 20]);
    let slot = H256([0x32; 32]);
    let input = vec![(evm_storages_key(addr, slot), Some(vec![1; 31]))];
    let d = scan_overlay(&input);
    assert_eq!(
        d.storage_diff.get(&addr).and_then(|m| m.get(&slot)),
        Some(&H256::zero())
    );
}

#[test]
fn value_is_read_from_the_front() {
    let addr = H160([0x31; 20]);
    let slot = H256([0x32; 32]);
    let mut data = vec![7u8; 32];
    data.push(9);
    let d = scan_overlay(&[(evm_storages_key(addr, slot), Some(data))]);
    assert_eq!(
        d.storage_diff.get(&addr).and_then(|m| m.get(&slot)),
        Some(&H256([7; 32]))
    );
}

#[test]
fn code_that_cannot_be_read_is_empty() {
    let addr = H160([0x41; 20]);
    for data in [
        vec![],
        vec![0x10, 1, 2, 3],
        vec![0x01],
        vec![0x05, 0x00],
        vec![0x02, 0, 0, 0],
        vec![0x03, 0, 0, 0, 0],
        vec![0x07, 0, 0, 0, 0x40],
    ] {
        let d = scan_overlay(&[(evm_codes_key(addr), Some(data))]);
        assert_eq!(d.code_updates.get(&addr), Some(&Vec::<u8>::new()));
    }
}

#[test]
fn codes_of_all_lengths_are_read() {
    let addr = H160([0x42; 20]);
    for n in [0usize, 1, 63, 64, 300, 16383, 16384, 20000] {
        let code = vec![0x5bu8; n];
        let d = scan_overlay(&[(evm_codes_key(addr), Some(code.encode()))]);
        assert_eq!(d.code_updates.get(&addr), Some(&code));
    }
}

#[test]
fn bytes_behind_a_code_are_left_unread() {
    let addr = H160([0x43; 20]);
    let d = scan_overlay(&[(evm_codes_key(addr), Some(vec![0x08, 1, 2, 3, 4]))]);
    assert_eq!(d.code_updates.get(&addr), Some(&vec![1u8, 2]));
}

#[test]
fn last_entry_of_a_slot_counts() {
    let addr = H160([0x51; 20]);
    let slot = H256([0x52; 32]);
    let input = vec![
        (evm_storages_key(addr, slot), Some(vec![1; 32])),
        (evm_storages_key(addr, slot), Some(vec![2; 32])),
    ];
    let d = scan_overlay(&input);
    assert_eq!(
        d.storage_diff.get(&addr).and_then(|m| m.get(&slot)),
        Some(&H256([2; 32]))
    );
}

#[test]
fn deleted_account_wins_over_a_later_change() {
    let addr = H160([0x61; 20]);
    let other = H160([0x62; 20]);
    let input = vec![
        (sys_account_key(addr), None),
        (sys_account_key(addr), Some(vec![1])),
        (sys_account_key(other), Some(vec![1])),
    ];
    let d = scan_overlay(&input);
    assert!(d.deleted_accounts.contains(&addr));
    assert!(!d.changed_accounts.contains(&addr));
    assert!(d.changed_accounts.contains(&other));
    assert_eq!(d.deleted_accounts.len(), 1);
}

#[test]
fn keys_of_the_wrong_length_are_left_out_of_every_map() {
    let addr = H160([0x71; 20]);
    let mut long_code = evm_codes_key(addr);
    long_code.push(0);
    let mut long_slot = evm_storages_key(addr, H256([0x72; 32]));
    long_slot.pop();
    let d = scan_overlay(&[(long_code, None), (long_slot, None)]);
    assert!(d.changed_accounts.is_empty());
    assert!(d.code_updates.is_empty());
    assert!(d.storage_diff.is_empty());
}

#[test]
fn fronts_of_the_keys_are_compared() {
    let mut key = vec![1u8; 48];
    key.extend_from_slice(&[0xAB; 20]);
    let entries = vec![(key, None)];
    let d = scan_entries(&entries, &vec![1, 1], &vec![2], &vec![3]);
    assert!(d.deleted_accounts.contains(&H160([0xAB; 20])));
    let d = scan_entries(&entries, &vec![1, 2], &vec![1], &vec![3]);
    assert!(d.deleted_accounts.is_empty());
    assert!(d.code_updates.contains_key(&H160([0xAB; 20])));
}

#[test]
fn skipped_entries_do_not_stop_the_scan() {
    let addr = H160([0x81; 20]);
    let slot = H256([0x82; 32]);
    let before = (sys_account_key(addr), Some(vec![1]));
    let after = (evm_storages_key(addr, slot), Some(vec![7; 32]));
    let mut other = [twox_128(b"Balances"), twox_128(b"Locks")].concat();
    other.extend_from_slice(&[0; 36]);
    let mut account = sys_account_key(addr);
    account.push(0);
    let mut code = evm_codes_key(addr);
    code.pop();
    // As long as a key of the other two maps.
    let slots = evm_storages_key(addr, slot)[..68].to_vec();
    for key in [vec![], other, account, code, slots] {
        for value in [None, Some(vec![1, 2])] {
            let d = scan_overlay(&[before.clone(), (key.clone(), value), after.clone()]);
            assert_eq!(d.changed_accounts.len(), 1);
            assert!(d.deleted_accounts.is_empty());
            assert!(d.code_updates.is_empty());
            assert_eq!(d.storage_diff.len(), 1);
            assert_eq!(
                d.storage_diff.get(&addr).and_then(|m| m.get(&slot)),
                Some(&H256([7; 32]))
            );
        }
    }
}

#[test]
fn fronts_of_the_maps_differ() {
    let accounts = sys_account_key(H160::zero())[..32].to_vec();
    let codes = evm_codes_key(H160::zero())[..32].to_vec();
    let storages = evm_storages_key(H160::zero(), H256::zero())[..32].to_vec();
    assert_ne!(accounts, codes);
    assert_ne!(accounts, storages);
    assert_ne!(codes, storages);
}

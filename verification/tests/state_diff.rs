//! The encoding of state diffs.
use alloy_primitives::{Bytes, B256, U256 as AlloyU256};
use alloy_rlp::{Decodable, Error, Header};
use debank_tracing::primitives::{H160, H256, U256};
use debank_tracing::rlp_codec::{finish_stream, start_stream};
use debank_tracing::state_diff::{
    address_to_hash, empty_state_diff, encode_state_diff, AccountStorageDiff, BlockStorageDiff,
    IndexValuePair, NewAccount, NewCode,
};

#[derive(Debug, PartialEq)]
struct AlloyNewAccount {
    address: B256,
    balance: AlloyU256,
    nonce: u64,
    code_hash: B256,
}

#[derive(Debug, PartialEq)]
struct AlloyNewCode {
    code_hash: B256,
    code: Bytes,
}

#[derive(Debug, PartialEq)]
struct AlloyIndexValuePair {
    index: B256,
    value: AlloyU256,
}

#[derive(Debug, PartialEq)]
struct AlloyAccountStorageDiff {
    address: B256,
    values: Vec<AlloyIndexValuePair>,
}

#[derive(Debug, PartialEq)]
struct AlloyBlockStorageDiff {
    hash: B256,
    parent_hash: B256,
    new_accounts: Vec<AlloyNewAccount>,
    deleted_accounts: Vec<B256>,
    storage_diff: Vec<AlloyAccountStorageDiff>,
    new_codes: Vec<AlloyNewCode>,
}

/// Reads a list whose items `read` takes off the front, all of them.
fn decode_list<T>(
    buf: &mut &[u8],
    read: fn(&mut &[u8]) -> alloy_rlp::Result<T>,
) -> alloy_rlp::Result<T> {
    let header = Header::decode(buf)?;
    if !header.list {
        return Err(Error::UnexpectedString);
    }
    let before = buf.len();
    let value = read(buf)?;
    let got = before - buf.len();
    if got != header.payload_length {
        return Err(Error::ListLengthMismatch {
            expected: header.payload_length,
            got,
        });
    }
    Ok(value)
}

impl Decodable for AlloyNewAccount {
    fn decode(buf: &mut &[u8]) -> alloy_rlp::Result<Self> {
        decode_list(buf, |buf| {
            Ok(AlloyNewAccount {
                address: Decodable::decode(buf)?,
                balance: Decodable::decode(buf)?,
                nonce: Decodable::decode(buf)?,
                code_hash: Decodable::decode(buf)?,
            })
        })
    }
}

impl Decodable for AlloyNewCode {
    fn decode(buf: &mut &[u8]) -> alloy_rlp::Result<Self> {
        decode_list(buf, |buf| {
            Ok(AlloyNewCode {
                code_hash: Decodable::decode(buf)?,
                code: Decodable::decode(buf)?,
            })
        })
    }
}

impl Decodable for AlloyIndexValuePair {
    fn decode(buf: &mut &[u8]) -> alloy_rlp::Result<Self> {
        decode_list(buf, |buf| {
            Ok(AlloyIndexValuePair {
                index: Decodable::decode(buf)?,
                value: Decodable::decode(buf)?,
            })
        })
    }
}

impl Decodable for AlloyAccountStorageDiff {
    fn decode(buf: &mut &[u8]) -> alloy_rlp::Result<Self> {
        decode_list(buf, |buf| {
            Ok(AlloyAccountStorageDiff {
                address: Decodable::decode(buf)?,
                values: Decodable::decode(buf)?,
            })
        })
    }
}

impl Decodable for AlloyBlockStorageDiff {
    fn decode(buf: &mut &[u8]) -> alloy_rlp::Result<Self> {
        decode_list(buf, |buf| {
            Ok(AlloyBlockStorageDiff {
                hash: Decodable::decode(buf)?,
                parent_hash: Decodable::decode(buf)?,
                new_accounts: Decodable::decode(buf)?,
                deleted_accounts: Decodable::decode(buf)?,
                storage_diff: Decodable::decode(buf)?,
                new_codes: Decodable::decode(buf)?,
            })
        })
    }
}

#[test]
fn rlp_alloy_compat_empty_diff() {
    let diff = BlockStorageDiff {
        hash: H256::from_low_u64_be(1),
        parent_hash: H256::from_low_u64_be(2),
        new_accounts: vec![],
        deleted_accounts: vec![],
        storage_diff: vec![],
        new_codes: vec![],
    };

    let encoded = encode_state_diff(&diff);
    let decoded = AlloyBlockStorageDiff::decode(&mut encoded.as_slice())
        .expect("alloy-rlp should decode empty BlockStorageDiff");

    assert_eq!(decoded.hash, B256::from(diff.hash.0));
    assert_eq!(decoded.parent_hash, B256::from(diff.parent_hash.0));
    assert!(decoded.new_accounts.is_empty());
    assert!(decoded.deleted_accounts.is_empty());
    assert!(decoded.storage_diff.is_empty());
    assert!(decoded.new_codes.is_empty());
}

#[test]
fn rlp_alloy_compat_full_diff() {
    let addr_hash_1 = H256::from_low_u64_be(0x1234);
    let addr_hash_2 = H256::from_low_u64_be(0x5678);

    let diff = BlockStorageDiff {
        hash: H256::from_low_u64_be(0xaabb),
        parent_hash: H256::from_low_u64_be(0xccdd),
        new_accounts: vec![
            NewAccount {
                address: addr_hash_1,
                balance: U256::from_u64(999_999),
                nonce: 42,
                code_hash: H256::from_low_u64_be(0xdead),
            },
            NewAccount {
                address: addr_hash_2,
                balance: U256::zero(),
                nonce: 0,
                code_hash: H256::zero(),
            },
        ],
        deleted_accounts: vec![
            H256::from_low_u64_be(0xaaaa),
            H256::from_low_u64_be(0xbbbb),
        ],
        storage_diff: vec![
            AccountStorageDiff {
                address: H256::from_low_u64_be(0x1111),
                values: vec![
                    IndexValuePair {
                        index: H256::from_low_u64_be(0),
                        value: U256::from_u64(100),
                    },
                    IndexValuePair {
                        index: H256::from_low_u64_be(1),
                        value: U256::from_u64(200),
                    },
                ],
            },
            AccountStorageDiff {
                address: H256::from_low_u64_be(0x2222),
                values: vec![],
            },
        ],
        new_codes: vec![NewCode {
            code_hash: H256::from_low_u64_be(0xc0de),
            code: vec![0x60, 0x80, 0x60, 0x40, 0x52, 0x34, 0x80, 0x15],
        }],
    };

    let encoded = encode_state_diff(&diff);
    let decoded = AlloyBlockStorageDiff::decode(&mut encoded.as_slice())
        .expect("alloy-rlp should decode full BlockStorageDiff");

    assert_eq!(decoded.hash, B256::from(diff.hash.0));
    assert_eq!(decoded.parent_hash, B256::from(diff.parent_hash.0));

    assert_eq!(decoded.new_accounts.len(), 2);
    assert_eq!(decoded.new_accounts[0].address, B256::from(addr_hash_1.0));
    assert_eq!(decoded.new_accounts[0].balance, AlloyU256::from(999_999u64));
    assert_eq!(decoded.new_accounts[0].nonce, 42);
    assert_eq!(decoded.new_accounts[1].nonce, 0);
    assert_eq!(decoded.new_accounts[1].balance, AlloyU256::ZERO);

    assert_eq!(decoded.deleted_accounts.len(), 2);
    assert_eq!(
        decoded.deleted_accounts[0],
        B256::from(H256::from_low_u64_be(0xaaaa).0)
    );

    assert_eq!(decoded.storage_diff.len(), 2);
    assert_eq!(
        decoded.storage_diff[0].address,
        B256::from(H256::from_low_u64_be(0x1111).0)
    );
    assert_eq!(decoded.storage_diff[0].values.len(), 2);
    assert_eq!(decoded.storage_diff[0].values[0].value, AlloyU256::from(100u64));
    assert_eq!(decoded.storage_diff[1].values.len(), 0);

    assert_eq!(decoded.new_codes.len(), 1);
    assert_eq!(
        decoded.new_codes[0].code.as_ref(),
        &[0x60, 0x80, 0x60, 0x40, 0x52, 0x34, 0x80, 0x15]
    );
}

#[test]
fn rlp_alloy_compat_large_values() {
    let diff = BlockStorageDiff {
        hash: H256([0xff; 32]),
        parent_hash: H256([0xaa; 32]),
        new_accounts: vec![NewAccount {
            address: H256([0xff; 32]),
            balance: U256([u64::MAX; 4]),
            nonce: u64::MAX,
            code_hash: H256([0xff; 32]),
        }],
        deleted_accounts: vec![],
        storage_diff: vec![],
        new_codes: vec![NewCode {
            code_hash: H256([0xbb; 32]),
            code: vec![0xfe; 1024],
        }],
    };

    let encoded = encode_state_diff(&diff);
    let decoded = AlloyBlockStorageDiff::decode(&mut encoded.as_slice())
        .expect("alloy-rlp should decode BlockStorageDiff with large values");

    assert_eq!(decoded.new_accounts[0].nonce, u64::MAX);
    assert_eq!(decoded.new_accounts[0].balance, AlloyU256::MAX);
    assert_eq!(decoded.new_codes[0].code.len(), 1024);
}

#[test]
fn empty_diff_has_its_exact_encoding() {
    let diff = empty_state_diff(H256([0x11; 32]), H256([0x22; 32]));
    let mut wanted = vec![0xf8, 70];
    wanted.push(0xa0);
    wanted.extend_from_slice(&[0x11; 32]);
    wanted.push(0xa0);
    wanted.extend_from_slice(&[0x22; 32]);
    wanted.extend_from_slice(&[0xc0; 4]);
    assert_eq!(encode_state_diff(&diff), wanted);
}

#[test]
fn account_has_its_exact_encoding() {
    let account = NewAccount {
        address: H256([1; 32]),
        balance: U256::from_u64(0x0400),
        nonce: 0,
        code_hash: H256([2; 32]),
    };
    let mut s = start_stream();
    account.rlp_append(&mut s);
    let mut wanted = vec![0xf8, 70];
    wanted.push(0xa0);
    wanted.extend_from_slice(&[1; 32]);
    wanted.extend_from_slice(&[0x82, 0x04, 0x00]);
    wanted.push(0x80);
    wanted.push(0xa0);
    wanted.extend_from_slice(&[2; 32]);
    assert_eq!(finish_stream(s), wanted);
}

#[test]
fn slot_with_a_small_value_has_its_exact_encoding() {
    let slot = IndexValuePair {
        index: H256([3; 32]),
        value: U256::from_u64(0x7f),
    };
    let mut s = start_stream();
    slot.rlp_append(&mut s);
    let mut wanted = vec![0xe2, 0xa0];
    wanted.extend_from_slice(&[3; 32]);
    wanted.push(0x7f);
    assert_eq!(finish_stream(s), wanted);
}

#[test]
fn long_code_has_its_exact_encoding() {
    let code = NewCode {
        code_hash: H256([4; 32]),
        code: vec![0xfe; 300],
    };
    let mut s = start_stream();
    code.rlp_append(&mut s);
    let out = finish_stream(s);
    assert_eq!(&out[..4], &[0xf9, 0x01, 0x50, 0xa0]);
    assert_eq!(&out[36..39], &[0xb9, 0x01, 0x2c]);
    assert_eq!(out.len(), 339);
}

#[test]
fn storage_without_slots_has_an_empty_list() {
    let storage = AccountStorageDiff {
        address: H256([5; 32]),
        values: vec![],
    };
    let mut s = start_stream();
    storage.rlp_append(&mut s);
    let out = finish_stream(s);
    assert_eq!(out[0], 0xe2);
    assert_eq!(out[34], 0xc0);
    assert_eq!(out.len(), 35);
}

#[test]
fn different_diffs_have_different_encodings() {
    let a = empty_state_diff(H256([1; 32]), H256([2; 32]));
    let b = empty_state_diff(H256([2; 32]), H256([1; 32]));
    assert_ne!(encode_state_diff(&a), encode_state_diff(&b));
    let mut c = empty_state_diff(H256([1; 32]), H256([2; 32]));
    c.deleted_accounts.push(H256([0; 32]));
    assert_ne!(encode_state_diff(&a), encode_state_diff(&c));
}

#[test]
fn account_is_named_by_the_hash_of_its_address() {
    let hash = address_to_hash(&H160::zero());
    let text: Vec<String> = hash.0.iter().map(|b| format!("{b:02x}")).collect();
    assert_eq!(
        text.concat(),
        "5380c7b7ae81a58eb98d9c78de4a1fd7fd9535fc953ed2be602daaa41767312a"
    );
}

//! What the entries of a storage overlay say, and how later entries relate to earlier ones.
use crate::overlay::{
    account_of, change_of, collected, compact_len, hash_of, le_u32, map_prefix, no_change,
    scale_bytes, starts, twox_of, without_deleted, Change, DeltaModel,
};
use crate::primitives::{ByteKey, H160, H256};
use vstd::prelude::*;
use vstd::utf8::encode_utf8;

verus! {

/// A key and its value, as the overlay has them; a value that was removed is none.
pub type Entry = (Seq<u8>, Option<Seq<u8>>);

/// The delta holds a value for the slot of the account.
pub open spec fn has_slot(d: DeltaModel, a: H160, k: H256) -> bool {
    d.storage_diff.contains_key(a) && d.storage_diff[a].contains_key(k)
}

/// Any 20 bytes are the address of one account.
proof fn account_has_its_bytes(bytes: Seq<u8>, a: H160)
    requires
        bytes.len() == 20,
    ensures
        account_of(bytes).0@ == bytes,
        (account_of(bytes) == a) == (a.0@ == bytes),
{
    let x = H160(
        [
            bytes[0],
            bytes[1],
            bytes[2],
            bytes[3],
            bytes[4],
            bytes[5],
            bytes[6],
            bytes[7],
            bytes[8],
            bytes[9],
            bytes[10],
            bytes[11],
            bytes[12],
            bytes[13],
            bytes[14],
            bytes[15],
            bytes[16],
            bytes[17],
            bytes[18],
            bytes[19],
        ],
    );
    assert(x.0@ =~= bytes);
    H160::key_identifies(account_of(bytes), a);
}

/// Any 32 bytes are those of one hash.
proof fn hash_has_its_bytes(bytes: Seq<u8>, k: H256)
    requires
        bytes.len() == 32,
    ensures
        hash_of(bytes).0@ == bytes,
        (hash_of(bytes) == k) == (k.0@ == bytes),
{
    let x = H256(
        [
            bytes[0],
            bytes[1],
            bytes[2],
            bytes[3],
            bytes[4],
            bytes[5],
            bytes[6],
            bytes[7],
            bytes[8],
            bytes[9],
            bytes[10],
            bytes[11],
            bytes[12],
            bytes[13],
            bytes[14],
            bytes[15],
            bytes[16],
            bytes[17],
            bytes[18],
            bytes[19],
            bytes[20],
            bytes[21],
            bytes[22],
            bytes[23],
            bytes[24],
            bytes[25],
            bytes[26],
            bytes[27],
            bytes[28],
            bytes[29],
            bytes[30],
            bytes[31],
        ],
    );
    assert(x.0@ =~= bytes);
    H256::key_identifies(hash_of(bytes), k);
}

/// The four bytes of a number below 2^32, the least significant first.
pub open spec fn four_bytes(n: nat) -> Seq<u8> {
    seq![
        (n % 256) as u8,
        (n / 256 % 256) as u8,
        (n / 65536 % 256) as u8,
        (n / 16777216 % 256) as u8,
    ]
}

/// The length of a byte string as it is written in front of it: four times the length, with the
/// number of the form added, in one, two or four bytes, or the length itself behind a byte.
pub open spec fn written_length(n: nat) -> Seq<u8> {
    if n < 64 {
        seq![(4 * n) as u8]
    } else if n < 16384 {
        seq![((4 * n + 1) % 256) as u8, ((4 * n + 1) / 256) as u8]
    } else if n < 0x4000_0000 {
        four_bytes(4 * n + 2)
    } else {
        seq![3u8] + four_bytes(n)
    }
}

/// Four bytes are read as the number they were written for.
proof fn four_bytes_are_read_back(n: nat, front: Seq<u8>, rest: Seq<u8>)
    requires
        n < 0x1_0000_0000,
    ensures
        le_u32(front + four_bytes(n) + rest, front.len() as int) == n,
{
    let d = front + four_bytes(n) + rest;
    let at = front.len() as int;
    let b = four_bytes(n);
    assert(d[at] == b[0] && d[at + 1] == b[1] && d[at + 2] == b[2] && d[at + 3] == b[3]);
    let x = n / 256;
    let y = x / 256;
    assert(n / 65536 == y);
    assert(n / 16777216 == y / 256);
    assert(y / 256 < 256);
}

/// A byte string that was written with its length in front is read back, whatever follows it.
pub proof fn written_string_is_read_back(data: Seq<u8>, rest: Seq<u8>)
    requires
        data.len() < 0x1_0000_0000,
    ensures
        scale_bytes(written_length(data.len()) + data + rest) == Some(data),
{
    let n = data.len();
    let head = written_length(n);
    let tail = data + rest;
    let d = head + data + rest;
    assert(d =~= head + tail);
    assert(d[0] == head[0]);
    if n < 64 {
    } else if n < 16384 {
        assert(d[1] == head[1]);
        assert((4 * n + 1) % 256 % 4 == 1);
    } else if n < 0x4000_0000 {
        four_bytes_are_read_back(4 * n + 2, seq![], tail);
        assert(seq![] + four_bytes(4 * n + 2) + tail =~= d);
        assert((4 * n + 2) % 256 % 4 == 2);
    } else {
        four_bytes_are_read_back(n, seq![3u8], tail);
        assert(seq![3u8] + four_bytes(n) + tail =~= d);
    }
    assert(compact_len(d) == Some((n, head.len())));
    assert(d.subrange(head.len() as int, (head.len() + n) as int) =~= data);
}

/// A byte string that ends before its length is none.
pub proof fn shortened_string_is_refused(data: Seq<u8>, n: nat)
    requires
        data.len() < n < 64,
    ensures
        scale_bytes(seq![]) is None,
        scale_bytes(written_length(n) + data) is None,
{
    let d = written_length(n) + data;
    assert(d[0] == 4 * n);
}

/// The front of the keys of a map is the hash of the name of its pallet, then that of its own.
pub proof fn front_is_made_of_two_names(pallet: Seq<char>, map: Seq<char>)
    ensures
        ({
            let front = map_prefix(pallet, map);
            let first = twox_of(encode_utf8(pallet));
            let second = twox_of(encode_utf8(map));
            &&& front.len() == first.len() + second.len()
            &&& front.take(first.len() as int) == first
            &&& front.skip(first.len() as int) == second
        }),
{
    let first = twox_of(encode_utf8(pallet));
    let front = map_prefix(pallet, map);
    assert(front.take(first.len() as int) =~= first);
    assert(front.skip(first.len() as int) =~= twox_of(encode_utf8(map)));
}

/// A key has a front exactly if it is the front and something behind it.
pub proof fn front_stands_first(front: Seq<u8>, rest: Seq<u8>, key: Seq<u8>)
    ensures
        starts(front + rest, front),
        starts(key, front) ==> key == front + key.skip(front.len() as int),
{
    assert((front + rest).take(front.len() as int) =~= front);
    if starts(key, front) {
        assert(key =~= key.take(front.len() as int) + key.skip(front.len() as int));
    }
}

/// A key of the map of accounts names its account by the last 20 of its 68 bytes. With a value the
/// account is alive, without one it is gone.
pub proof fn account_entry_is_read(
    accounts: Seq<u8>,
    codes: Seq<u8>,
    storages: Seq<u8>,
    filler: Seq<u8>,
    address: H160,
    value: Option<Seq<u8>>,
)
    requires
        accounts.len() == 32,
        filler.len() == 16,
    ensures
        change_of(accounts + filler + address.0@, value, accounts, codes, storages) == (
        if value is Some {
            Change::Alive { address: address.0@ }
        } else {
            Change::Gone { address: address.0@ }
        }),
{
    let key = accounts + filler + address.0@;
    assert(key.take(32) =~= accounts);
    assert(key.subrange(48, 68) =~= address.0@);
}

/// A key of the map of codes names its account in the same way; its value is the code, and one that
/// is removed or cannot be read counts as empty.
pub proof fn code_entry_is_read(
    accounts: Seq<u8>,
    codes: Seq<u8>,
    storages: Seq<u8>,
    filler: Seq<u8>,
    address: H160,
    value: Option<Seq<u8>>,
)
    requires
        accounts.len() == 32,
        codes.len() == 32,
        accounts != codes,
        filler.len() == 16,
    ensures
        ({
            let c = change_of(codes + filler + address.0@, value, accounts, codes, storages);
            &&& c is Code
            &&& c->Code_address == address.0@
            &&& value is Some && scale_bytes(value->0) is Some ==> c->code == scale_bytes(
                value->0,
            )->0
            &&& value is None || scale_bytes(value->0) is None ==> c->code.len() == 0
        }),
{
    let key = codes + filler + address.0@;
    assert(key.take(32) =~= codes);
    assert(key.subrange(48, 68) =~= address.0@);
    assert(!starts(key, accounts));
}

/// A key of the map of slots names its account in the same way and its slot by the last 32 of its
/// 116 bytes; its value is the first 32 bytes there are, and one that is removed or shorter counts as
/// zero.
pub proof fn slot_entry_is_read(
    accounts: Seq<u8>,
    codes: Seq<u8>,
    storages: Seq<u8>,
    filler: Seq<u8>,
    address: H160,
    other: Seq<u8>,
    slot: H256,
    value: Option<Seq<u8>>,
)
    requires
        accounts.len() == 32,
        codes.len() == 32,
        storages.len() == 32,
        accounts != storages,
        codes != storages,
        filler.len() == 16,
        other.len() == 16,
    ensures
        ({
            let c = change_of(
                storages + filler + address.0@ + other + slot.0@,
                value,
                accounts,
                codes,
                storages,
            );
            &&& c is Slot
            &&& c->Slot_address == address.0@
            &&& c->slot == slot.0@
            &&& c->value.len() == 32
            &&& value is Some && value->0.len() >= 32 ==> forall|i: int|
                0 <= i < 32 ==> #[trigger] c->value[i] == value->0[i]
            &&& value is None || value->0.len() < 32 ==> forall|i: int|
                0 <= i < 32 ==> #[trigger] c->value[i] == 0
        }),
{
    let key = storages + filler + address.0@ + other + slot.0@;
    assert(key.take(32) =~= storages);
    assert(key.subrange(48, 68) =~= address.0@);
    assert(key.subrange(84, 116) =~= slot.0@);
    assert(!starts(key, accounts));
    assert(!starts(key, codes));
}

/// The entry says that the slot of the account holds the value.
pub open spec fn says_slot(
    e: Entry,
    accounts: Seq<u8>,
    codes: Seq<u8>,
    storages: Seq<u8>,
    a: H160,
    k: H256,
) -> bool {
    let c = change_of(e.0, e.1, accounts, codes, storages);
    c is Slot && c->Slot_address == a.0@ && c->slot == k.0@
}

/// The entry says what the code of the account is.
pub open spec fn says_code(
    e: Entry,
    accounts: Seq<u8>,
    codes: Seq<u8>,
    storages: Seq<u8>,
    a: H160,
) -> bool {
    let c = change_of(e.0, e.1, accounts, codes, storages);
    c is Code && c->Code_address == a.0@
}

/// The entry says that the account is there: it is alive, or it has a code or a slot.
pub open spec fn says_there(
    e: Entry,
    accounts: Seq<u8>,
    codes: Seq<u8>,
    storages: Seq<u8>,
    a: H160,
) -> bool {
    let c = change_of(e.0, e.1, accounts, codes, storages);
    ||| c is Alive && c->Alive_address == a.0@
    ||| c is Code && c->Code_address == a.0@
    ||| c is Slot && c->Slot_address == a.0@
}

/// The entry says that the account is gone.
pub open spec fn says_gone(
    e: Entry,
    accounts: Seq<u8>,
    codes: Seq<u8>,
    storages: Seq<u8>,
    a: H160,
) -> bool {
    let c = change_of(e.0, e.1, accounts, codes, storages);
    c is Gone && c->Gone_address == a.0@
}

/// One more entry changes what it speaks of and leaves everything else: every other slot of the same
/// account, every other account, every other code.
pub proof fn one_more_entry(
    entries: Seq<Entry>,
    e: Entry,
    accounts: Seq<u8>,
    codes: Seq<u8>,
    storages: Seq<u8>,
    a: H160,
    k: H256,
)
    ensures
        ({
            let d = collected(entries, accounts, codes, storages);
            let t = collected(entries.push(e), accounts, codes, storages);
            let c = change_of(e.0, e.1, accounts, codes, storages);
            &&& has_slot(t, a, k) == (has_slot(d, a, k) || says_slot(
                e,
                accounts,
                codes,
                storages,
                a,
                k,
            ))
            &&& says_slot(e, accounts, codes, storages, a, k) ==> t.storage_diff[a][k].0@
                == c->value
            &&& !says_slot(e, accounts, codes, storages, a, k) && has_slot(d, a, k)
                ==> t.storage_diff[a][k] == d.storage_diff[a][k]
            &&& t.code_updates.contains_key(a) == (d.code_updates.contains_key(a) || says_code(
                e,
                accounts,
                codes,
                storages,
                a,
            ))
            &&& says_code(e, accounts, codes, storages, a) ==> t.code_updates[a] == c->code
            &&& !says_code(e, accounts, codes, storages, a) && d.code_updates.contains_key(a)
                ==> t.code_updates[a] == d.code_updates[a]
            &&& t.changed_accounts.contains(a) == (d.changed_accounts.contains(a) || says_there(
                e,
                accounts,
                codes,
                storages,
                a,
            ))
            &&& t.deleted_accounts.contains(a) == (d.deleted_accounts.contains(a) || says_gone(
                e,
                accounts,
                codes,
                storages,
                a,
            ))
            &&& t.storage_diff.contains_key(a) == (d.storage_diff.contains_key(a) || (c is Slot
                && c->Slot_address == a.0@))
        }),
{
    let longer = entries.push(e);
    assert(longer.drop_last() =~= entries);
    assert(longer.last() == e);
    let c = change_of(e.0, e.1, accounts, codes, storages);
    match c {
        Change::Alive { address } => {
            account_has_its_bytes(address, a);
        },
        Change::Gone { address } => {
            account_has_its_bytes(address, a);
        },
        Change::Code { address, .. } => {
            account_has_its_bytes(address, a);
        },
        Change::Slot { address, slot, value } => {
            account_has_its_bytes(address, a);
            hash_has_its_bytes(slot, k);
            hash_has_its_bytes(value, k);
        },
        Change::Nothing => {},
    }
}

/// Without entries nothing is said.
pub proof fn no_entry_says_nothing(
    accounts: Seq<u8>,
    codes: Seq<u8>,
    storages: Seq<u8>,
    a: H160,
)
    ensures
        ({
            let d = collected(seq![], accounts, codes, storages);
            &&& !d.storage_diff.contains_key(a)
            &&& !d.code_updates.contains_key(a)
            &&& !d.changed_accounts.contains(a)
            &&& !d.deleted_accounts.contains(a)
        }),
        ({
            let d = no_change();
            &&& !d.storage_diff.contains_key(a)
            &&& !d.code_updates.contains_key(a)
            &&& !d.changed_accounts.contains(a)
            &&& !d.deleted_accounts.contains(a)
        }),
{
}

/// A slot is held exactly if an entry speaks of it, and then with the value of the last one that
/// does, whatever other entries there are.
pub proof fn last_entry_of_a_slot_counts(
    entries: Seq<Entry>,
    accounts: Seq<u8>,
    codes: Seq<u8>,
    storages: Seq<u8>,
    a: H160,
    k: H256,
)
    ensures
        has_slot(collected(entries, accounts, codes, storages), a, k) == exists|i: int|
            0 <= i < entries.len() && says_slot(
                #[trigger] entries[i],
                accounts,
                codes,
                storages,
                a,
                k,
            ),
        forall|i: int|
            0 <= i < entries.len() && says_slot(
                #[trigger] entries[i],
                accounts,
                codes,
                storages,
                a,
                k,
            ) && (forall|j: int|
                i < j < entries.len() ==> !says_slot(
                    #[trigger] entries[j],
                    accounts,
                    codes,
                    storages,
                    a,
                    k,
                )) ==> collected(entries, accounts, codes, storages).storage_diff[a][k].0@
                == change_of(entries[i].0, entries[i].1, accounts, codes, storages)->value,
    decreases entries.len(),
{
    if entries.len() > 0 {
        let rest = entries.drop_last();
        let e = entries.last();
        let n = rest.len() as int;
        assert(entries =~= rest.push(e));
        last_entry_of_a_slot_counts(rest, accounts, codes, storages, a, k);
        one_more_entry(rest, e, accounts, codes, storages, a, k);
        let d = collected(entries, accounts, codes, storages);
        if has_slot(collected(rest, accounts, codes, storages), a, k) {
            let i = choose|i: int|
                0 <= i < rest.len() && says_slot(
                    #[trigger] rest[i],
                    accounts,
                    codes,
                    storages,
                    a,
                    k,
                );
            assert(entries[i] == rest[i]);
        }
        if says_slot(e, accounts, codes, storages, a, k) {
            assert(says_slot(entries[n], accounts, codes, storages, a, k));
        }
        if exists|i: int|
            0 <= i < entries.len() && says_slot(
                #[trigger] entries[i],
                accounts,
                codes,
                storages,
                a,
                k,
            ) {
            let i = choose|i: int|
                0 <= i < entries.len() && says_slot(
                    #[trigger] entries[i],
                    accounts,
                    codes,
                    storages,
                    a,
                    k,
                );
            if i < n {
                assert(says_slot(rest[i], accounts, codes, storages, a, k));
            }
        }
        assert forall|i: int|
            0 <= i < entries.len() && says_slot(
                #[trigger] entries[i],
                accounts,
                codes,
                storages,
                a,
                k,
            ) && (forall|j: int|
                i < j < entries.len() ==> !says_slot(
                    #[trigger] entries[j],
                    accounts,
                    codes,
                    storages,
                    a,
                    k,
                )) implies d.storage_diff[a][k].0@ == change_of(
            entries[i].0,
            entries[i].1,
            accounts,
            codes,
            storages,
        )->value by {
            if i < n {
                assert(!says_slot(entries[n], accounts, codes, storages, a, k));
                assert(rest[i] == entries[i]);
                assert forall|j: int| i < j < rest.len() implies !says_slot(
                    #[trigger] rest[j],
                    accounts,
                    codes,
                    storages,
                    a,
                    k,
                ) by {
                    assert(rest[j] == entries[j]);
                }
                assert(says_slot(rest[i], accounts, codes, storages, a, k));
            }
        }
    }
}

/// An account is named as changed exactly if an entry says that it is there; its code is held exactly
/// if an entry speaks of it.
pub proof fn named_accounts_are_in_the_entries(
    entries: Seq<Entry>,
    accounts: Seq<u8>,
    codes: Seq<u8>,
    storages: Seq<u8>,
    a: H160,
)
    ensures
        collected(entries, accounts, codes, storages).changed_accounts.contains(a) == exists|i: int|
            0 <= i < entries.len() && says_there(
                #[trigger] entries[i],
                accounts,
                codes,
                storages,
                a,
            ),
        collected(entries, accounts, codes, storages).code_updates.contains_key(a) == exists|i: int|
            0 <= i < entries.len() && says_code(
                #[trigger] entries[i],
                accounts,
                codes,
                storages,
                a,
            ),
    decreases entries.len(),
{
    if entries.len() > 0 {
        let rest = entries.drop_last();
        let e = entries.last();
        let n = rest.len() as int;
        assert(entries =~= rest.push(e));
        assert(entries[n] == e);
        named_accounts_are_in_the_entries(rest, accounts, codes, storages, a);
        one_more_entry(rest, e, accounts, codes, storages, a, H256::zero());
        assert forall|i: int| 0 <= i < n implies #[trigger] entries[i] == rest[i] by {}
        if exists|i: int|
            0 <= i < rest.len() && says_there(#[trigger] rest[i], accounts, codes, storages, a) {
            let i = choose|i: int|
                0 <= i < rest.len() && says_there(#[trigger] rest[i], accounts, codes, storages, a);
            assert(says_there(entries[i], accounts, codes, storages, a));
        }
        if exists|i: int|
            0 <= i < rest.len() && says_code(#[trigger] rest[i], accounts, codes, storages, a) {
            let i = choose|i: int|
                0 <= i < rest.len() && says_code(#[trigger] rest[i], accounts, codes, storages, a);
            assert(says_code(entries[i], accounts, codes, storages, a));
        }
        if exists|i: int|
            0 <= i < entries.len() && says_there(
                #[trigger] entries[i],
                accounts,
                codes,
                storages,
                a,
            ) {
            let i = choose|i: int|
                0 <= i < entries.len() && says_there(
                    #[trigger] entries[i],
                    accounts,
                    codes,
                    storages,
                    a,
                );
            if i < n {
                assert(says_there(rest[i], accounts, codes, storages, a));
            }
        }
        if exists|i: int|
            0 <= i < entries.len() && says_code(
                #[trigger] entries[i],
                accounts,
                codes,
                storages,
                a,
            ) {
            let i = choose|i: int|
                0 <= i < entries.len() && says_code(
                    #[trigger] entries[i],
                    accounts,
                    codes,
                    storages,
                    a,
                );
            if i < n {
                assert(says_code(rest[i], accounts, codes, storages, a));
            }
        }
    }
}

/// In the end an account that is gone is named nowhere else, and of every other account everything is
/// said as it was collected.
pub proof fn only_deleted_accounts_are_left_out(d: DeltaModel, a: H160)
    ensures
        ({
            let t = without_deleted(d);
            &&& t.deleted_accounts == d.deleted_accounts
            &&& d.deleted_accounts.contains(a) ==> {
                &&& !t.changed_accounts.contains(a)
                &&& !t.storage_diff.contains_key(a)
                &&& !t.code_updates.contains_key(a)
            }
            &&& !d.deleted_accounts.contains(a) ==> {
                &&& t.changed_accounts.contains(a) == d.changed_accounts.contains(a)
                &&& t.storage_diff.contains_key(a) == d.storage_diff.contains_key(a)
                &&& t.storage_diff.contains_key(a) ==> t.storage_diff[a] == d.storage_diff[a]
                &&& t.code_updates.contains_key(a) == d.code_updates.contains_key(a)
                &&& t.code_updates.contains_key(a) ==> t.code_updates[a] == d.code_updates[a]
            }
        }),
{
}

} // verus!

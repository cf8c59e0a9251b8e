//! What a state diff says of the accounts, codes and slots that a block changed.
use crate::formatter::{
    answered_by, asked_accounts, changes_are_listed, codes_are_listed, created_codes,
    known_accounts, reply_view, slot_list, state_diff_of, storage_is_listed, storage_list,
    with_account, Reply, ReplyModel,
};
use crate::listener::ListenerModel;
use crate::ordered::{is_sorted_list, sorted};
use crate::primitives::{be_value, bytes_lt, ByteKey, H160, H256};
use crate::rlp_codec::{rlp_list, rlp_number, rlp_string};
use crate::state_diff::{
    account_rlp, code_rlp, diff_rlp, empty_diff, hash_rlp, hashed, keccak_of, slot_rlp, storage_rlp,
    AccountModel, CodeModel, DiffModel, NewAccount, SlotModel, StorageModel,
};
use vstd::prelude::*;

verus! {

/// The accounts asked for are those that were touched and not destroyed.
pub proof fn touched_accounts_are_asked_for(s: ListenerModel, a: H160)
    requires
        is_sorted_list(
            asked_accounts(s),
            s.touched_accounts.difference(s.deleted_accounts),
        ),
    ensures
        asked_accounts(s).contains(a) == (s.touched_accounts.contains(a)
            && !s.deleted_accounts.contains(a)),
{
}

/// The answer says that the code of a created account is the one with the hash.
pub open spec fn brings_code(r: ReplyModel, created: Set<H160>, h: H256) -> bool {
    &&& created.contains(r.0)
    &&& r.1 is Some
    &&& (r.1->0).0.code_hash == h
    &&& (r.1->0).1.len() > 0
}

/// One more answer adds the code it brings, if it is about a created account that has code, under its
/// hash; all other codes stay.
pub proof fn one_more_code(replies: Seq<ReplyModel>, r: ReplyModel, created: Set<H160>, h: H256)
    ensures
        ({
            let m = created_codes(replies, created);
            let t = created_codes(replies.push(r), created);
            &&& t.contains_key(h) == (m.contains_key(h) || brings_code(r, created, h))
            &&& brings_code(r, created, h) ==> t[h] == (r.1->0).1
            &&& !brings_code(r, created, h) && m.contains_key(h) ==> t[h] == m[h]
            &&& !created_codes(seq![], created).contains_key(h)
        }),
{
    assert(replies.push(r).drop_last() =~= replies);
}

/// One more answer adds its account, if it has one; without one the list stays.
pub proof fn one_more_account(replies: Seq<ReplyModel>, r: ReplyModel, a: AccountModel)
    ensures
        ({
            let m = known_accounts(replies);
            let t = known_accounts(replies.push(r));
            &&& r.1 is None ==> t == m
            &&& r.1 is Some ==> t.len() == m.len() + 1
            &&& t.contains(a) == (m.contains(a) || (r.1 is Some && (r.1->0).0 == a))
            &&& known_accounts(seq![]).len() == 0
        }),
{
    assert(replies.push(r).drop_last() =~= replies);
    if r.1 is Some {
        account_is_put_in(known_accounts(replies), (r.1->0).0, a);
    }
}

/// Putting an account in keeps all there are.
proof fn account_is_put_in(s: Seq<AccountModel>, x: AccountModel, a: AccountModel)
    ensures
        with_account(s, x).len() == s.len() + 1,
        with_account(s, x).contains(a) == (s.contains(a) || x == a),
    decreases s.len(),
{
    let t = with_account(s, x);
    if s.len() == 0 || !bytes_lt(x.address.0@, s.last().address.0@) {
        if s.contains(a) {
            let i = choose|i: int| 0 <= i < s.len() && s[i] == a;
            assert(t[i] == a);
        }
        assert(t[s.len() as int] == x);
    } else {
        let shorter = s.drop_last();
        let u = with_account(shorter, x);
        account_is_put_in(shorter, x, a);
        assert(t == u.push(s.last()));
        assert(t[u.len() as int] == s.last());
        assert(s[s.len() - 1] == s.last());
        if u.contains(a) {
            let i = choose|i: int| 0 <= i < u.len() && u[i] == a;
            assert(t[i] == a);
        }
        if shorter.contains(a) {
            let i = choose|i: int| 0 <= i < shorter.len() && shorter[i] == a;
            assert(s[i] == a);
        }
        if s.contains(a) {
            let i = choose|i: int| 0 <= i < s.len() && s[i] == a;
            if i < shorter.len() {
                assert(shorter[i] == a);
            }
        }
        if t.contains(a) {
            let i = choose|i: int| 0 <= i < t.len() && t[i] == a;
            if i < u.len() {
                assert(u[i] == a);
            }
        }
    }
}

/// The list holds the code under the hash.
pub open spec fn lists_code(s: Seq<CodeModel>, h: H256, code: Seq<u8>) -> bool {
    exists|i: int| 0 <= i < s.len() && (#[trigger] s[i]).code_hash == h && s[i].code == code
}

/// The list holds the value of the slot.
pub open spec fn lists_slot(s: Seq<SlotModel>, k: H256, value: nat) -> bool {
    exists|i: int| 0 <= i < s.len() && (#[trigger] s[i]).index == k && s[i].value == value
}

/// The list holds exactly the slots of the map, each with its value as a number.
pub open spec fn lists_all_slots(s: Seq<SlotModel>, slots: Map<H256, H256>) -> bool {
    &&& forall|k: H256| #[trigger] slots.contains_key(k) ==> lists_slot(s, k, be_value(slots[k].0@))
    &&& forall|i: int|
        0 <= i < s.len() ==> slots.contains_key((#[trigger] s[i]).index) && s[i].value == be_value(
            slots[s[i].index].0@,
        )
}

/// The slots of a map are listed with their values.
proof fn slots_are_listed(slots: Map<H256, H256>)
    requires
        is_sorted_list(sorted(slots.dom()), slots.dom()),
    ensures
        lists_all_slots(slot_list(slots), slots),
        slot_list(slots).len() > 0 <==> exists|k: H256| slots.contains_key(k),
{
    let keys = sorted(slots.dom());
    let s = slot_list(slots);
    assert forall|k: H256| #[trigger] slots.contains_key(k) implies lists_slot(
        s,
        k,
        be_value(slots[k].0@),
    ) by {
        assert(slots.dom().contains(k));
        assert(keys.contains(k));
        let i = choose|i: int| 0 <= i < keys.len() && keys[i] == k;
        assert(s[i].index == k);
    }
    assert forall|i: int| 0 <= i < s.len() implies slots.contains_key((#[trigger] s[i]).index)
        && s[i].value == be_value(slots[s[i].index].0@) by {
        assert(keys.contains(keys[i]));
        assert(slots.dom().contains(keys[i]));
    }
    if s.len() > 0 {
        assert(slots.contains_key(s[0].index));
    }
}

/// The list has an entry for the account that holds exactly the slots of the map.
pub open spec fn lists_account(s: Seq<StorageModel>, a: H160, slots: Map<H256, H256>) -> bool {
    exists|i: int|
        0 <= i < s.len() && (#[trigger] s[i]).address == hashed(a) && lists_all_slots(
            s[i].values,
            slots,
        )
}

/// The entry is that of one of the accounts written to.
pub open spec fn is_of_a_written_account(
    d: StorageModel,
    changes: Map<H160, Map<H256, H256>>,
) -> bool {
    exists|a: H160| #[trigger]
        changes.contains_key(a) && d.address == hashed(a) && lists_all_slots(d.values, changes[a])
}

/// What was written to each account of a list is told, and nothing else.
proof fn storage_is_told(changes: Map<H160, Map<H256, H256>>, keys: Seq<H160>)
    requires
        storage_is_listed(changes),
        forall|i: int| 0 <= i < keys.len() ==> changes.contains_key(#[trigger] keys[i]),
    ensures
        forall|i: int|
            0 <= i < keys.len() && (exists|k: H256| changes[#[trigger] keys[i]].contains_key(k))
                ==> lists_account(storage_list(changes, keys), keys[i], changes[keys[i]]),
        forall|i: int|
            0 <= i < storage_list(changes, keys).len() ==> is_of_a_written_account(
                #[trigger] storage_list(changes, keys)[i],
                changes,
            ),
    decreases keys.len(),
{
    if keys.len() > 0 {
        let rest = keys.drop_last();
        let n = rest.len() as int;
        let last = keys.last();
        let list = storage_list(changes, keys);
        let prior = storage_list(changes, rest);
        assert forall|i: int| 0 <= i < rest.len() implies changes.contains_key(
            #[trigger] rest[i],
        ) by {
            assert(keys[i] == rest[i]);
        }
        storage_is_told(changes, rest);
        assert(keys[n] == last);
        assert(changes.contains_key(last));
        slots_are_listed(changes[last]);
        assert forall|i: int|
            0 <= i < keys.len() && (exists|k: H256|
                changes[#[trigger] keys[i]].contains_key(k)) implies lists_account(
            list,
            keys[i],
            changes[keys[i]],
        ) by {
            if i < n {
                assert(rest[i] == keys[i]);
                assert(lists_account(prior, rest[i], changes[rest[i]]));
                let j = choose|j: int|
                    0 <= j < prior.len() && (#[trigger] prior[j]).address == hashed(rest[i])
                        && lists_all_slots(prior[j].values, changes[rest[i]]);
                assert(list[j] == prior[j]);
            } else {
                assert(list[prior.len() as int].address == hashed(last));
            }
        }
        assert forall|i: int| 0 <= i < list.len() implies is_of_a_written_account(
            #[trigger] list[i],
            changes,
        ) by {
            if i < prior.len() {
                assert(list[i] == prior[i]);
            } else {
                assert(changes.contains_key(last));
            }
        }
    }
}

/// The diff names both hashes. It tells of each account written to exactly the slots written, each
/// with its value as a number; it names exactly the destroyed accounts, by their hashes; and it holds
/// exactly the codes that the answers brought.
pub proof fn diff_tells_what_changed(
    s: ListenerModel,
    hash: H256,
    parent_hash: H256,
    replies: Seq<ReplyModel>,
    a: H160,
    h: H256,
)
    requires
        changes_are_listed(s),
        codes_are_listed(replies, s.created_accounts),
    ensures
        ({
            let d = state_diff_of(s, hash, parent_hash, replies);
            let codes = created_codes(replies, s.created_accounts);
            &&& d.hash == hash
            &&& d.parent_hash == parent_hash
            &&& d.new_accounts == known_accounts(replies)
            &&& s.storage_changes.contains_key(a) && (exists|k: H256|
                s.storage_changes[a].contains_key(k)) ==> lists_account(
                d.storage_diff,
                a,
                s.storage_changes[a],
            )
            &&& forall|i: int|
                0 <= i < d.storage_diff.len() ==> is_of_a_written_account(
                    #[trigger] d.storage_diff[i],
                    s.storage_changes,
                )
            &&& s.deleted_accounts.contains(a) ==> d.deleted_accounts.contains(hashed(a))
            &&& forall|i: int|
                0 <= i < d.deleted_accounts.len() ==> exists|x: H160| #[trigger]
                    s.deleted_accounts.contains(x) && hashed(x) == #[trigger] d.deleted_accounts[i]
            &&& codes.contains_key(h) ==> lists_code(d.new_codes, h, codes[h])
            &&& forall|i: int|
                0 <= i < d.new_codes.len() ==> codes.contains_key(
                    (#[trigger] d.new_codes[i]).code_hash,
                ) && d.new_codes[i].code == codes[d.new_codes[i].code_hash]
        }),
{
    let d = state_diff_of(s, hash, parent_hash, replies);
    let codes = created_codes(replies, s.created_accounts);
    let keys = sorted(s.storage_changes.dom());
    let hashes = sorted(codes.dom());
    let gone = sorted(s.deleted_accounts);
    assert forall|i: int| 0 <= i < keys.len() implies s.storage_changes.contains_key(
        #[trigger] keys[i],
    ) by {
        assert(keys.contains(keys[i]));
        assert(s.storage_changes.dom().contains(keys[i]));
    }
    storage_is_told(s.storage_changes, keys);
    if s.storage_changes.contains_key(a) {
        assert(s.storage_changes.dom().contains(a));
        assert(keys.contains(a));
        let i = choose|i: int| 0 <= i < keys.len() && keys[i] == a;
        assert(keys[i] == a);
    }
    if s.deleted_accounts.contains(a) {
        assert(gone.contains(a));
        let i = choose|i: int| 0 <= i < gone.len() && gone[i] == a;
        assert(d.deleted_accounts[i] == hashed(a));
    }
    assert forall|i: int| 0 <= i < d.deleted_accounts.len() implies exists|x: H160| #[trigger]
        s.deleted_accounts.contains(x) && hashed(x) == #[trigger] d.deleted_accounts[i] by {
        assert(gone.contains(gone[i]));
        assert(s.deleted_accounts.contains(gone[i]));
    }
    if codes.contains_key(h) {
        assert(codes.dom().contains(h));
        assert(hashes.contains(h));
        let i = choose|i: int| 0 <= i < hashes.len() && hashes[i] == h;
        assert(d.new_codes[i].code_hash == h);
    }
    assert forall|i: int| 0 <= i < d.new_codes.len() implies codes.contains_key(
        (#[trigger] d.new_codes[i]).code_hash,
    ) && d.new_codes[i].code == codes[d.new_codes[i].code_hash] by {
        assert(hashes.contains(hashes[i]));
        assert(codes.dom().contains(hashes[i]));
    }
}

/// Each account is asked for once, in turn, and its answer is one that the function gives for it.
pub proof fn each_account_is_asked_for<F: Fn(H160) -> Option<(NewAccount, Vec<u8>)>>(
    f: F,
    asked: Seq<H160>,
    replies: Seq<Reply>,
    i: int,
)
    requires
        answered_by(f, asked, replies),
        0 <= i < asked.len(),
    ensures
        replies.len() == asked.len(),
        replies[i].0 == asked[i],
        call_ensures(f, (asked[i],), replies[i].1),
{
}

/// An answer is about the account that was asked for, and carries the account and the code.
pub proof fn answers_are_kept(r: Reply)
    ensures
        reply_view(r).0 == r.0,
        reply_view(r).1 is Some == r.1 is Some,
        r.1 is Some ==> {
            let (account, code) = r.1->0;
            let (model, bytes) = reply_view(r).1->0;
            &&& model.address == account.address
            &&& model.balance == account.balance.value()
            &&& model.nonce == account.nonce
            &&& model.code_hash == account.code_hash
            &&& bytes == code@
        },
{
}

/// The encoding of a state diff and of each of its parts is the list of its fields in their order.
pub proof fn fields_are_encoded_in_order(
    d: DiffModel,
    a: AccountModel,
    c: CodeModel,
    p: SlotModel,
    t: StorageModel,
)
    ensures
        account_rlp(a) == rlp_list(
            seq![
                rlp_string(a.address.0@),
                rlp_number(a.balance),
                rlp_number(a.nonce),
                rlp_string(a.code_hash.0@),
            ],
        ),
        code_rlp(c) == rlp_list(seq![rlp_string(c.code_hash.0@), rlp_string(c.code)]),
        slot_rlp(p) == rlp_list(seq![rlp_string(p.index.0@), rlp_number(p.value)]),
        storage_rlp(t) == rlp_list(
            seq![
                rlp_string(t.address.0@),
                rlp_list(Seq::new(t.values.len(), |i: int| slot_rlp(t.values[i]))),
            ],
        ),
        diff_rlp(d) == rlp_list(
            seq![
                rlp_string(d.hash.0@),
                rlp_string(d.parent_hash.0@),
                rlp_list(Seq::new(d.new_accounts.len(), |i: int| account_rlp(d.new_accounts[i]))),
                rlp_list(
                    Seq::new(
                        d.deleted_accounts.len(),
                        |i: int| rlp_string(d.deleted_accounts[i].0@),
                    ),
                ),
                rlp_list(Seq::new(d.storage_diff.len(), |i: int| storage_rlp(d.storage_diff[i]))),
                rlp_list(Seq::new(d.new_codes.len(), |i: int| code_rlp(d.new_codes[i]))),
            ],
        ),
{
    assert(t.values.map_values(|x: SlotModel| slot_rlp(x)) =~= Seq::new(
        t.values.len(),
        |i: int| slot_rlp(t.values[i]),
    ));
    assert(d.new_accounts.map_values(|x: AccountModel| account_rlp(x)) =~= Seq::new(
        d.new_accounts.len(),
        |i: int| account_rlp(d.new_accounts[i]),
    ));
    assert(d.deleted_accounts.map_values(|x: H256| hash_rlp(x)) =~= Seq::new(
        d.deleted_accounts.len(),
        |i: int| rlp_string(d.deleted_accounts[i].0@),
    ));
    assert(d.storage_diff.map_values(|x: StorageModel| storage_rlp(x)) =~= Seq::new(
        d.storage_diff.len(),
        |i: int| storage_rlp(d.storage_diff[i]),
    ));
    assert(d.new_codes.map_values(|x: CodeModel| code_rlp(x)) =~= Seq::new(
        d.new_codes.len(),
        |i: int| code_rlp(d.new_codes[i]),
    ));
}

/// The diff without changes names both hashes and nothing else.
pub proof fn empty_diff_holds_nothing(hash: H256, parent_hash: H256)
    ensures
        empty_diff(hash, parent_hash).hash == hash,
        empty_diff(hash, parent_hash).parent_hash == parent_hash,
        empty_diff(hash, parent_hash).new_accounts.len() == 0,
        empty_diff(hash, parent_hash).deleted_accounts.len() == 0,
        empty_diff(hash, parent_hash).storage_diff.len() == 0,
        empty_diff(hash, parent_hash).new_codes.len() == 0,
{
}

/// The hash that names an account has the digest of its address for its bytes, if that has 32.
pub proof fn accounts_are_named_by_their_digest(a: H160, h: H256)
    requires
        h.0@ == keccak_of(a.0@),
    ensures
        hashed(a) == h,
{
    ByteKey::key_identifies(hashed(a), h);
}

} // verus!

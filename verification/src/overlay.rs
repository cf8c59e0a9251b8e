//! The state changes that a block leaves in the storage overlay.
//!
//! The overlay holds the net change from the parent's state, so writes of reverted frames are not
//! in it. Three storage maps are read; the key of each entry is the hash of the pallet's name, the
//! hash of the map's name, and for each key of the map its hash followed by the key itself.
use crate::listener::storage_view;
use crate::ordered::{SortedMap, SortedSet};
use crate::primitives::{ByteKey, H160, H256};
use parity_scale_codec::Decode;
use vstd::prelude::*;
use vstd::slice::slice_subrange;
use vstd::utf8::encode_utf8;

verus! {

/// The length of a key of the maps from accounts: the two names, the hash of the address and the
/// address.
pub const SYS_KEY_LEN: usize = 68;

/// The length of a key of the map from accounts to codes.
pub const CODES_KEY_LEN: usize = 68;

/// The length of a key of the map from accounts and slots to values.
pub const STORAGES_KEY_LEN: usize = 116;

/// Where the address stands in a key.
pub const ADDR_OFFSET: usize = 48;

/// Where the slot stands in a key.
pub const SLOT_OFFSET: usize = 84;

/// What a block changed.
pub struct OverlayStateDelta {
    /// The accounts that are there after the block and were changed by it.
    pub changed_accounts: SortedSet<H160>,
    pub deleted_accounts: SortedSet<H160>,
    /// The slots written, with their values after the block.
    pub storage_diff: SortedMap<H160, SortedMap<H256, H256>>,
    /// The codes set; empty where the code was cleared.
    pub code_updates: SortedMap<H160, Vec<u8>>,
}

/// What a block changed, as a mathematical value.
#[verifier::ext_equal]
pub struct DeltaModel {
    pub changed_accounts: Set<H160>,
    pub deleted_accounts: Set<H160>,
    pub storage_diff: Map<H160, Map<H256, H256>>,
    pub code_updates: Map<H160, Seq<u8>>,
}

/// The code of each account.
pub open spec fn codes_of(m: Map<H160, Vec<u8>>) -> Map<H160, Seq<u8>> {
    m.map_values(|code: Vec<u8>| code@)
}

impl View for OverlayStateDelta {
    type V = DeltaModel;

    open spec fn view(&self) -> DeltaModel {
        DeltaModel {
            changed_accounts: self.changed_accounts@,
            deleted_accounts: self.deleted_accounts@,
            storage_diff: storage_view(self.storage_diff@),
            code_updates: codes_of(self.code_updates@),
        }
    }
}

/// The 32-bit number whose bytes stand at `at`, the least significant first.
pub open spec fn le_u32(data: Seq<u8>, at: int) -> nat {
    data[at] as nat + data[at + 1] as nat * 256 + data[at + 2] as nat * 65536 + data[at + 3] as nat
        * 16777216
}

/// The length at the front of an encoded byte string, with the number of bytes it takes. The two
/// low bits of the first byte tell which of four forms it has; each length has one form.
pub open spec fn compact_len(data: Seq<u8>) -> Option<(nat, nat)> {
    if data.len() == 0 {
        None
    } else if data[0] % 4 == 0 {
        Some((data[0] as nat / 4, 1))
    } else if data[0] % 4 == 1 {
        let n = if data.len() < 2 {
            0
        } else {
            (data[0] as nat + data[1] as nat * 256) / 4
        };
        if n > 0x3f {
            Some((n, 2))
        } else {
            None
        }
    } else if data[0] % 4 == 2 {
        let n = if data.len() < 4 {
            0
        } else {
            le_u32(data, 0) / 4
        };
        if n > 0x3fff {
            Some((n, 4))
        } else {
            None
        }
    } else {
        let n = if data.len() < 5 || data[0] != 3 {
            0
        } else {
            le_u32(data, 1)
        };
        if n > 0x3fff_ffff {
            Some((n, 5))
        } else {
            None
        }
    }
}

/// The byte string whose encoding `data` starts with.
pub open spec fn scale_bytes(data: Seq<u8>) -> Option<Seq<u8>> {
    match compact_len(data) {
        Some((n, h)) => if h + n <= data.len() {
            Some(data.subrange(h as int, (h + n) as int))
        } else {
            None
        },
        None => None,
    }
}

/// `Decode::decode` of `parity_scale_codec` for `Vec<u8>`: a length in compact form, then as many
/// bytes; what follows is left unread. It fails on a length in another form, or one above what is
/// there.
#[verifier::external_body]
fn decode_bytes(data: &Vec<u8>) -> (r: Option<Vec<u8>>)
    ensures
        r is Some == scale_bytes(data@) is Some,
        r is Some ==> r->0@ == scale_bytes(data@)->0,
{
    <Vec<u8>>::decode(&mut &data[..]).ok()
}

/// `Decode::decode` of `parity_scale_codec` for `ethereum_types::H256`: the first 32 bytes. It
/// fails if there are fewer.
#[verifier::external_body]
fn decode_hash(data: &Vec<u8>) -> (r: Option<[u8; 32]>)
    ensures
        r is Some == (data@.len() >= 32),
        r is Some ==> r->0@ == data@.take(32),
{
    ethereum_types::H256::decode(&mut &data[..]).ok().map(|h| h.0)
}

/// The 128-bit XX hash of `data`.
pub uninterp spec fn twox_of(data: Seq<u8>) -> Seq<u8>;

/// `sp_core::twox_128`: the hash, a function of the data alone, has 16 bytes. Which bytes, and that
/// different data have different hashes, is not stated.
#[verifier::external_body]
fn twox_128(data: &[u8]) -> (r: Vec<u8>)
    ensures
        r@ == twox_of(data@),
        r@.len() == 16,
{
    sp_core::twox_128(data).to_vec()
}

/// The front of every key of a storage map.
pub open spec fn map_prefix(pallet: Seq<char>, map: Seq<char>) -> Seq<u8> {
    twox_of(encode_utf8(pallet)) + twox_of(encode_utf8(map))
}

/// The front of every key of a storage map.
fn prefix_of(pallet: &str, map: &str) -> (r: Vec<u8>)
    ensures
        r@ == map_prefix(pallet@, map@),
        r@.len() == 32,
{
    let mut prefix = twox_128(pallet.as_bytes());
    let mut rest = twox_128(map.as_bytes());
    prefix.append(&mut rest);
    prefix
}

/// The bytes start with those of `prefix`.
pub open spec fn starts(data: Seq<u8>, prefix: Seq<u8>) -> bool {
    prefix.len() <= data.len() && data.take(prefix.len() as int) == prefix
}

/// Whether the bytes start with those of `prefix`.
fn starts_with(data: &Vec<u8>, prefix: &Vec<u8>) -> (r: bool)
    ensures
        r == starts(data@, prefix@),
{
    if data.len() < prefix.len() {
        return false;
    }
    let mut i: usize = 0;
    while i < prefix.len()
        invariant
            i <= prefix@.len() <= data@.len(),
            forall|j: int| 0 <= j < i ==> data@[j] == prefix@[j],
        decreases prefix@.len() - i,
    {
        if data[i] != prefix[i] {
            assert(data@.take(prefix@.len() as int)[i as int] != prefix@[i as int]);
            return false;
        }
        i += 1;
    }
    assert(data@.take(prefix@.len() as int) =~= prefix@);
    true
}

/// What an entry of the overlay says.
pub enum Change {
    /// The account is there after the block.
    Alive { address: Seq<u8> },
    /// The account is gone.
    Gone { address: Seq<u8> },
    /// The code of the account.
    Code { address: Seq<u8>, code: Seq<u8> },
    /// The value of a slot of the account.
    Slot { address: Seq<u8>, slot: Seq<u8>, value: Seq<u8> },
    /// Nothing that matters here.
    Nothing,
}

/// What an entry of the overlay says. A code or value that cannot be read counts as empty or zero,
/// and so does one that was cleared.
pub open spec fn change_of(
    key: Seq<u8>,
    value: Option<Seq<u8>>,
    accounts: Seq<u8>,
    codes: Seq<u8>,
    storages: Seq<u8>,
) -> Change {
    let address = key.subrange(48, 68);
    if starts(key, accounts) {
        if key.len() != 68 {
            Change::Nothing
        } else if value is Some {
            Change::Alive { address }
        } else {
            Change::Gone { address }
        }
    } else if starts(key, codes) {
        if key.len() != 68 {
            Change::Nothing
        } else {
            let code = match value {
                Some(data) => match scale_bytes(data) {
                    Some(code) => code,
                    None => seq![],
                },
                None => seq![],
            };
            Change::Code { address, code }
        }
    } else if starts(key, storages) {
        if key.len() != 116 {
            Change::Nothing
        } else {
            let value = match value {
                Some(data) => if data.len() >= 32 {
                    data.take(32)
                } else {
                    Seq::new(32, |i: int| 0u8)
                },
                None => Seq::new(32, |i: int| 0u8),
            };
            Change::Slot { address, slot: key.subrange(84, 116), value }
        }
    } else {
        Change::Nothing
    }
}

/// The account whose address has these bytes.
pub open spec fn account_of(bytes: Seq<u8>) -> H160 {
    choose|a: H160| a.0@ == bytes
}

/// The hash that has these bytes.
pub open spec fn hash_of(bytes: Seq<u8>) -> H256 {
    choose|h: H256| h.0@ == bytes
}

/// The delta once the entry is taken in.
pub open spec fn with_change(d: DeltaModel, change: Change) -> DeltaModel {
    match change {
        Change::Alive { address } => DeltaModel {
            changed_accounts: d.changed_accounts.insert(account_of(address)),
            ..d
        },
        Change::Gone { address } => DeltaModel {
            deleted_accounts: d.deleted_accounts.insert(account_of(address)),
            ..d
        },
        Change::Code { address, code } => DeltaModel {
            changed_accounts: d.changed_accounts.insert(account_of(address)),
            code_updates: d.code_updates.insert(account_of(address), code),
            ..d
        },
        Change::Slot { address, slot, value } => {
            let a = account_of(address);
            let slots = if d.storage_diff.contains_key(a) {
                d.storage_diff[a]
            } else {
                Map::empty()
            };
            DeltaModel {
                changed_accounts: d.changed_accounts.insert(a),
                storage_diff: d.storage_diff.insert(a, slots.insert(hash_of(slot), hash_of(value))),
                ..d
            }
        },
        Change::Nothing => d,
    }
}

/// The key and the value of an entry.
pub open spec fn entry_view(e: (Vec<u8>, Option<Vec<u8>>)) -> (Seq<u8>, Option<Seq<u8>>) {
    (
        e.0@,
        match e.1 {
            Some(v) => Some(v@),
            None => None,
        },
    )
}

/// The keys and values of the entries.
pub open spec fn entries_view(s: Seq<(Vec<u8>, Option<Vec<u8>>)>) -> Seq<
    (Seq<u8>, Option<Seq<u8>>),
> {
    s.map_values(|e: (Vec<u8>, Option<Vec<u8>>)| entry_view(e))
}

/// The delta before any entry is taken in.
pub open spec fn no_change() -> DeltaModel {
    DeltaModel {
        changed_accounts: set![],
        deleted_accounts: set![],
        storage_diff: map![],
        code_updates: map![],
    }
}

/// The delta once the entries are taken in, in their order.
pub open spec fn collected(
    entries: Seq<(Seq<u8>, Option<Seq<u8>>)>,
    accounts: Seq<u8>,
    codes: Seq<u8>,
    storages: Seq<u8>,
) -> DeltaModel
    decreases entries.len(),
{
    if entries.len() == 0 {
        no_change()
    } else {
        let (key, value) = entries.last();
        with_change(
            collected(entries.drop_last(), accounts, codes, storages),
            change_of(key, value, accounts, codes, storages),
        )
    }
}

/// The delta in which an account that is gone is named nowhere else.
pub open spec fn without_deleted(d: DeltaModel) -> DeltaModel {
    DeltaModel {
        changed_accounts: d.changed_accounts.difference(d.deleted_accounts),
        storage_diff: d.storage_diff.remove_keys(d.deleted_accounts),
        code_updates: d.code_updates.remove_keys(d.deleted_accounts),
        ..d
    }
}

/// The account with the given bytes is the one that has them.
proof fn account_is_its_bytes(a: H160)
    ensures
        account_of(a.0@) == a,
{
    H160::key_identifies(account_of(a.0@), a);
}

/// The hash with the given bytes is the one that has them.
proof fn hash_is_its_bytes(h: H256)
    ensures
        hash_of(h.0@) == h,
{
    H256::key_identifies(hash_of(h.0@), h);
}

impl OverlayStateDelta {
    /// No change.
    pub fn new() -> (r: Self)
        ensures
            r@ == no_change(),
    {
        let r = OverlayStateDelta {
            changed_accounts: SortedSet::new(),
            deleted_accounts: SortedSet::new(),
            storage_diff: SortedMap::new(),
            code_updates: SortedMap::new(),
        };
        assert(r@.storage_diff =~= map![]);
        assert(r@.code_updates =~= map![]);
        r
    }

    /// Notes the value of a slot.
    fn set_slot(&mut self, address: H160, slot: H256, value: H256)
        ensures
            final(self)@ == with_change(
                old(self)@,
                Change::Slot { address: address.0@, slot: slot.0@, value: value.0@ },
            ),
    {
        let ghost before = *self;
        proof {
            account_is_its_bytes(address);
            hash_is_its_bytes(slot);
            hash_is_its_bytes(value);
        }
        let mut slots = match self.storage_diff.remove(&address) {
            Some(slots) => slots,
            None => SortedMap::new(),
        };
        slots.insert(slot, value);
        self.storage_diff.insert(address, slots);
        self.changed_accounts.insert(address);
        assert(self@.storage_diff =~= before@.storage_diff.insert(address, slots@));
    }

    /// Notes the code of an account.
    fn set_code(&mut self, address: H160, code: Vec<u8>)
        ensures
            final(self)@ == with_change(
                old(self)@,
                Change::Code { address: address.0@, code: code@ },
            ),
    {
        let ghost before = *self;
        proof {
            account_is_its_bytes(address);
        }
        self.code_updates.insert(address, code);
        self.changed_accounts.insert(address);
        assert(self@.code_updates =~= before@.code_updates.insert(address, code@));
    }

    /// Takes in an entry of the overlay.
    fn take_in(
        &mut self,
        entry: &(Vec<u8>, Option<Vec<u8>>),
        accounts: &Vec<u8>,
        codes: &Vec<u8>,
        storages: &Vec<u8>,
    )
        ensures
            final(self)@ == with_change(
                old(self)@,
                change_of(
                    entry_view(*entry).0,
                    entry_view(*entry).1,
                    accounts@,
                    codes@,
                    storages@,
                ),
            ),
    {
        let key = &entry.0;
        if starts_with(key, accounts) {
            if key.len() == SYS_KEY_LEN {
                let address = H160::from_slice(
                    slice_subrange(key.as_slice(), ADDR_OFFSET, ADDR_OFFSET + 20),
                );
                proof {
                    account_is_its_bytes(address);
                }
                match &entry.1 {
                    Some(_) => {
                        self.changed_accounts.insert(address);
                    },
                    None => {
                        self.deleted_accounts.insert(address);
                    },
                }
            }
        } else if starts_with(key, codes) {
            if key.len() == CODES_KEY_LEN {
                let address = H160::from_slice(
                    slice_subrange(key.as_slice(), ADDR_OFFSET, ADDR_OFFSET + 20),
                );
                let code = match &entry.1 {
                    Some(data) => match decode_bytes(data) {
                        Some(code) => code,
                        None => Vec::new(),
                    },
                    None => Vec::new(),
                };
                self.set_code(address, code);
            }
        } else if starts_with(key, storages) {
            if key.len() == STORAGES_KEY_LEN {
                let address = H160::from_slice(
                    slice_subrange(key.as_slice(), ADDR_OFFSET, ADDR_OFFSET + 20),
                );
                let slot = H256::from_slice(
                    slice_subrange(key.as_slice(), SLOT_OFFSET, SLOT_OFFSET + 32),
                );
                let value = match &entry.1 {
                    Some(data) => match decode_hash(data) {
                        Some(bytes) => H256(bytes),
                        None => H256::zero(),
                    },
                    None => H256::zero(),
                };
                assert(H256::zero().0@ =~= Seq::new(32, |i: int| 0u8));
                self.set_slot(address, slot, value);
            }
        }
    }

    /// Takes the accounts that are gone out of everything else.
    fn drop_deleted(&mut self)
        ensures
            final(self)@ == without_deleted(old(self)@),
    {
        let ghost before = *self;
        let n: usize = self.deleted_accounts.len();
        let ghost gone = self.deleted_accounts.keys();
        let mut i: usize = 0;
        while i < n
            invariant
                i <= n == gone.len(),
                gone == self.deleted_accounts.keys(),
                self.deleted_accounts == before.deleted_accounts,
                forall|a: H160|
                    self@.changed_accounts.contains(a) <==> before@.changed_accounts.contains(a)
                        && !gone.take(i as int).contains(a),
                forall|a: H160|
                    self@.storage_diff.contains_key(a) <==> before@.storage_diff.contains_key(a)
                        && !gone.take(i as int).contains(a),
                forall|a: H160|
                    self@.storage_diff.contains_key(a) ==> self@.storage_diff[a]
                        == before@.storage_diff[a],
                forall|a: H160|
                    self@.code_updates.contains_key(a) <==> before@.code_updates.contains_key(a)
                        && !gone.take(i as int).contains(a),
                forall|a: H160|
                    self@.code_updates.contains_key(a) ==> self@.code_updates[a]
                        == before@.code_updates[a],
            decreases n - i,
        {
            let address: H160 = *self.deleted_accounts.at(i);
            let ghost prior = self@;
            self.changed_accounts.remove(&address);
            let _slots = self.storage_diff.remove(&address);
            let _code = self.code_updates.remove(&address);
            proof {
                let shorter = gone.take(i as int);
                let longer = gone.take(i + 1);
                assert(longer =~= shorter.push(address));
                assert forall|a: H160| #[trigger] longer.contains(a) <==> (shorter.contains(a)
                    || a == address) by {
                    if shorter.contains(a) {
                        let j = choose|j: int| 0 <= j < shorter.len() && shorter[j] == a;
                        assert(longer[j] == a);
                    }
                    assert(longer[i as int] == address);
                }
                assert(self@.changed_accounts =~= prior.changed_accounts.remove(address));
                assert forall|a: H160| #[trigger] self@.changed_accounts.contains(a)
                    <==> before@.changed_accounts.contains(a) && !longer.contains(a) by {
                    assert(prior.changed_accounts.contains(a)
                        <==> before@.changed_accounts.contains(a) && !shorter.contains(a));
                }
            }
            i += 1;
        }
        proof {
            assert(gone.take(i as int) =~= gone);
            assert forall|a: H160| #[trigger] gone.contains(a) <==> before@.deleted_accounts.contains(
                a,
            ) by {}
            assert(self@.changed_accounts =~= without_deleted(before@).changed_accounts);
            assert(self@.storage_diff =~= without_deleted(before@).storage_diff);
            assert(self@.code_updates =~= without_deleted(before@).code_updates);
        }
    }
}

/// What the entries say, given the fronts of the keys of the three maps.
pub fn scan_entries(
    entries: &[(Vec<u8>, Option<Vec<u8>>)],
    accounts: &Vec<u8>,
    codes: &Vec<u8>,
    storages: &Vec<u8>,
) -> (r: OverlayStateDelta)
    ensures
        r@ == without_deleted(
            collected(entries_view(entries@), accounts@, codes@, storages@),
        ),
{
    let ghost all = entries_view(entries@);
    let mut delta = OverlayStateDelta::new();
    let mut i: usize = 0;
    assert(all.take(0) =~= seq![]);
    while i < entries.len()
        invariant
            i <= entries@.len(),
            all == entries_view(entries@),
            delta@ == collected(all.take(i as int), accounts@, codes@, storages@),
        decreases entries@.len() - i,
    {
        assert(all.take(i + 1).drop_last() =~= all.take(i as int));
        assert(all.take(i + 1).last() == entry_view(entries@[i as int]));
        delta.take_in(&entries[i], accounts, codes, storages);
        i += 1;
    }
    assert(all.take(i as int) =~= all);
    delta.drop_deleted();
    delta
}

/// What the main storage changes say of accounts, codes and slots.
pub fn scan_overlay(main_storage_changes: &[(Vec<u8>, Option<Vec<u8>>)]) -> (r: OverlayStateDelta)
    ensures
        r@ == without_deleted(
            collected(
                entries_view(main_storage_changes@),
                map_prefix("System"@, "Account"@),
                map_prefix("EVM"@, "AccountCodes"@),
                map_prefix("EVM"@, "AccountStorages"@),
            ),
        ),
        map_prefix("System"@, "Account"@).len() == 32,
        map_prefix("EVM"@, "AccountCodes"@).len() == 32,
        map_prefix("EVM"@, "AccountStorages"@).len() == 32,
{
    let accounts = prefix_of("System", "Account");
    let codes = prefix_of("EVM", "AccountCodes");
    let storages = prefix_of("EVM", "AccountStorages");
    scan_entries(main_storage_changes, &accounts, &codes, &storages)
}

/// The key is none that says something: it has a foreign front, or not the length that keys with
/// its front have. Of two equal fronts the first one counts.
pub open spec fn is_skipped_key(
    key: Seq<u8>,
    accounts: Seq<u8>,
    codes: Seq<u8>,
    storages: Seq<u8>,
) -> bool {
    if starts(key, accounts) || starts(key, codes) {
        key.len() != 68
    } else if starts(key, storages) {
        key.len() != 116
    } else {
        true
    }
}

/// An entry with a foreign front or a wrong key length is skipped wherever it stands: those before
/// it and those after it say what they say without it.
pub proof fn other_entries_are_skipped(
    before: Seq<(Seq<u8>, Option<Seq<u8>>)>,
    entry: (Seq<u8>, Option<Seq<u8>>),
    after: Seq<(Seq<u8>, Option<Seq<u8>>)>,
    accounts: Seq<u8>,
    codes: Seq<u8>,
    storages: Seq<u8>,
)
    requires
        is_skipped_key(entry.0, accounts, codes, storages),
    ensures
        collected(before + seq![entry] + after, accounts, codes, storages) == collected(
            before + after,
            accounts,
            codes,
            storages,
        ),
        without_deleted(collected(before + seq![entry] + after, accounts, codes, storages))
            == without_deleted(collected(before + after, accounts, codes, storages)),
{
    skipped_keys_say_nothing(entry.0, entry.1, accounts, codes, storages);
    entries_without_change_are_skipped(before, entry, after, accounts, codes, storages);
}

/// The keys that say nothing are those with a foreign front or a wrong length, whatever the value.
pub proof fn skipped_keys_say_nothing(
    key: Seq<u8>,
    value: Option<Seq<u8>>,
    accounts: Seq<u8>,
    codes: Seq<u8>,
    storages: Seq<u8>,
)
    ensures
        change_of(key, value, accounts, codes, storages) is Nothing == is_skipped_key(
            key,
            accounts,
            codes,
            storages,
        ),
{
}

/// An entry that says nothing can be left out wherever it stands.
pub proof fn entries_without_change_are_skipped(
    before: Seq<(Seq<u8>, Option<Seq<u8>>)>,
    entry: (Seq<u8>, Option<Seq<u8>>),
    after: Seq<(Seq<u8>, Option<Seq<u8>>)>,
    accounts: Seq<u8>,
    codes: Seq<u8>,
    storages: Seq<u8>,
)
    requires
        change_of(entry.0, entry.1, accounts, codes, storages) is Nothing,
    ensures
        collected(before + seq![entry] + after, accounts, codes, storages) == collected(
            before + after,
            accounts,
            codes,
            storages,
        ),
    decreases after.len(),
{
    let long = before + seq![entry] + after;
    let short = before + after;
    if after.len() == 0 {
        assert(long.drop_last() =~= before);
        assert(short =~= before);
        assert(long.last() == entry);
    } else {
        entries_without_change_are_skipped(
            before,
            entry,
            after.drop_last(),
            accounts,
            codes,
            storages,
        );
        assert(long.drop_last() =~= before + seq![entry] + after.drop_last());
        assert(short.drop_last() =~= before + after.drop_last());
        assert(long.last() == after.last() && short.last() == after.last());
    }
}

/// A key is skipped if it has none of the fronts, or one of them and not the length of its keys.
/// That the fronts are equally long and differ matters only for a key with the front of the slots
/// that is as long as a key of the other two maps.
pub proof fn wrong_keys_are_skipped(
    key: Seq<u8>,
    accounts: Seq<u8>,
    codes: Seq<u8>,
    storages: Seq<u8>,
)
    requires
        ({
            ||| !starts(key, accounts) && !starts(key, codes) && !starts(key, storages)
            ||| starts(key, accounts) && key.len() != 68
            ||| starts(key, codes) && key.len() != 68
            ||| starts(key, storages) && key.len() != 116
        }),
        starts(key, storages) && key.len() == 68 ==> {
            &&& accounts.len() == codes.len() == storages.len()
            &&& storages != accounts
            &&& storages != codes
        },
    ensures
        is_skipped_key(key, accounts, codes, storages),
{
}

/// Where the three fronts differ and are equally long, a key has the front of one map only: it is
/// skipped if it has none of them, or the front of one and not the length of its keys.
pub proof fn skipped_by_their_own_front(
    key: Seq<u8>,
    accounts: Seq<u8>,
    codes: Seq<u8>,
    storages: Seq<u8>,
)
    requires
        accounts.len() == codes.len() == storages.len(),
        accounts != codes,
        accounts != storages,
        codes != storages,
    ensures
        is_skipped_key(key, accounts, codes, storages) == {
            ||| !starts(key, accounts) && !starts(key, codes) && !starts(key, storages)
            ||| starts(key, accounts) && key.len() != 68
            ||| starts(key, codes) && key.len() != 68
            ||| starts(key, storages) && key.len() != 116
        },
{
}

/// An account that is gone is named nowhere else in what the entries say.
pub proof fn deleted_accounts_stand_alone(
    entries: Seq<(Seq<u8>, Option<Seq<u8>>)>,
    accounts: Seq<u8>,
    codes: Seq<u8>,
    storages: Seq<u8>,
    address: H160,
)
    ensures
        ({
            let d = without_deleted(collected(entries, accounts, codes, storages));
            d.deleted_accounts.contains(address) ==> {
                &&& !d.changed_accounts.contains(address)
                &&& !d.storage_diff.contains_key(address)
                &&& !d.code_updates.contains_key(address)
            }
        }),
{
}

/// Every account whose code or storage is named counts as changed.
pub proof fn named_accounts_are_changed(
    entries: Seq<(Seq<u8>, Option<Seq<u8>>)>,
    accounts: Seq<u8>,
    codes: Seq<u8>,
    storages: Seq<u8>,
    address: H160,
)
    ensures
        ({
            let c = collected(entries, accounts, codes, storages);
            let d = without_deleted(c);
            &&& c.storage_diff.contains_key(address) || c.code_updates.contains_key(address)
                ==> c.changed_accounts.contains(address)
            &&& d.storage_diff.contains_key(address) || d.code_updates.contains_key(address)
                ==> d.changed_accounts.contains(address)
        }),
    decreases entries.len(),
{
    if entries.len() > 0 {
        named_accounts_are_changed(entries.drop_last(), accounts, codes, storages, address);
    }
}

/// An account is gone exactly if an entry says so.
pub proof fn deleted_means_an_entry_says_so(
    entries: Seq<(Seq<u8>, Option<Seq<u8>>)>,
    accounts: Seq<u8>,
    codes: Seq<u8>,
    storages: Seq<u8>,
    address: H160,
)
    ensures
        without_deleted(collected(entries, accounts, codes, storages)).deleted_accounts.contains(
            address,
        ) == exists|i: int|
            0 <= i < entries.len() && change_of(
                (#[trigger] entries[i]).0,
                entries[i].1,
                accounts,
                codes,
                storages,
            ) == (Change::Gone { address: address.0@ }),
    decreases entries.len(),
{
    if entries.len() > 0 {
        let rest = entries.drop_last();
        let n = rest.len() as int;
        deleted_means_an_entry_says_so(rest, accounts, codes, storages, address);
        account_is_its_bytes(address);
        let last = change_of(entries[n].0, entries[n].1, accounts, codes, storages);
        if last == (Change::Gone { address: address.0@ }) {
            assert(entries[n] == entries.last());
        }
        if exists|i: int|
            0 <= i < rest.len() && change_of(
                (#[trigger] rest[i]).0,
                rest[i].1,
                accounts,
                codes,
                storages,
            ) == (Change::Gone { address: address.0@ }) {
            let i = choose|i: int|
                0 <= i < rest.len() && change_of(
                    (#[trigger] rest[i]).0,
                    rest[i].1,
                    accounts,
                    codes,
                    storages,
                ) == (Change::Gone { address: address.0@ });
            assert(entries[i] == rest[i]);
        }
        match last {
            Change::Gone { address: bytes } => {
                assert(bytes.len() == 20);
                some_account_has(bytes);
                if account_of(bytes) == address {
                    assert(bytes == address.0@);
                }
            },
            _ => {},
        }
        assert forall|i: int| 0 <= i < entries.len() && change_of(
            (#[trigger] entries[i]).0,
            entries[i].1,
            accounts,
            codes,
            storages,
        ) == (Change::Gone { address: address.0@ }) implies without_deleted(
            collected(entries, accounts, codes, storages),
        ).deleted_accounts.contains(address) by {
            if i < n {
                assert(rest[i] == entries[i]);
            }
        }
    }
}

/// Any 20 bytes are the address of an account.
proof fn some_account_has(bytes: Seq<u8>)
    requires
        bytes.len() == 20,
    ensures
        account_of(bytes).0@ == bytes,
{
    let a = H160(
        [
            bytes[0],
            bytes[1],
            bytes[2],
            bytes[3],
            bytes[4],
            bytes[5],
            bytes[6],
            bytes[7],
            bytes[8],
            bytes[9],
            bytes[10],
            bytes[11],
            bytes[12],
            bytes[13],
            bytes[14],
            bytes[15],
            bytes[16],
            bytes[17],
            bytes[18],
            bytes[19],
        ],
    );
    assert(a.0@ =~= bytes);
}

} // verus!

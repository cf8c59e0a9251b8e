//! What a block changes in the state, and its encoding.
use crate::primitives::{ByteKey, H160, H256, U256};
use crate::rlp_codec::{
    append_bytes, append_hash, append_u256, append_u64, be_bytes, begin_list, finish_stream,
    is_delimited, item_is_no_longer, joined, list_is_injective, number_is_injective, rlp_list,
    rlp_number, rlp_string, start_stream, stream_state, string_is_delimited, string_is_injective,
    with_item, with_list, wrapped_is_delimited, StreamState,
};
use rlp::RlpStream;
use sha3::{Digest, Keccak256};
use vstd::prelude::*;

verus! {

/// An account as it is after the block.
#[derive(Clone, Copy, Debug)]
pub struct NewAccount {
    pub address: H256,
    pub balance: U256,
    pub nonce: u64,
    pub code_hash: H256,
}

/// Code that was deployed in the block.
#[derive(Debug)]
pub struct NewCode {
    pub code_hash: H256,
    pub code: Vec<u8>,
}

/// The value of a storage slot after the block.
#[derive(Clone, Copy, Debug)]
pub struct IndexValuePair {
    pub index: H256,
    pub value: U256,
}

/// The storage slots of an account that the block wrote.
#[derive(Debug)]
pub struct AccountStorageDiff {
    pub address: H256,
    pub values: Vec<IndexValuePair>,
}

/// All that a block changes in the state. Accounts are named by the hashes of their addresses.
#[derive(Debug)]
pub struct BlockStorageDiff {
    pub hash: H256,
    pub parent_hash: H256,
    pub new_accounts: Vec<NewAccount>,
    pub deleted_accounts: Vec<H256>,
    pub storage_diff: Vec<AccountStorageDiff>,
    pub new_codes: Vec<NewCode>,
}

/// An account as a mathematical value.
#[verifier::ext_equal]
pub struct AccountModel {
    pub address: H256,
    pub balance: nat,
    pub nonce: nat,
    pub code_hash: H256,
}

/// Deployed code as a mathematical value.
#[verifier::ext_equal]
pub struct CodeModel {
    pub code_hash: H256,
    pub code: Seq<u8>,
}

/// A storage slot as a mathematical value.
#[verifier::ext_equal]
pub struct SlotModel {
    pub index: H256,
    pub value: nat,
}

/// The slots of an account as a mathematical value.
#[verifier::ext_equal]
pub struct StorageModel {
    pub address: H256,
    pub values: Seq<SlotModel>,
}

/// The changes of a block as a mathematical value.
#[verifier::ext_equal]
pub struct DiffModel {
    pub hash: H256,
    pub parent_hash: H256,
    pub new_accounts: Seq<AccountModel>,
    pub deleted_accounts: Seq<H256>,
    pub storage_diff: Seq<StorageModel>,
    pub new_codes: Seq<CodeModel>,
}

impl View for NewAccount {
    type V = AccountModel;

    open spec fn view(&self) -> AccountModel {
        AccountModel {
            address: self.address,
            balance: self.balance.value(),
            nonce: self.nonce as nat,
            code_hash: self.code_hash,
        }
    }
}

impl View for NewCode {
    type V = CodeModel;

    open spec fn view(&self) -> CodeModel {
        CodeModel { code_hash: self.code_hash, code: self.code@ }
    }
}

impl View for IndexValuePair {
    type V = SlotModel;

    open spec fn view(&self) -> SlotModel {
        SlotModel { index: self.index, value: self.value.value() }
    }
}

impl View for AccountStorageDiff {
    type V = StorageModel;

    open spec fn view(&self) -> StorageModel {
        StorageModel { address: self.address, values: slots_view(self.values@) }
    }
}

impl View for BlockStorageDiff {
    type V = DiffModel;

    open spec fn view(&self) -> DiffModel {
        DiffModel {
            hash: self.hash,
            parent_hash: self.parent_hash,
            new_accounts: accounts_view(self.new_accounts@),
            deleted_accounts: self.deleted_accounts@,
            storage_diff: storages_view(self.storage_diff@),
            new_codes: codes_view(self.new_codes@),
        }
    }
}

/// The accounts as mathematical values.
pub open spec fn accounts_view(s: Seq<NewAccount>) -> Seq<AccountModel> {
    s.map_values(|a: NewAccount| a@)
}

/// The slots as mathematical values.
pub open spec fn slots_view(s: Seq<IndexValuePair>) -> Seq<SlotModel> {
    s.map_values(|p: IndexValuePair| p@)
}

/// The slots of the accounts as mathematical values.
pub open spec fn storages_view(s: Seq<AccountStorageDiff>) -> Seq<StorageModel> {
    s.map_values(|d: AccountStorageDiff| d@)
}

/// The deployed codes as mathematical values.
pub open spec fn codes_view(s: Seq<NewCode>) -> Seq<CodeModel> {
    s.map_values(|c: NewCode| c@)
}

/// The encoding of a hash.
pub open spec fn hash_rlp(h: H256) -> Seq<u8> {
    rlp_string(h.0@)
}

/// The encoding of an account.
pub open spec fn account_rlp(a: AccountModel) -> Seq<u8> {
    rlp_list(
        seq![hash_rlp(a.address), rlp_number(a.balance), rlp_number(a.nonce), hash_rlp(a.code_hash)],
    )
}

/// The encoding of deployed code.
pub open spec fn code_rlp(c: CodeModel) -> Seq<u8> {
    rlp_list(seq![hash_rlp(c.code_hash), rlp_string(c.code)])
}

/// The encoding of a slot.
pub open spec fn slot_rlp(p: SlotModel) -> Seq<u8> {
    rlp_list(seq![hash_rlp(p.index), rlp_number(p.value)])
}

/// The encoding of a list of values, given the encoding of each.
pub open spec fn all_rlp<T>(s: Seq<T>, item: spec_fn(T) -> Seq<u8>) -> Seq<u8> {
    rlp_list(s.map_values(item))
}

/// The encoding of the slots of an account.
pub open spec fn storage_rlp(d: StorageModel) -> Seq<u8> {
    rlp_list(seq![hash_rlp(d.address), all_rlp(d.values, |p: SlotModel| slot_rlp(p))])
}

/// The encodings of the parts of the changes of a block.
pub open spec fn diff_items(d: DiffModel) -> Seq<Seq<u8>> {
    seq![
        hash_rlp(d.hash),
        hash_rlp(d.parent_hash),
        all_rlp(d.new_accounts, |a: AccountModel| account_rlp(a)),
        all_rlp(d.deleted_accounts, |h: H256| hash_rlp(h)),
        all_rlp(d.storage_diff, |s: StorageModel| storage_rlp(s)),
        all_rlp(d.new_codes, |c: CodeModel| code_rlp(c)),
    ]
}

/// The encoding of the changes of a block.
pub open spec fn diff_rlp(d: DiffModel) -> Seq<u8> {
    rlp_list(diff_items(d))
}

/// The stream in which a list of `n` items was opened on `s` and the items of `items` were added.
pub open spec fn with_items(s: StreamState, n: nat, items: Seq<Seq<u8>>) -> StreamState {
    if n <= items.len() {
        with_item(s, rlp_list(items))
    } else {
        (s.0, s.1.push((Some(n), items)))
    }
}

/// Adding one more item to an open list.
proof fn one_more_item(s: StreamState, n: nat, items: Seq<Seq<u8>>, item: Seq<u8>)
    requires
        items.len() < n,
    ensures
        with_item(with_items(s, n, items), item) == with_items(s, n, items.push(item)),
{
    let t = with_items(s, n, items);
    assert(t.1.drop_last() =~= s.1);
    assert(t.1.last() == (Some(n), items));
}

/// Opening a list is having no item of it yet.
proof fn no_item_yet(s: StreamState, n: nat)
    ensures
        with_list(s, n) == with_items(s, n, seq![]),
{
}

impl NewAccount {
    /// Writes the account as the next item.
    pub fn rlp_append(&self, s: &mut RlpStream)
        ensures
            stream_state(*final(s)) == with_item(stream_state(*old(s)), account_rlp(self@)),
    {
        let ghost start = stream_state(*s);
        let ghost all = seq![
            hash_rlp(self.address),
            rlp_number(self.balance.value()),
            rlp_number(self.nonce as nat),
            hash_rlp(self.code_hash),
        ];
        proof {
            no_item_yet(start, 4);
            one_more_item(start, 4, seq![], all[0]);
            one_more_item(start, 4, seq![].push(all[0]), all[1]);
            one_more_item(start, 4, seq![].push(all[0]).push(all[1]), all[2]);
            one_more_item(start, 4, seq![].push(all[0]).push(all[1]).push(all[2]), all[3]);
            assert(seq![].push(all[0]).push(all[1]).push(all[2]).push(all[3]) =~= all);
        }
        begin_list(s, 4);
        append_hash(s, &self.address);
        append_u256(s, &self.balance);
        append_u64(s, self.nonce);
        append_hash(s, &self.code_hash);
    }
}

impl NewCode {
    /// Writes the code as the next item.
    pub fn rlp_append(&self, s: &mut RlpStream)
        ensures
            stream_state(*final(s)) == with_item(stream_state(*old(s)), code_rlp(self@)),
    {
        let ghost start = stream_state(*s);
        let ghost all = seq![hash_rlp(self.code_hash), rlp_string(self.code@)];
        proof {
            no_item_yet(start, 2);
            one_more_item(start, 2, seq![], all[0]);
            one_more_item(start, 2, seq![].push(all[0]), all[1]);
            assert(seq![].push(all[0]).push(all[1]) =~= all);
        }
        begin_list(s, 2);
        append_hash(s, &self.code_hash);
        append_bytes(s, &self.code);
    }
}

impl IndexValuePair {
    /// Writes the slot as the next item.
    pub fn rlp_append(&self, s: &mut RlpStream)
        ensures
            stream_state(*final(s)) == with_item(stream_state(*old(s)), slot_rlp(self@)),
    {
        let ghost start = stream_state(*s);
        let ghost all = seq![hash_rlp(self.index), rlp_number(self.value.value())];
        proof {
            no_item_yet(start, 2);
            one_more_item(start, 2, seq![], all[0]);
            one_more_item(start, 2, seq![].push(all[0]), all[1]);
            assert(seq![].push(all[0]).push(all[1]) =~= all);
        }
        begin_list(s, 2);
        append_hash(s, &self.index);
        append_u256(s, &self.value);
    }
}

/// A value that can be written to a stream as one item.
trait RlpItem {
    /// The encoding of the value.
    spec fn item_rlp(&self) -> Seq<u8>;

    /// Writes the value as the next item.
    fn append_to(&self, s: &mut RlpStream)
        ensures
            stream_state(*final(s)) == with_item(stream_state(*old(s)), self.item_rlp()),
    ;
}

impl RlpItem for NewAccount {
    spec fn item_rlp(&self) -> Seq<u8> {
        account_rlp(self@)
    }

    fn append_to(&self, s: &mut RlpStream) {
        self.rlp_append(s)
    }
}

impl RlpItem for NewCode {
    spec fn item_rlp(&self) -> Seq<u8> {
        code_rlp(self@)
    }

    fn append_to(&self, s: &mut RlpStream) {
        self.rlp_append(s)
    }
}

impl RlpItem for IndexValuePair {
    spec fn item_rlp(&self) -> Seq<u8> {
        slot_rlp(self@)
    }

    fn append_to(&self, s: &mut RlpStream) {
        self.rlp_append(s)
    }
}

impl RlpItem for AccountStorageDiff {
    spec fn item_rlp(&self) -> Seq<u8> {
        storage_rlp(self@)
    }

    fn append_to(&self, s: &mut RlpStream) {
        self.rlp_append(s)
    }
}

impl RlpItem for H256 {
    spec fn item_rlp(&self) -> Seq<u8> {
        hash_rlp(*self)
    }

    fn append_to(&self, s: &mut RlpStream) {
        append_hash(s, self)
    }
}

/// Writes the list of `values` as the next item.
fn append_list<T: RlpItem>(s: &mut RlpStream, values: &Vec<T>)
    ensures
        stream_state(*final(s)) == with_item(
            stream_state(*old(s)),
            rlp_list(values@.map_values(|v: T| v.item_rlp())),
        ),
{
    let ghost start = stream_state(*s);
    let ghost items = values@.map_values(|v: T| v.item_rlp());
    let n: usize = values.len();
    proof {
        no_item_yet(start, n as nat);
        assert(items.take(0) =~= seq![]);
    }
    begin_list(s, n);
    let mut i: usize = 0;
    while i < n
        invariant
            i <= n == values@.len(),
            items == values@.map_values(|v: T| v.item_rlp()),
            stream_state(*s) == with_items(start, n as nat, items.take(i as int)),
        decreases n - i,
    {
        proof {
            one_more_item(start, n as nat, items.take(i as int), items[i as int]);
            assert(items.take(i as int).push(items[i as int]) =~= items.take(i + 1));
        }
        values[i].append_to(s);
        i += 1;
    }
    assert(items.take(i as int) =~= items);
}

impl AccountStorageDiff {
    /// Writes the slots of the account as the next item.
    pub fn rlp_append(&self, s: &mut RlpStream)
        ensures
            stream_state(*final(s)) == with_item(stream_state(*old(s)), storage_rlp(self@)),
    {
        let ghost start = stream_state(*s);
        let ghost slots = all_rlp(self@.values, |p: SlotModel| slot_rlp(p));
        let ghost all = seq![hash_rlp(self.address), slots];
        proof {
            no_item_yet(start, 2);
            one_more_item(start, 2, seq![], all[0]);
            one_more_item(start, 2, seq![].push(all[0]), all[1]);
            assert(seq![].push(all[0]).push(all[1]) =~= all);
            assert(self@.values.map_values(|p: SlotModel| slot_rlp(p))
                =~= self.values@.map_values(|v: IndexValuePair| v.item_rlp()));
        }
        begin_list(s, 2);
        append_hash(s, &self.address);
        append_list(s, &self.values);
    }
}

impl BlockStorageDiff {
    /// Writes the changes as the next item.
    pub fn rlp_append(&self, s: &mut RlpStream)
        ensures
            stream_state(*final(s)) == with_item(stream_state(*old(s)), diff_rlp(self@)),
    {
        let ghost start = stream_state(*s);
        let ghost d = self@;
        let ghost all = diff_items(d);
        proof {
            no_item_yet(start, 6);
            let p0: Seq<Seq<u8>> = seq![];
            let p1 = p0.push(all[0]);
            let p2 = p1.push(all[1]);
            let p3 = p2.push(all[2]);
            let p4 = p3.push(all[3]);
            let p5 = p4.push(all[4]);
            one_more_item(start, 6, p0, all[0]);
            one_more_item(start, 6, p1, all[1]);
            one_more_item(start, 6, p2, all[2]);
            one_more_item(start, 6, p3, all[3]);
            one_more_item(start, 6, p4, all[4]);
            one_more_item(start, 6, p5, all[5]);
            assert(p5.push(all[5]) =~= all);
            assert(d.new_accounts.map_values(|a: AccountModel| account_rlp(a))
                =~= self.new_accounts@.map_values(|v: NewAccount| v.item_rlp()));
            assert(d.deleted_accounts.map_values(|h: H256| hash_rlp(h))
                =~= self.deleted_accounts@.map_values(|v: H256| v.item_rlp()));
            assert(d.storage_diff.map_values(|s: StorageModel| storage_rlp(s))
                =~= self.storage_diff@.map_values(|v: AccountStorageDiff| v.item_rlp()));
            assert(d.new_codes.map_values(|c: CodeModel| code_rlp(c))
                =~= self.new_codes@.map_values(|v: NewCode| v.item_rlp()));
        }
        begin_list(s, 6);
        append_hash(s, &self.hash);
        append_hash(s, &self.parent_hash);
        append_list(s, &self.new_accounts);
        append_list(s, &self.deleted_accounts);
        append_list(s, &self.storage_diff);
        append_list(s, &self.new_codes);
    }
}

/// No changes at all.
pub open spec fn empty_diff(hash: H256, parent_hash: H256) -> DiffModel {
    DiffModel {
        hash,
        parent_hash,
        new_accounts: seq![],
        deleted_accounts: seq![],
        storage_diff: seq![],
        new_codes: seq![],
    }
}

/// No changes at all: for the first block, or one without transactions.
pub fn empty_state_diff(state_root: H256, parent_state_root: H256) -> (r: BlockStorageDiff)
    ensures
        r@ == empty_diff(state_root, parent_state_root),
{
    let r = BlockStorageDiff {
        hash: state_root,
        parent_hash: parent_state_root,
        new_accounts: Vec::new(),
        deleted_accounts: Vec::new(),
        storage_diff: Vec::new(),
        new_codes: Vec::new(),
    };
    assert(r@ =~= empty_diff(state_root, parent_state_root));
    r
}

/// The encoding of the changes of a block.
pub fn encode_state_diff(state_diff: &BlockStorageDiff) -> (r: Vec<u8>)
    ensures
        r@ == diff_rlp(state_diff@),
{
    let mut s = start_stream();
    state_diff.rlp_append(&mut s);
    finish_stream(s)
}

/// The Keccak-256 digest of `data`.
pub uninterp spec fn keccak_of(data: Seq<u8>) -> Seq<u8>;

/// `Keccak256::digest` of the crate `sha3`: the digest, a function of the data alone, has 32
/// bytes.
#[verifier::external_body]
fn keccak_digest(data: &[u8]) -> (r: Vec<u8>)
    ensures
        r@ == keccak_of(data@),
        r@.len() == 32,
{
    Keccak256::digest(data).to_vec()
}

/// The hash by which an account is named.
pub open spec fn hashed(address: H160) -> H256 {
    choose|h: H256| h.0@ == keccak_of(address.0@)
}

/// The hash by which an account is named.
pub fn address_to_hash(address: &H160) -> (r: H256)
    ensures
        r == hashed(*address),
        r.0@ == keccak_of(address.0@),
{
    let r = H256::from_slice(keccak_digest(address.0.as_slice()).as_slice());
    proof {
        H256::key_identifies(r, hashed(*address));
    }
    r
}

/// Hashes and numbers tell their own size when encoded.
proof fn leaves_are_delimited()
    ensures
        forall|h: H256| is_delimited(#[trigger] hash_rlp(h)),
        forall|n: nat| be_bytes(n).len() < 0x1_0000_0000 ==> is_delimited(#[trigger] rlp_number(n)),
{
    assert forall|h: H256| is_delimited(#[trigger] hash_rlp(h)) by {
        string_is_delimited(h.0@);
    }
    assert forall|n: nat| be_bytes(n).len() < 0x1_0000_0000 implies is_delimited(
        #[trigger] rlp_number(n),
    ) by {
        string_is_delimited(be_bytes(n));
    }
}

/// The encoding of a hash determines it.
proof fn hash_is_injective(a: H256, b: H256)
    requires
        hash_rlp(a) == hash_rlp(b),
    ensures
        a == b,
{
    string_is_injective(a.0@, b.0@);
    H256::key_identifies(a, b);
}

/// A string is no longer than its encoding.
proof fn string_is_no_longer(data: Seq<u8>)
    ensures
        data.len() <= rlp_string(data).len(),
{
}

proof fn account_is_injective(a: AccountModel, b: AccountModel)
    requires
        account_rlp(a) == account_rlp(b),
        account_rlp(a).len() < 0x1_0000_0000,
    ensures
        a == b,
{
    let x = seq![
        hash_rlp(a.address),
        rlp_number(a.balance),
        rlp_number(a.nonce),
        hash_rlp(a.code_hash),
    ];
    let y = seq![
        hash_rlp(b.address),
        rlp_number(b.balance),
        rlp_number(b.nonce),
        hash_rlp(b.code_hash),
    ];
    item_is_no_longer(x, 1);
    item_is_no_longer(x, 2);
    item_is_no_longer(y, 1);
    item_is_no_longer(y, 2);
    string_is_no_longer(be_bytes(a.balance));
    string_is_no_longer(be_bytes(a.nonce));
    string_is_no_longer(be_bytes(b.balance));
    string_is_no_longer(be_bytes(b.nonce));
    leaves_are_delimited();
    list_is_injective(x, y);
    assert(x[0] == y[0] && x[1] == y[1] && x[2] == y[2] && x[3] == y[3]);
    hash_is_injective(a.address, b.address);
    number_is_injective(a.balance, b.balance);
    number_is_injective(a.nonce, b.nonce);
    hash_is_injective(a.code_hash, b.code_hash);
}

proof fn code_is_injective(a: CodeModel, b: CodeModel)
    requires
        code_rlp(a) == code_rlp(b),
        code_rlp(a).len() < 0x1_0000_0000,
    ensures
        a == b,
{
    let x = seq![hash_rlp(a.code_hash), rlp_string(a.code)];
    let y = seq![hash_rlp(b.code_hash), rlp_string(b.code)];
    item_is_no_longer(x, 1);
    item_is_no_longer(y, 1);
    string_is_no_longer(a.code);
    string_is_no_longer(b.code);
    leaves_are_delimited();
    string_is_delimited(a.code);
    string_is_delimited(b.code);
    list_is_injective(x, y);
    assert(x[0] == y[0] && x[1] == y[1]);
    hash_is_injective(a.code_hash, b.code_hash);
    string_is_injective(a.code, b.code);
}

proof fn slot_is_injective(a: SlotModel, b: SlotModel)
    requires
        slot_rlp(a) == slot_rlp(b),
        slot_rlp(a).len() < 0x1_0000_0000,
    ensures
        a == b,
{
    let x = seq![hash_rlp(a.index), rlp_number(a.value)];
    let y = seq![hash_rlp(b.index), rlp_number(b.value)];
    item_is_no_longer(x, 1);
    item_is_no_longer(y, 1);
    string_is_no_longer(be_bytes(a.value));
    string_is_no_longer(be_bytes(b.value));
    leaves_are_delimited();
    list_is_injective(x, y);
    assert(x[0] == y[0] && x[1] == y[1]);
    hash_is_injective(a.index, b.index);
    number_is_injective(a.value, b.value);
}

/// The encoding of a list tells its own size if it is below 4 GiB.
proof fn list_is_delimited(items: Seq<Seq<u8>>)
    requires
        rlp_list(items).len() < 0x1_0000_0000,
    ensures
        is_delimited(rlp_list(items)),
{
    wrapped_is_delimited(joined(items));
}

/// Lists of values are told apart by their encodings if the values are.
proof fn all_is_injective<T>(a: Seq<T>, b: Seq<T>, item: spec_fn(T) -> Seq<u8>)
    requires
        all_rlp(a, item) == all_rlp(b, item),
        all_rlp(a, item).len() < 0x1_0000_0000,
        forall|x: T|
            (#[trigger] item(x)).len() < 0x1_0000_0000 ==> is_delimited(item(x)),
        forall|x: T, y: T|
            #[trigger] item(x) == #[trigger] item(y) && item(x).len() < 0x1_0000_0000 ==> x == y,
    ensures
        a == b,
{
    let s = a.map_values(item);
    let t = b.map_values(item);
    assert forall|i: int| 0 <= i < s.len() implies is_delimited(#[trigger] s[i]) by {
        item_is_no_longer(s, i);
        assert(s[i] == item(a[i]));
    }
    assert forall|i: int| 0 <= i < t.len() implies is_delimited(#[trigger] t[i]) by {
        item_is_no_longer(t, i);
        assert(t[i] == item(b[i]));
    }
    list_is_injective(s, t);
    assert(a.len() == b.len());
    assert forall|i: int| 0 <= i < a.len() implies a[i] == b[i] by {
        item_is_no_longer(s, i);
        assert(item(a[i]) == s[i]);
        assert(item(b[i]) == t[i]);
    }
    assert(a =~= b);
}

proof fn slots_are_injective(a: Seq<SlotModel>, b: Seq<SlotModel>)
    requires
        all_rlp(a, |p: SlotModel| slot_rlp(p)) == all_rlp(b, |p: SlotModel| slot_rlp(p)),
        all_rlp(a, |p: SlotModel| slot_rlp(p)).len() < 0x1_0000_0000,
    ensures
        a == b,
{
    let item = |p: SlotModel| slot_rlp(p);
    assert forall|x: SlotModel| (#[trigger] item(x)).len() < 0x1_0000_0000 implies is_delimited(
        item(x),
    ) by {
        list_is_delimited(seq![hash_rlp(x.index), rlp_number(x.value)]);
    }
    assert forall|x: SlotModel, y: SlotModel| #[trigger]
        item(x) == #[trigger] item(y) && item(x).len() < 0x1_0000_0000 implies x == y by {
        slot_is_injective(x, y);
    }
    all_is_injective(a, b, item);
}

proof fn storage_is_injective(a: StorageModel, b: StorageModel)
    requires
        storage_rlp(a) == storage_rlp(b),
        storage_rlp(a).len() < 0x1_0000_0000,
    ensures
        a == b,
{
    let item = |p: SlotModel| slot_rlp(p);
    let x = seq![hash_rlp(a.address), all_rlp(a.values, item)];
    let y = seq![hash_rlp(b.address), all_rlp(b.values, item)];
    item_is_no_longer(x, 1);
    item_is_no_longer(y, 1);
    leaves_are_delimited();
    list_is_delimited(a.values.map_values(item));
    list_is_delimited(b.values.map_values(item));
    list_is_injective(x, y);
    assert(x[0] == y[0] && x[1] == y[1]);
    hash_is_injective(a.address, b.address);
    slots_are_injective(a.values, b.values);
}

proof fn accounts_are_injective(a: Seq<AccountModel>, b: Seq<AccountModel>)
    requires
        all_rlp(a, |a: AccountModel| account_rlp(a)) == all_rlp(b, |a: AccountModel| account_rlp(a)),
        all_rlp(a, |a: AccountModel| account_rlp(a)).len() < 0x1_0000_0000,
    ensures
        a == b,
{
    let item = |a: AccountModel| account_rlp(a);
    assert forall|x: AccountModel| (#[trigger] item(x)).len() < 0x1_0000_0000 implies is_delimited(
        item(x),
    ) by {
        list_is_delimited(seq![hash_rlp(x.address), rlp_number(x.balance), rlp_number(x.nonce), hash_rlp(x.code_hash)]);
    }
    assert forall|x: AccountModel, y: AccountModel| #[trigger]
        item(x) == #[trigger] item(y) && item(x).len() < 0x1_0000_0000 implies x == y by {
        account_is_injective(x, y);
    }
    all_is_injective(a, b, item);
}

proof fn hashes_are_injective(a: Seq<H256>, b: Seq<H256>)
    requires
        all_rlp(a, |h: H256| hash_rlp(h)) == all_rlp(b, |h: H256| hash_rlp(h)),
        all_rlp(a, |h: H256| hash_rlp(h)).len() < 0x1_0000_0000,
    ensures
        a == b,
{
    let item = |h: H256| hash_rlp(h);
    leaves_are_delimited();
    assert forall|x: H256, y: H256| #[trigger]
        item(x) == #[trigger] item(y) && item(x).len() < 0x1_0000_0000 implies x == y by {
        hash_is_injective(x, y);
    }
    all_is_injective(a, b, item);
}

proof fn storages_are_injective(a: Seq<StorageModel>, b: Seq<StorageModel>)
    requires
        all_rlp(a, |s: StorageModel| storage_rlp(s)) == all_rlp(b, |s: StorageModel| storage_rlp(s)),
        all_rlp(a, |s: StorageModel| storage_rlp(s)).len() < 0x1_0000_0000,
    ensures
        a == b,
{
    let item = |s: StorageModel| storage_rlp(s);
    assert forall|x: StorageModel| (#[trigger] item(x)).len() < 0x1_0000_0000 implies is_delimited(
        item(x),
    ) by {
        list_is_delimited(seq![hash_rlp(x.address), all_rlp(x.values, |p: SlotModel| slot_rlp(p))]);
    }
    assert forall|x: StorageModel, y: StorageModel| #[trigger]
        item(x) == #[trigger] item(y) && item(x).len() < 0x1_0000_0000 implies x == y by {
        storage_is_injective(x, y);
    }
    all_is_injective(a, b, item);
}

proof fn codes_are_injective(a: Seq<CodeModel>, b: Seq<CodeModel>)
    requires
        all_rlp(a, |c: CodeModel| code_rlp(c)) == all_rlp(b, |c: CodeModel| code_rlp(c)),
        all_rlp(a, |c: CodeModel| code_rlp(c)).len() < 0x1_0000_0000,
    ensures
        a == b,
{
    let item = |c: CodeModel| code_rlp(c);
    assert forall|x: CodeModel| (#[trigger] item(x)).len() < 0x1_0000_0000 implies is_delimited(
        item(x),
    ) by {
        list_is_delimited(seq![hash_rlp(x.code_hash), rlp_string(x.code)]);
    }
    assert forall|x: CodeModel, y: CodeModel| #[trigger]
        item(x) == #[trigger] item(y) && item(x).len() < 0x1_0000_0000 implies x == y by {
        code_is_injective(x, y);
    }
    all_is_injective(a, b, item);
}

/// The parts of the changes of a block tell their own sizes when encoded, if all is below 4 GiB.
proof fn diff_items_are_delimited(d: DiffModel)
    requires
        diff_rlp(d).len() < 0x1_0000_0000,
    ensures
        forall|i: int|
            0 <= i < 6 ==> is_delimited(#[trigger] diff_items(d)[i]) && diff_items(d)[i].len()
                < 0x1_0000_0000,
{
    let x = diff_items(d);
    assert forall|i: int| 0 <= i < 6 implies (#[trigger] x[i]).len() < 0x1_0000_0000 by {
        item_is_no_longer(x, i);
    }
    leaves_are_delimited();
    assert(x[2].len() < 0x1_0000_0000);
    list_is_delimited(d.new_accounts.map_values(|a: AccountModel| account_rlp(a)));
    assert(x[3].len() < 0x1_0000_0000);
    list_is_delimited(d.deleted_accounts.map_values(|h: H256| hash_rlp(h)));
    assert(x[4].len() < 0x1_0000_0000);
    list_is_delimited(d.storage_diff.map_values(|s: StorageModel| storage_rlp(s)));
    assert(x[5].len() < 0x1_0000_0000);
    list_is_delimited(d.new_codes.map_values(|c: CodeModel| code_rlp(c)));
}

/// The encoding of the changes of a block determines them, as long as it is below 4 GiB.
pub proof fn encoding_determines_the_diff(a: DiffModel, b: DiffModel)
    requires
        diff_rlp(a) == diff_rlp(b),
        diff_rlp(a).len() < 0x1_0000_0000,
    ensures
        a == b,
{
    let x = diff_items(a);
    let y = diff_items(b);
    diff_items_are_delimited(a);
    diff_items_are_delimited(b);
    list_is_injective(x, y);
    assert(x[0] == y[0] && x[1] == y[1] && x[2] == y[2] && x[3] == y[3] && x[4] == y[4] && x[5]
        == y[5]);
    hash_is_injective(a.hash, b.hash);
    hash_is_injective(a.parent_hash, b.parent_hash);
    accounts_are_injective(a.new_accounts, b.new_accounts);
    hashes_are_injective(a.deleted_accounts, b.deleted_accounts);
    storages_are_injective(a.storage_diff, b.storage_diff);
    codes_are_injective(a.new_codes, b.new_codes);
    assert(a =~= b);
}

} // verus!

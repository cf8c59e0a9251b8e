//! Collections that keep their keys in ascending byte order.
use crate::primitives::{bytes_lt, differs_below, ByteKey};
use vstd::prelude::*;

verus! {

/// The keys stand in strictly ascending order, so none occurs twice.
pub open spec fn ascending<K: ByteKey>(keys: Seq<K>) -> bool {
    forall|i: int, j: int| 0 <= i < j < keys.len() ==> bytes_lt(#[trigger] keys[i].key(), #[trigger] keys[j].key())
}

/// The order on keys is transitive.
pub proof fn key_order_transitive<K: ByteKey>(a: K, b: K, c: K)
    requires
        bytes_lt(a.key(), b.key()),
        bytes_lt(b.key(), c.key()),
    ensures
        bytes_lt(a.key(), c.key()),
{
    K::key_identifies(a, b);
    K::key_identifies(c, c);
    let i = choose|i: int| 0 <= i < a.key().len() && i < b.key().len() && differs_below(a.key(), b.key(), i);
    let j = choose|j: int| 0 <= j < b.key().len() && j < c.key().len() && differs_below(b.key(), c.key(), j);
    let m = if i <= j { i } else { j };
    assert(differs_below(a.key(), c.key(), m));
}

/// No key comes before itself, and of two keys at most one comes before the other.
pub proof fn key_order_asymmetric<K: ByteKey>(a: K, b: K)
    requires
        bytes_lt(a.key(), b.key()),
    ensures
        a != b,
        !bytes_lt(b.key(), a.key()),
{
    let i = choose|i: int| 0 <= i < a.key().len() && i < b.key().len() && differs_below(a.key(), b.key(), i);
    if bytes_lt(b.key(), a.key()) {
        let j = choose|j: int| 0 <= j < b.key().len() && j < a.key().len() && differs_below(b.key(), a.key(), j);
        assert(differs_below(b.key(), a.key(), j));
        if i < j {
            assert(b.key()[i] == a.key()[i]);
        } else if j < i {
            assert(b.key()[j] == a.key()[j]);
        }
    }
}

/// Two different keys are ordered one way or the other.
pub proof fn key_order_total<K: ByteKey>(a: K, b: K)
    ensures
        a == b || bytes_lt(a.key(), b.key()) || bytes_lt(b.key(), a.key()),
{
    K::key_identifies(a, b);
    K::key_identifies(b, a);
    if a.key() != b.key() {
        assert(!(a.key() =~= b.key()));
        let d = choose|d: int| 0 <= d < a.key().len() && a.key()[d] != b.key()[d];
        first_difference(a.key(), b.key(), d);
    }
}

/// The first of the positions up to `d` where two byte strings differ decides their order.
proof fn first_difference(a: Seq<u8>, b: Seq<u8>, d: int)
    requires
        0 <= d < a.len(),
        a.len() == b.len(),
        a[d] != b[d],
    ensures
        bytes_lt(a, b) || bytes_lt(b, a),
    decreases d,
{
    if forall|j: int| 0 <= j < d ==> a[j] == b[j] {
        if a[d] < b[d] {
            assert(differs_below(a, b, d));
        } else {
            assert(differs_below(b, a, d));
        }
    } else {
        let e = choose|e: int| 0 <= e < d && a[e] != b[e];
        first_difference(a, b, e);
    }
}

/// Two ascending sequences with the same members are the same sequence.
pub proof fn ascending_is_unique<K: ByteKey>(a: Seq<K>, b: Seq<K>)
    requires
        ascending(a),
        ascending(b),
        forall|k: K| #[trigger] a.contains(k) <==> b.contains(k),
    ensures
        a == b,
    decreases a.len(),
{
    if a.len() == 0 {
        if b.len() > 0 {
            assert(b.contains(b[0]));
            assert(a.contains(b[0]));
        }
        assert(a =~= b);
    } else {
        assert(a.contains(a.last()));
        assert(b.contains(a.last()));
        assert(b.contains(b.last()));
        assert(a.contains(b.last()));
        let i = choose|i: int| 0 <= i < a.len() && a[i] == b.last();
        let j = choose|j: int| 0 <= j < b.len() && b[j] == a.last();
        if a.last() != b.last() {
            assert(bytes_lt(a[i].key(), a[a.len() - 1].key()));
            assert(bytes_lt(b[j].key(), b[b.len() - 1].key()));
            key_order_asymmetric(a.last(), b.last());
        }
        let c = a.drop_last();
        let d = b.drop_last();
        assert forall|k: K| #[trigger] c.contains(k) <==> d.contains(k) by {
            if c.contains(k) {
                let x = choose|x: int| 0 <= x < c.len() && c[x] == k;
                assert(a[x] == k);
                assert(a.contains(k));
                let y = choose|y: int| 0 <= y < b.len() && b[y] == k;
                assert(bytes_lt(a[x].key(), a[a.len() - 1].key()));
                key_order_asymmetric(k, a.last());
                assert(d[y] == k);
            }
            if d.contains(k) {
                let x = choose|x: int| 0 <= x < d.len() && d[x] == k;
                assert(b[x] == k);
                assert(b.contains(k));
                assert(a.contains(k));
                let y = choose|y: int| 0 <= y < a.len() && a[y] == k;
                assert(bytes_lt(b[x].key(), b[b.len() - 1].key()));
                key_order_asymmetric(k, b.last());
                assert(c[y] == k);
            }
        }
        ascending_is_unique(c, d);
        assert(a =~= c.push(a.last()));
        assert(b =~= d.push(b.last()));
    }
}

/// The members of `s` in ascending order.
pub open spec fn sorted<K: ByteKey>(s: Set<K>) -> Seq<K> {
    choose|q: Seq<K>| is_sorted_list(q, s)
}

/// `q` lists the members of `s` in ascending order.
pub open spec fn is_sorted_list<K: ByteKey>(q: Seq<K>, s: Set<K>) -> bool {
    ascending(q) && forall|k: K| #[trigger] q.contains(k) <==> s.contains(k)
}

/// An ascending list of the members of `s` is the sorted list of `s`.
pub proof fn sorted_is_unique<K: ByteKey>(q: Seq<K>, s: Set<K>)
    requires
        is_sorted_list(q, s),
    ensures
        sorted(s) == q,
{
    let r = sorted(s);
    assert(is_sorted_list(r, s));
    assert forall|k: K| #[trigger] q.contains(k) <==> r.contains(k) by {}
    ascending_is_unique(q, r);
}

/// A map from keys to values, kept in ascending key order.
pub struct SortedMap<K: ByteKey, V> {
    entries: Vec<(K, V)>,
}

impl<K: ByteKey, V> SortedMap<K, V> {
    #[verifier::type_invariant]
    spec fn in_order(&self) -> bool {
        ascending(self.keys())
    }

    /// The keys in ascending order.
    pub closed spec fn keys(&self) -> Seq<K> {
        self.entries@.map_values(|e: (K, V)| e.0)
    }

    /// The position of `k` among the keys.
    spec fn pos(&self, k: K) -> int {
        choose|i: int| 0 <= i < self.entries@.len() && self.entries@[i].0 == k
    }

    /// The map from keys to values.
    pub closed spec fn view(&self) -> Map<K, V> {
        Map::new(|k: K| self.keys().contains(k), |k: K| self.entries@[self.pos(k)].1)
    }

    /// What the map holds under the key at position `i`.
    proof fn entry_at(&self, i: int)
        requires
            ascending(self.keys()),
            0 <= i < self.entries@.len(),
        ensures
            self.keys()[i] == self.entries@[i].0,
            self@.contains_key(self.entries@[i].0),
            self@[self.entries@[i].0] == self.entries@[i].1,
    {
        let k = self.entries@[i].0;
        assert(self.keys()[i] == k);
        assert(self.keys().contains(k));
        let p = self.pos(k);
        assert(self.keys()[p] == k);
        if p < i {
            key_order_asymmetric(self.keys()[p], self.keys()[i]);
        } else if i < p {
            key_order_asymmetric(self.keys()[i], self.keys()[p]);
        }
    }

    pub fn new() -> (r: Self)
        ensures
            r@ == Map::<K, V>::empty(),
    {
        let r = SortedMap { entries: Vec::new() };
        assert(r@ =~= Map::<K, V>::empty());
        r
    }

    /// The number of keys.
    pub fn len(&self) -> (r: usize)
        ensures
            r == self.keys().len(),
            self.keys() == sorted(self@.dom()),
            is_sorted_list(self.keys(), self@.dom()),
    {
        proof {
            use_type_invariant(self);
            sorted_is_unique(self.keys(), self@.dom());
        }
        self.entries.len()
    }

    /// Whether the map holds no key.
    pub fn is_empty(&self) -> (r: bool)
        ensures
            r == (self@ =~= Map::<K, V>::empty()),
    {
        let r = self.entries.len() == 0;
        proof {
            if !r {
                assert(self.keys().contains(self.keys()[0]));
                assert(self@.contains_key(self.keys()[0]));
            }
        }
        r
    }

    /// The key at position `i` in ascending order, with its value.
    pub fn entry(&self, i: usize) -> (r: (&K, &V))
        requires
            i < self.keys().len(),
        ensures
            *r.0 == self.keys()[i as int],
            self@.contains_key(*r.0),
            *r.1 == self@[*r.0],
    {
        proof {
            use_type_invariant(self);
            self.entry_at(i as int);
        }
        (&self.entries[i].0, &self.entries[i].1)
    }

    /// The number of keys that come before `k`; the key at that position, if there is one, is `k`
    /// exactly when the map holds `k`.
    fn lower_bound(&self, k: &K) -> (r: usize)
        ensures
            r <= self.entries@.len(),
            forall|i: int| 0 <= i < r ==> bytes_lt((#[trigger] self.entries@[i]).0.key(), k.key()),
            forall|i: int| r <= i < self.entries@.len() ==> !bytes_lt((#[trigger] self.entries@[i]).0.key(), k.key()),
    {
        proof {
            use_type_invariant(self);
        }
        let mut lo: usize = 0;
        let mut hi: usize = self.entries.len();
        while lo < hi
            invariant
                lo <= hi <= self.entries@.len(),
                ascending(self.keys()),
                forall|i: int| 0 <= i < lo ==> bytes_lt((#[trigger] self.entries@[i]).0.key(), k.key()),
                forall|i: int| hi <= i < self.entries@.len() ==> !bytes_lt((#[trigger] self.entries@[i]).0.key(), k.key()),
            decreases hi - lo,
        {
            let mid: usize = lo + (hi - lo) / 2;
            if self.entries[mid].0.key_lt(k) {
                assert forall|i: int| 0 <= i <= mid implies bytes_lt((#[trigger] self.entries@[i]).0.key(), k.key()) by {
                    if i < mid {
                        assert(bytes_lt(self.keys()[i].key(), self.keys()[mid as int].key()));
                        key_order_transitive(self.entries@[i].0, self.entries@[mid as int].0, *k);
                    }
                }
                lo = mid + 1;
            } else {
                assert forall|i: int| mid <= i < self.entries@.len() implies !bytes_lt((#[trigger] self.entries@[i]).0.key(), k.key()) by {
                    if mid < i && bytes_lt(self.entries@[i].0.key(), k.key()) {
                        assert(bytes_lt(self.keys()[mid as int].key(), self.keys()[i].key()));
                        key_order_transitive(self.entries@[mid as int].0, self.entries@[i].0, *k);
                    }
                }
                hi = mid;
            }
        }
        lo
    }

    /// The position of `k`, or where it would have to be inserted.
    fn search(&self, k: &K) -> (r: (bool, usize))
        ensures
            r.1 <= self.entries@.len(),
            r.0 == self@.contains_key(*k),
            r.0 ==> r.1 < self.entries@.len() && self.entries@[r.1 as int].0 == *k,
            forall|i: int| 0 <= i < r.1 ==> bytes_lt((#[trigger] self.entries@[i]).0.key(), k.key()),
            !r.0 ==> forall|i: int| r.1 <= i < self.entries@.len() ==> bytes_lt(k.key(), (#[trigger] self.entries@[i]).0.key()),
    {
        proof {
            use_type_invariant(self);
        }
        let p = self.lower_bound(k);
        let found = p < self.entries.len() && self.entries[p].0.key_eq(k);
        proof {
            if found {
                self.entry_at(p as int);
            } else {
                assert forall|i: int| p <= i < self.entries@.len() implies bytes_lt(k.key(), (#[trigger] self.entries@[i]).0.key()) by {
                    key_order_total(self.entries@[i].0, *k);
                    if i > p {
                        key_order_total(self.entries@[p as int].0, *k);
                        assert(bytes_lt(self.keys()[p as int].key(), self.keys()[i].key()));
                        key_order_transitive(*k, self.entries@[p as int].0, self.entries@[i].0);
                    }
                }
                if self.keys().contains(*k) {
                    let x = choose|x: int| 0 <= x < self.keys().len() && self.keys()[x] == *k;
                    assert(self.entries@[x].0 == *k);
                    key_order_asymmetric(*k, *k);
                }
            }
        }
        (found, p)
    }

    /// The value under `k`.
    pub fn get(&self, k: &K) -> (r: Option<&V>)
        ensures
            r is Some == self@.contains_key(*k),
            r is Some ==> *r->0 == self@[*k],
    {
        let (found, p) = self.search(k);
        if found {
            proof {
                use_type_invariant(self);
                self.entry_at(p as int);
            }
            Some(&self.entries[p].1)
        } else {
            None
        }
    }

    /// Whether the map holds `k`.
    pub fn contains_key(&self, k: &K) -> (r: bool)
        ensures
            r == self@.contains_key(*k),
    {
        self.search(k).0
    }

    /// Sets the value under `k`, whether or not there was one.
    pub fn insert(&mut self, k: K, v: V)
        ensures
            final(self)@ == old(self)@.insert(k, v),
    {
        proof {
            use_type_invariant(&*self);
        }
        let (found, p) = self.search(&k);
        let ghost before = *self;
        let mut entries: Vec<(K, V)> = Vec::new();
        core::mem::swap(&mut entries, &mut self.entries);
        if found {
            entries.remove(p);
        }
        entries.insert(p, (k, v));
        let ghost after = SortedMap { entries };
        proof {
            let olds = before.entries@;
            let news = entries@;
            assert(news =~= if found { olds.update(p as int, (k, v)) } else { olds.insert(p as int, (k, v)) });
            let skip: int = if found { 0 } else { 1 };
            assert forall|i: int, j: int| 0 <= i < j < after.keys().len() implies bytes_lt(#[trigger] after.keys()[i].key(), #[trigger] after.keys()[j].key()) by {
                let oi = if i <= p { i } else { i - skip };
                let oj = if j <= p { j } else { j - skip };
                if i != p && j != p {
                    assert(before.keys()[oi] == after.keys()[i]);
                    assert(before.keys()[oj] == after.keys()[j]);
                    assert(oi < oj);
                } else if i == p {
                    assert(before.keys()[oj] == after.keys()[j]);
                    if found {
                        assert(bytes_lt(before.keys()[p as int].key(), before.keys()[oj].key()));
                    }
                    assert(bytes_lt(k.key(), olds[oj].0.key()));
                } else {
                    assert(before.keys()[oi] == after.keys()[i]);
                    assert(bytes_lt(olds[oi].0.key(), k.key()));
                }
            }
            assert forall|x: K| after@.contains_key(x) == before@.insert(k, v).contains_key(x) by {
                if after@.contains_key(x) {
                    let i = choose|i: int| 0 <= i < after.keys().len() && after.keys()[i] == x;
                    if i != p {
                        let oi = if i < p { i } else { i - skip };
                        assert(before.keys()[oi] == x);
                    }
                }
                if before@.insert(k, v).contains_key(x) {
                    if x == k {
                        assert(after.keys()[p as int] == k);
                    } else {
                        let i = choose|i: int| 0 <= i < before.keys().len() && before.keys()[i] == x;
                        let ni = if i < p { i } else { i + skip };
                        if !(found && i == p) {
                            assert(after.keys()[ni] == x);
                        }
                    }
                }
            }
            assert forall|x: K| after@.contains_key(x) implies after@[x] == before@.insert(k, v)[x] by {
                let i = choose|i: int| 0 <= i < after.keys().len() && after.keys()[i] == x;
                after.entry_at(i);
                if i == p {
                } else {
                    let oi = if i < p { i } else { i - skip };
                    before.entry_at(oi);
                    assert(before.entries@[oi] == after.entries@[i]);
                    if x == k {
                        if i < p {
                            key_order_asymmetric(after.keys()[i], after.keys()[p as int]);
                        } else {
                            key_order_asymmetric(after.keys()[p as int], after.keys()[i]);
                        }
                    }
                }
            }
            assert(after@ =~= before@.insert(k, v));
        }
        self.entries = entries;
    }

    /// Takes out what stands under `k`.
    pub fn remove(&mut self, k: &K) -> (r: Option<V>)
        ensures
            final(self)@ == old(self)@.remove(*k),
            r is Some == old(self)@.contains_key(*k),
            r is Some ==> r->0 == old(self)@[*k],
    {
        proof {
            use_type_invariant(&*self);
        }
        let (found, p) = self.search(k);
        let ghost before = *self;
        if !found {
            assert(self@ =~= self@.remove(*k));
            return None;
        }
        let mut entries: Vec<(K, V)> = Vec::new();
        core::mem::swap(&mut entries, &mut self.entries);
        let gone = entries.remove(p);
        let ghost after = SortedMap { entries };
        proof {
            before.entry_at(p as int);
            assert(entries@ =~= before.entries@.remove(p as int));
            assert forall|i: int, j: int| 0 <= i < j < after.keys().len() implies bytes_lt(#[trigger] after.keys()[i].key(), #[trigger] after.keys()[j].key()) by {
                let oi = if i < p { i } else { i + 1 };
                let oj = if j < p { j } else { j + 1 };
                assert(before.keys()[oi] == after.keys()[i]);
                assert(before.keys()[oj] == after.keys()[j]);
            }
            assert forall|x: K| after@.contains_key(x) == before@.remove(*k).contains_key(x) by {
                if after@.contains_key(x) {
                    let i = choose|i: int| 0 <= i < after.keys().len() && after.keys()[i] == x;
                    let oi = if i < p { i } else { i + 1 };
                    assert(before.keys()[oi] == x);
                    if oi < p {
                        key_order_asymmetric(before.keys()[oi], before.keys()[p as int]);
                    } else {
                        key_order_asymmetric(before.keys()[p as int], before.keys()[oi]);
                    }
                }
                if before@.remove(*k).contains_key(x) {
                    let i = choose|i: int| 0 <= i < before.keys().len() && before.keys()[i] == x;
                    let ni = if i < p { i } else { i - 1 };
                    assert(after.keys()[ni] == x);
                }
            }
            assert forall|x: K| after@.contains_key(x) implies after@[x] == before@.remove(*k)[x] by {
                let i = choose|i: int| 0 <= i < after.keys().len() && after.keys()[i] == x;
                let oi = if i < p { i } else { i + 1 };
                after.entry_at(i);
                before.entry_at(oi);
            }
            assert(after@ =~= before@.remove(*k));
        }
        self.entries = entries;
        Some(gone.1)
    }
}

/// A set of keys, kept in ascending order.
pub struct SortedSet<K: ByteKey> {
    members: SortedMap<K, ()>,
}

impl<K: ByteKey> SortedSet<K> {
    /// The members.
    pub closed spec fn view(&self) -> Set<K> {
        self.members@.dom()
    }

    /// The members in ascending order.
    pub closed spec fn keys(&self) -> Seq<K> {
        self.members.keys()
    }

    pub fn new() -> (r: Self)
        ensures
            r@ == Set::<K>::empty(),
    {
        let r = SortedSet { members: SortedMap::new() };
        assert(r@ =~= Set::<K>::empty());
        r
    }

    /// The number of members.
    pub fn len(&self) -> (r: usize)
        ensures
            r == self.keys().len(),
            self.keys() == sorted(self@),
            is_sorted_list(self.keys(), self@),
    {
        let r = self.members.len();
        proof {
            sorted_is_unique(self.keys(), self@);
        }
        r
    }

    /// Whether there is no member.
    pub fn is_empty(&self) -> (r: bool)
        ensures
            r == (self@ =~= Set::<K>::empty()),
    {
        let r = self.members.is_empty();
        proof {
            if r {
                assert(self@ =~= Set::<K>::empty());
            } else {
                let m = self.members@;
                if m.dom() =~= Set::<K>::empty() {
                    assert(m =~= Map::<K, ()>::empty());
                }
            }
        }
        r
    }

    /// The member at position `i` in ascending order.
    pub fn at(&self, i: usize) -> (r: &K)
        requires
            i < self.keys().len(),
        ensures
            *r == self.keys()[i as int],
            self@.contains(*r),
    {
        self.members.entry(i).0
    }

    /// Whether `k` is a member.
    pub fn contains(&self, k: &K) -> (r: bool)
        ensures
            r == self@.contains(*k),
    {
        self.members.contains_key(k)
    }

    /// Adds `k`.
    pub fn insert(&mut self, k: K)
        ensures
            final(self)@ == old(self)@.insert(k),
    {
        let ghost before = self.members@;
        self.members.insert(k, ());
        assert(self.members@.dom() =~= before.dom().insert(k));
    }

    /// Takes `k` out.
    pub fn remove(&mut self, k: &K)
        ensures
            final(self)@ == old(self)@.remove(*k),
    {
        let ghost before = self.members@;
        let _gone = self.members.remove(k);
        assert(self.members@.dom() =~= before.dom().remove(*k));
    }
}

} // verus!

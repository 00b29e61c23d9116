//! A lookup table from byte strings to numbers: entries are added in order, and a
//! lookup finds the value of the latest entry with the key. Keys are bucketed by
//! their 64-bit FNV-1a hash.
use vstd::prelude::*;

use std::collections::HashMap;

verus! {

broadcast use vstd::std_specs::hash::group_hash_axioms;

pub const FNV_OFFSET: u64 = 0xcbf29ce484222325u64;

pub const FNV_PRIME: u64 = 0x100000001b3u64;

/// The 64-bit FNV-1a hash of the bytes.
pub open spec fn fnv1a(s: Seq<u8>) -> u64
    decreases s.len(),
{
    if s.len() == 0 {
        FNV_OFFSET
    } else {
        vstd::wrapping::u64_specs::wrapping_mul(fnv1a(s.drop_last()) ^ (s.last() as u64), FNV_PRIME)
    }
}

/// The value of the latest of the first `n` entries whose key is `key`.
pub open spec fn latest_value(entries: Seq<(Seq<u8>, u64)>, key: Seq<u8>, n: int) -> Option<u64>
    decreases n,
{
    if n <= 0 {
        None
    } else if entries[n - 1].0 == key {
        Some(entries[n - 1].1)
    } else {
        latest_value(entries, key, n - 1)
    }
}

/// The value of the latest entry whose key is `key`.
pub open spec fn table_get(entries: Seq<(Seq<u8>, u64)>, key: Seq<u8>) -> Option<u64> {
    latest_value(entries, key, entries.len() as int)
}

struct TableParts {
    keys: Vec<Vec<u8>>,
    values: Vec<u64>,
    buckets: HashMap<u64, Vec<usize>>,
}

impl TableParts {
    fn empty() -> (r: Self)
        ensures
            r.keys@.len() == 0,
            r.values@.len() == 0,
            r.buckets@ == Map::<u64, Vec<usize>>::empty(),
    {
        TableParts { keys: Vec::new(), values: Vec::new(), buckets: HashMap::new() }
    }
}

pub struct ByteTable {
    parts: TableParts,
}

/// True when two byte strings are equal.
pub fn bytes_eq(a: &[u8], b: &[u8]) -> (r: bool)
    ensures
        r == (a@ == b@),
{
    if a.len() != b.len() {
        return false;
    }
    let mut i: usize = 0;
    while i < a.len()
        invariant
            a@.len() == b@.len(),
            i <= a@.len(),
            forall|k: int| 0 <= k < i ==> a@[k] == b@[k],
        decreases a@.len() - i,
    {
        if a[i] != b[i] {
            return false;
        }
        i = i + 1;
    }
    assert(a@ =~= b@);
    true
}

/// The FNV-1a hash of the bytes.
pub fn fnv1a_hash(bytes: &[u8]) -> (r: u64)
    ensures
        r == fnv1a(bytes@),
{
    let mut h: u64 = FNV_OFFSET;
    let mut i: usize = 0;
    while i < bytes.len()
        invariant
            i <= bytes@.len(),
            h == fnv1a(bytes@.take(i as int)),
        decreases bytes@.len() - i,
    {
        proof {
            assert(bytes@.take(i + 1).drop_last() =~= bytes@.take(i as int));
            assert(bytes@.take(i + 1).last() == bytes@[i as int]);
        }
        h = (h ^ (bytes[i] as u64)).wrapping_mul(FNV_PRIME);
        i = i + 1;
    }
    proof {
        assert(bytes@.take(bytes@.len() as int) =~= bytes@);
    }
    h
}

impl ByteTable {
    /// The entries, oldest first.
    pub closed spec fn entries(self) -> Seq<(Seq<u8>, u64)> {
        Seq::new(self.parts.keys@.len(), |i: int| (self.parts.keys@[i]@, self.parts.values@[i]))
    }

    /// Every entry sits in the bucket of its key's hash; every bucket lists, in
    /// increasing order, entries whose key has the bucket's hash.
    #[verifier::type_invariant]
    closed spec fn buckets_cover_entries(self) -> bool {
        &&& self.parts.keys@.len() == self.parts.values@.len()
        &&& forall|h: u64| #[trigger] self.parts.buckets@.contains_key(h) ==> {
            let b = self.parts.buckets@[h]@;
            &&& forall|j: int| 0 <= j < b.len() ==> #[trigger] b[j] < self.parts.keys@.len() && fnv1a(
                self.parts.keys@[b[j] as int]@,
            ) == h
            &&& forall|j: int, k: int| 0 <= j < k < b.len() ==> #[trigger] b[j] < #[trigger] b[k]
        }
        &&& forall|i: int|
            0 <= i < self.parts.keys@.len() ==> self.parts.buckets@.contains_key(#[trigger] fnv1a(self.parts.keys@[i]@))
                && self.parts.buckets@[fnv1a(self.parts.keys@[i]@)]@.contains(i as usize)
    }

    pub fn new() -> (r: Self)
        ensures
            r.entries() == Seq::<(Seq<u8>, u64)>::empty(),
    {
        let r = ByteTable { parts: TableParts::empty() };
        proof {
            assert(r.entries() =~= Seq::<(Seq<u8>, u64)>::empty());
        }
        r
    }

    pub fn len(&self) -> (r: usize)
        ensures
            r == self.entries().len(),
    {
        proof {
            use_type_invariant(self);
        }
        self.parts.keys.len()
    }

    /// Adds an entry after all others.
    pub fn push(&mut self, key: Vec<u8>, value: u64)
        ensures
            final(self).entries() == old(self).entries().push((key@, value)),
    {
        proof {
            use_type_invariant(&*self);
        }
        let idx = self.parts.keys.len();
        let h = fnv1a_hash(key.as_slice());
        let mut parts = TableParts::empty();
        std::mem::swap(&mut self.parts, &mut parts);
        let TableParts { keys: mut keys, values: mut values, buckets: mut buckets } = parts;
        let ghost old_keys = keys@;
        let ghost old_buckets = buckets@;
        let mut bucket = match buckets.remove(&h) {
            Some(b) => b,
            None => Vec::new(),
        };
        let ghost old_bucket = bucket@;
        bucket.push(idx);
        buckets.insert(h, bucket);
        keys.push(key);
        values.push(value);
        proof {
            assert forall|hh: u64| #[trigger] buckets@.contains_key(hh) implies ({
                let b = buckets@[hh]@;
                &&& forall|j: int| 0 <= j < b.len() ==> #[trigger] b[j] < keys@.len() && fnv1a(
                    keys@[b[j] as int]@,
                ) == hh
                &&& forall|j: int, k: int| 0 <= j < k < b.len() ==> #[trigger] b[j] < #[trigger] b[k]
            }) by {
                if hh == h {
                    let b = buckets@[hh]@;
                    assert(b == old_bucket.push(idx));
                    assert forall|j: int| 0 <= j < b.len() implies #[trigger] b[j] < keys@.len() && fnv1a(
                        keys@[b[j] as int]@,
                    ) == hh by {
                        if j < old_bucket.len() {
                            assert(old_buckets.contains_key(h));
                            assert(old_bucket[j] == old_buckets[h]@[j]);
                            assert(keys@[b[j] as int] == old_keys[b[j] as int]);
                        }
                    }
                    assert forall|j: int, k: int| 0 <= j < k < b.len() implies #[trigger] b[j] < #[trigger] b[k] by {
                        if k < old_bucket.len() {
                            assert(old_bucket[j] == old_buckets[h]@[j]);
                            assert(old_bucket[k] == old_buckets[h]@[k]);
                        } else {
                            assert(old_bucket[j] == old_buckets[h]@[j]);
                        }
                    }
                } else {
                    assert(old_buckets.contains_key(hh));
                    assert(buckets@[hh] == old_buckets[hh]);
                    let b = buckets@[hh]@;
                    assert forall|j: int| 0 <= j < b.len() implies #[trigger] b[j] < keys@.len() && fnv1a(
                        keys@[b[j] as int]@,
                    ) == hh by {
                        assert(keys@[b[j] as int] == old_keys[b[j] as int]);
                    }
                }
            }
            assert forall|i: int| 0 <= i < keys@.len() implies buckets@.contains_key(#[trigger] fnv1a(keys@[i]@))
                && buckets@[fnv1a(keys@[i]@)]@.contains(i as usize) by {
                if i < old_keys.len() {
                    assert(keys@[i] == old_keys[i]);
                    let hh = fnv1a(old_keys[i]@);
                    if hh == h {
                        let k = choose|k: int| 0 <= k < old_buckets[h]@.len() && old_buckets[h]@[k] == i as usize;
                        assert(buckets@[h]@[k] == i as usize);
                    } else {
                        assert(buckets@[hh] == old_buckets[hh]);
                    }
                } else {
                    assert(buckets@[h]@[old_bucket.len() as int] == idx);
                }
            }
        }
        self.parts = TableParts { keys, values, buckets };
        proof {
            assert(self.entries() =~= old(self).entries().push((key@, value)));
        }
    }

    /// The value of the latest entry whose key is `key`.
    pub fn get(&self, key: &[u8]) -> (r: Option<u64>)
        ensures
            r == table_get(self.entries(), key@),
    {
        proof {
            use_type_invariant(self);
        }
        let h = fnv1a_hash(key);
        let bucket = match self.parts.buckets.get(&h) {
            Some(b) => b,
            None => {
                proof {
                    assert forall|i: int| 0 <= i < self.parts.keys@.len() implies #[trigger] self.entries()[i].0
                        != key@ by {
                        assert(self.parts.buckets@.contains_key(fnv1a(self.parts.keys@[i]@)));
                    }
                    lemma_absent_key(self.entries(), key@, self.parts.keys@.len() as int);
                }
                return None;
            },
        };
        let ghost bs = bucket@;
        let n = self.parts.keys.len();
        proof {
            assert(bs == self.parts.buckets@[h]@);
            assert forall|k: int| 0 <= k < bs.len() implies #[trigger] bs[k] < n by {
                assert(bs[k] < self.parts.keys@.len());
            }
        }
        let mut j = bucket.len();
        while j > 0
            invariant
                n == self.parts.keys@.len(),
                n == self.parts.values@.len(),
                bs == bucket@,
                h == fnv1a(key@),
                self.parts.buckets@.contains_key(h),
                bs == self.parts.buckets@[h]@,
                j <= bs.len(),
                forall|k: int| 0 <= k < bs.len() ==> #[trigger] bs[k] < n,
                forall|k: int| j <= k < bs.len() ==> self.parts.keys@[#[trigger] bs[k] as int]@ != key@,
            decreases j,
        {
            let idx = bucket[j - 1];
            if bytes_eq(self.parts.keys[idx].as_slice(), key) {
                proof {
                    use_type_invariant(self);
                    assert(self.entries()[idx as int].0 == key@);
                    assert forall|i: int| idx < i < n implies #[trigger] self.entries()[i].0 != key@ by {
                        if self.parts.keys@[i]@ == key@ {
                            assert(fnv1a(self.parts.keys@[i]@) == h);
                            assert(self.parts.buckets@[h]@.contains(i as usize));
                            let k = choose|k: int| 0 <= k < bs.len() && bs[k] == i as usize;
                            if k < j - 1 {
                                assert(bs[k] < bs[j - 1]);
                            } else if k > j - 1 {
                                assert(self.parts.keys@[bs[k] as int]@ != key@);
                            }
                        }
                    }
                    lemma_latest_is(self.entries(), key@, idx as int, n as int);
                }
                return Some(self.parts.values[idx]);
            }
            j = j - 1;
        }
        proof {
            use_type_invariant(self);
            assert forall|i: int| 0 <= i < n implies #[trigger] self.entries()[i].0 != key@ by {
                if self.parts.keys@[i]@ == key@ {
                    assert(fnv1a(self.parts.keys@[i]@) == h);
                    assert(self.parts.buckets@[h]@.contains(i as usize));
                    let k = choose|k: int| 0 <= k < bs.len() && bs[k] == i as usize;
                    assert(self.parts.keys@[bs[k] as int]@ != key@);
                }
            }
            lemma_absent_key(self.entries(), key@, n as int);
        }
        None
    }
}

/// A value found in the table is the value of one of its entries with that key.
pub proof fn lemma_found_value_is_entry(entries: Seq<(Seq<u8>, u64)>, key: Seq<u8>, n: int)
    requires
        0 <= n <= entries.len(),
        latest_value(entries, key, n) is Some,
    ensures
        exists|k: int| 0 <= k < n && entries[k].0 == key && #[trigger] entries[k].1 == latest_value(entries, key, n)->Some_0,
    decreases n,
{
    if entries[n - 1].0 != key {
        lemma_found_value_is_entry(entries, key, n - 1);
        let k = choose|k: int| 0 <= k < n - 1 && entries[k].0 == key && #[trigger] entries[k].1 == latest_value(
            entries,
            key,
            n - 1,
        )->Some_0;
        assert(entries[k].1 == latest_value(entries, key, n)->Some_0);
    } else {
        assert(entries[n - 1].1 == latest_value(entries, key, n)->Some_0);
    }
}

proof fn lemma_absent_key(entries: Seq<(Seq<u8>, u64)>, key: Seq<u8>, n: int)
    requires
        0 <= n <= entries.len(),
    ensures
        (forall|i: int| 0 <= i < n ==> #[trigger] entries[i].0 != key) ==> latest_value(entries, key, n) is None,
    decreases n,
{
    if n > 0 {
        lemma_absent_key(entries, key, n - 1);
    }
}

proof fn lemma_latest_is(entries: Seq<(Seq<u8>, u64)>, key: Seq<u8>, idx: int, n: int)
    requires
        0 <= idx < n <= entries.len(),
        entries[idx].0 == key,
    ensures
        (forall|i: int| idx < i < n ==> #[trigger] entries[i].0 != key) ==> latest_value(entries, key, n) == Some(
            entries[idx].1,
        ),
    decreases n,
{
    if n - 1 > idx {
        lemma_latest_is(entries, key, idx, n - 1);
    }
}

} // verus!

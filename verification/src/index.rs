//! A map from keys that are compared by their view.
//!
//! Entries are filed under a 64-bit digest of the key, so a lookup only
//! compares the keys that share the digest.

use std::collections::HashMap;
use vstd::prelude::*;

verus! {

/// A key that can be filed in a [`KeyIndex`].
pub trait IndexKey: View + Sized {
    /// The digest of a key, as a function of its view alone.
    spec fn digest_of(v: Self::V) -> u64;

    /// Computes the digest.
    fn digest(&self) -> (d: u64)
        ensures
            d == Self::digest_of(self@),
    ;

    /// Compares two keys by their views.
    fn same(&self, other: &Self) -> (b: bool)
        ensures
            b == (self@ == other@),
    ;
}

/// A map from the views of keys to values.
pub struct KeyIndex<K: IndexKey, T: Copy> {
    buckets: HashMap<u64, Vec<(K, T)>>,
    contents: Ghost<Map<K::V, T>>,
}

impl<K: IndexKey, T: Copy> View for KeyIndex<K, T> {
    type V = Map<K::V, T>;

    closed spec fn view(&self) -> Map<K::V, T> {
        self.contents@
    }
}

/// `bucket` holds the entry for `k` at position `i`.
spec fn filed_at<K: IndexKey, T>(bucket: Seq<(K, T)>, i: int, k: K::V) -> bool {
    0 <= i < bucket.len() && bucket[i].0@ == k
}

/// The entries of one bucket, against the contents of the whole map: every
/// entry is filed under its own digest, with the value of its key, and no key
/// occurs twice.
spec fn bucket_wf<K: IndexKey, T>(contents: Map<K::V, T>, d: u64, bucket: Seq<(K, T)>) -> bool {
    &&& forall|i: int|
        0 <= i < bucket.len() ==> {
            &&& K::digest_of((#[trigger] bucket[i]).0@) == d
            &&& contents.contains_key(bucket[i].0@)
            &&& contents[bucket[i].0@] == bucket[i].1
        }
    &&& forall|i: int, j: int|
        0 <= i < j < bucket.len() ==> (#[trigger] bucket[i]).0@ != (#[trigger] bucket[j]).0@
}

impl<K: IndexKey, T: Copy> KeyIndex<K, T> {
    /// The buckets hold exactly the contents.
    pub closed spec fn wf(self) -> bool {
        &&& forall|d: u64| #[trigger]
            self.buckets@.contains_key(d) ==> bucket_wf::<K, T>(
                self.contents@,
                d,
                self.buckets@[d]@,
            )
        &&& forall|k: K::V| #[trigger]
            self.contents@.contains_key(k) ==> {
                &&& self.buckets@.contains_key(K::digest_of(k))
                &&& exists|i: int| filed_at(self.buckets@[K::digest_of(k)]@, i, k)
            }
    }

    /// An empty map.
    pub fn new() -> (r: Self)
        ensures
            r.wf(),
            r@ == Map::<K::V, T>::empty(),
    {
        KeyIndex { buckets: HashMap::new(), contents: Ghost(Map::empty()) }
    }

    /// The position of `key` in a bucket, if it is there.
    fn position(bucket: &Vec<(K, T)>, key: &K) -> (r: Option<usize>)
        ensures
            match r {
                Some(i) => filed_at(bucket@, i as int, key@),
                None => forall|i: int| !filed_at(bucket@, i, key@),
            },
    {
        let mut i: usize = 0;
        while i < bucket.len()
            invariant
                i <= bucket.len(),
                forall|j: int| 0 <= j < i ==> (#[trigger] bucket@[j]).0@ != key@,
            decreases bucket.len() - i,
        {
            if bucket[i].0.same(key) {
                return Some(i);
            }
            i = i + 1;
        }
        None
    }

    /// The value of `key`, if it has one.
    pub fn get(&self, key: &K) -> (r: Option<T>)
        requires
            self.wf(),
        ensures
            r == (if self@.contains_key(key@) {
                Some(self@[key@])
            } else {
                None
            }),
    {
        let d: u64 = key.digest();
        match self.buckets.get(&d) {
            Some(bucket) => match Self::position(bucket, key) {
                Some(i) => {
                    assert(bucket@[i as int].0@ == key@);
                    Some(bucket[i].1)
                },
                None => None,
            },
            None => None,
        }
    }

    /// Gives `key` a value, in place of the one it had.
    pub fn insert(&mut self, key: K, value: T)
        requires
            old(self).wf(),
        ensures
            final(self).wf(),
            final(self)@ == old(self)@.insert(key@, value),
    {
        let ghost before = *self;
        let d: u64 = key.digest();
        let mut bucket: Vec<(K, T)> = match self.buckets.remove(&d) {
            Some(bucket) => bucket,
            None => Vec::new(),
        };
        let ghost kept = bucket@;
        let ghost k = key@;
        let ghost at: int;
        match Self::position(&bucket, &key) {
            Some(i) => {
                proof {
                    at = i as int;
                }
                assert(kept[i as int].0@ == k);
                bucket[i] = (key, value);
            },
            None => {
                proof {
                    at = kept.len() as int;
                    assert(forall|i: int| 0 <= i < kept.len() ==> !filed_at(kept, i, k));
                }
                bucket.push((key, value));
            },
        }
        let ghost filed = bucket@;
        assert(filed[at].0@ == k && filed[at].1 == value);
        self.contents = Ghost(self.contents@.insert(k, value));
        self.buckets.insert(d, bucket);
        proof {
            assert(filed_at(self.buckets@[d]@, at, k));
            assert forall|other: K::V| #[trigger] self.contents@.contains_key(other) implies {
                &&& self.buckets@.contains_key(K::digest_of(other))
                &&& exists|i: int| filed_at(self.buckets@[K::digest_of(other)]@, i, other)
            } by {
                if other != k {
                    assert(before.contents@.contains_key(other));
                    let i = choose|i: int|
                        filed_at(before.buckets@[K::digest_of(other)]@, i, other);
                    assert(filed_at(before.buckets@[K::digest_of(other)]@, i, other));
                    assert(filed_at(self.buckets@[K::digest_of(other)]@, i, other));
                }
            }
        }
    }
}

} // verus!

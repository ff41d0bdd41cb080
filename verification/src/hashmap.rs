//! A small general-purpose associative container: fixed-bucket hashing with
//! chaining.  Sixteen buckets, each a vector of key/value pairs kept in
//! insertion order; lookups return the first pair inserted with the key.

use vstd::prelude::*;
use vstd::wrapping::usize_specs;

verus! {

/// One folding step of the byte hasher: multiply the state by 33 and add
/// the byte, both wrapping.
pub open spec fn hash_step(st: usize, b: u8) -> usize {
    usize_specs::wrapping_add(usize_specs::wrapping_mul(st, 33), b as usize)
}

/// Folds a byte sequence into a hasher state, front to back.
pub open spec fn hash_fold(st: usize, bs: Seq<u8>) -> usize
    decreases bs.len(),
{
    if bs.len() == 0 {
        st
    } else {
        hash_fold(hash_step(st, bs[0]), bs.drop_first())
    }
}

/// The byte hasher the map uses: a fixed-seed multiply-by-33 fold.
pub struct DefaultHasher {
    state: usize,
}

impl DefaultHasher {
    /// The current hasher state.
    pub closed spec fn spec_state(self) -> usize {
        self.state
    }

    /// A fresh hasher.
    pub fn new() -> (r: Self)
        ensures
            r.spec_state() == 42,
    {
        DefaultHasher { state: 42 }
    }

    /// Folds `bytes` into the state.
    pub fn write(&mut self, bytes: &[u8])
        ensures
            final(self).spec_state() == hash_fold(old(self).spec_state(), bytes@),
    {
        proof {
            assert(bytes@.skip(0) =~= bytes@);
        }
        let n = bytes.len();
        let mut i: usize = 0;
        while i < n
            invariant
                i <= n,
                n == bytes@.len(),
                hash_fold(self.state, bytes@.skip(i as int)) == hash_fold(
                    old(self).spec_state(),
                    bytes@,
                ),
            decreases n - i,
        {
            let b = bytes[i];
            proof {
                assert(bytes@.skip(i as int)[0] == bytes@[i as int]);
                assert(bytes@.skip(i as int).drop_first() =~= bytes@.skip(i as int + 1));
            }
            self.state = self.state.wrapping_mul(33).wrapping_add(b as usize);
            i = i + 1;
        }
        proof {
            assert(bytes@.skip(n as int) =~= Seq::<u8>::empty());
        }
    }

    /// The current state as a 64-bit value.
    pub fn finish(&self) -> (r: u64)
        ensures
            r == self.spec_state() as u64,
    {
        self.state as u64
    }
}

/// Keys usable by the map.  A key is hashed and compared through an abstract
/// integer value, so that equal keys hash alike.
pub trait MapKey: Sized {
    /// The abstract value this key stands for.
    spec fn abs(&self) -> int;

    /// The hash of a key with abstract value `k`.
    spec fn hash_of(k: int) -> usize;

    /// Computes this key's hash.
    fn key_hash(&self) -> (h: usize)
        ensures
            h == Self::hash_of(self.abs()),
    ;

    /// Compares this key with another.
    fn key_eq(&self, other: &Self) -> (r: bool)
        ensures
            r == (self.abs() == other.abs()),
    ;
}

/// The little-endian bytes of a 64-bit value.
pub open spec fn le_bytes8(x: u64) -> Seq<u8> {
    Seq::new(8, |i: int| (x >> ((8 * i) as u32)) as u8)
}

impl MapKey for u64 {
    open spec fn abs(&self) -> int {
        *self as int
    }

    open spec fn hash_of(k: int) -> usize {
        hash_fold(42, le_bytes8(k as u64))
    }

    fn key_hash(&self) -> (h: usize) {
        let x: u64 = *self;
        let mut bytes: Vec<u8> = Vec::new();
        let mut i: usize = 0;
        while i < 8
            invariant
                i <= 8,
                bytes@.len() == i,
                forall|j: int| 0 <= j < i ==> bytes@[j] == le_bytes8(x)[j],
            decreases 8 - i,
        {
            let b: u8 = #[verifier::truncate] ((x >> ((8 * i) as u32)) as u8);
            bytes.push(b);
            i = i + 1;
        }
        proof {
            assert(bytes@ =~= le_bytes8(x));
        }
        let mut hasher = DefaultHasher::new();
        hasher.write(bytes.as_slice());
        let h64 = hasher.finish();
        h64 as usize
    }

    fn key_eq(&self, other: &Self) -> (r: bool) {
        *self == *other
    }
}

/// The value of the first pair in `b` whose key has abstract value `k`.
pub open spec fn first_match<K: MapKey, V>(b: Seq<(K, V)>, k: int) -> Option<V>
    decreases b.len(),
{
    if b.len() <= 0 {
        None
    } else if b[0].0.abs() == k {
        Some(b[0].1)
    } else {
        first_match(b.drop_first(), k)
    }
}

/// Appending a pair to a bucket changes no earlier match: a lookup sees the
/// appended pair only when nothing in the bucket matched before.
proof fn lemma_first_match_push<K: MapKey, V>(b: Seq<(K, V)>, p: (K, V), k: int)
    ensures
        first_match(b.push(p), k) == (if first_match(b, k) is Some {
            first_match(b, k)
        } else if p.0.abs() == k {
            Some(p.1)
        } else {
            None::<V>
        }),
    decreases b.len(),
{
    if b.len() == 0 {
        assert(first_match(b, k) is None);
        assert(b.push(p)[0] == p);
        assert(b.push(p).drop_first() =~= Seq::<(K, V)>::empty());
        assert(first_match(Seq::<(K, V)>::empty(), k) is None);
    } else {
        assert(b.push(p)[0] == b[0]);
        assert(b.push(p).drop_first() =~= b.drop_first().push(p));
        lemma_first_match_push(b.drop_first(), p, k);
    }
}

/// If nothing in `b` before position `j` matches `k`, the first match is at
/// `j` when `b[j]` matches, and there is none when `j` runs off the end.
proof fn lemma_first_match_at<K: MapKey, V>(b: Seq<(K, V)>, k: int, j: int)
    requires
        0 <= j <= b.len(),
        forall|jj: int| 0 <= jj < j ==> (#[trigger] b[jj].0.abs()) != k,
    ensures
        j < b.len() && b[j].0.abs() == k ==> first_match(b, k) == Some(b[j].1),
        j == b.len() ==> first_match(b, k) is None,
    decreases b.len(),
{
    if b.len() > 0 && j > 0 {
        assert(b[0].0.abs() != k);
        lemma_first_match_at(b.drop_first(), k, j - 1);
    }
}

/// A fixed-bucket chained hash map.
pub struct HashMap<K, V> {
    table: Vec<Vec<(K, V)>>,
    size: usize,
}

impl<K, V> View for HashMap<K, V> {
    type V = Seq<Seq<(K, V)>>;

    closed spec fn view(&self) -> Seq<Seq<(K, V)>> {
        self.table@.map_values(|b: Vec<(K, V)>| b@)
    }
}

impl<K, V> HashMap<K, V> {
    /// The map always has exactly sixteen buckets.
    pub open spec fn wf(self) -> bool {
        self@.len() == 16
    }

    /// Number of insertions performed so far.
    pub closed spec fn spec_size(self) -> int {
        self.size as int
    }
}

impl<K: MapKey, V> HashMap<K, V> {
    /// The bucket a key with abstract value `k` lives in.
    pub open spec fn spec_bucket_of(k: int) -> int {
        (K::hash_of(k) as int) % 16
    }

    /// The value the map associates with abstract key `k`: the value of the
    /// first pair inserted with that key, if any.
    pub open spec fn spec_get(self, k: int) -> Option<V> {
        first_match(self@[Self::spec_bucket_of(k)], k)
    }

    /// An empty map with sixteen empty buckets.
    pub fn new() -> (r: Self)
        ensures
            r.wf(),
            r.spec_size() == 0,
            forall|i: int| 0 <= i < 16 ==> (#[trigger] r@[i]) == Seq::<(K, V)>::empty(),
            forall|k: int| r.spec_get(k) is None,
    {
        let mut table: Vec<Vec<(K, V)>> = Vec::new();
        let mut i: usize = 0;
        while i < 16
            invariant
                i <= 16,
                table@.len() == i,
                forall|j: int| 0 <= j < i ==> (#[trigger] table@[j])@ == Seq::<(K, V)>::empty(),
            decreases 16 - i,
        {
            table.push(Vec::new());
            i = i + 1;
        }
        let r = HashMap { table, size: 0 };
        proof {
            assert(forall|i: int| 0 <= i < 16 ==> (#[trigger] r@[i]) == Seq::<(K, V)>::empty());
        }
        r
    }

    /// Hashes a key.
    fn hash(&self, msg: &K) -> (h: usize)
        ensures
            h == K::hash_of(msg.abs()),
    {
        msg.key_hash()
    }

    /// Appends the pair `(key, value)` to the key's bucket.
    ///
    /// An earlier pair with the same key is kept and keeps shadowing the new
    /// one: lookups return the first inserted value.
    pub fn insert(&mut self, key: K, value: V)
        requires
            old(self).wf(),
            old(self).spec_size() < usize::MAX,
        ensures
            final(self).wf(),
            final(self).spec_size() == old(self).spec_size() + 1,
            final(self)@ == old(self)@.update(
                Self::spec_bucket_of(key.abs()),
                old(self)@[Self::spec_bucket_of(key.abs())].push((key, value)),
            ),
            final(self).spec_get(key.abs()) == (if old(self).spec_get(key.abs()) is Some {
                old(self).spec_get(key.abs())
            } else {
                Some(value)
            }),
            forall|k2: int|
                k2 != key.abs() ==> #[trigger] final(self).spec_get(k2) == old(self).spec_get(k2),
    {
        let ghost old_table = self.table@;
        let h = self.hash(&key);
        let idx = h % self.table.len();
        let ghost b = Self::spec_bucket_of(key.abs());
        proof {
            assert(self@.len() == self.table@.len());
            assert(idx == b);
        }
        let ghost pair = (key, value);
        self.table[idx].push((key, value));
        self.size = self.size + 1;
        proof {
            assert(self@ =~= old(self)@.update(b, old(self)@[b].push(pair)));
            lemma_first_match_push(old(self)@[b], pair, key.abs());
            assert forall|k2: int|
                k2 != key.abs() implies #[trigger] final(self).spec_get(k2) == old(
                self,
            ).spec_get(k2) by {
                let b2 = Self::spec_bucket_of(k2);
                if b2 == b {
                    lemma_first_match_push(old(self)@[b], pair, k2);
                }
            }
        }
    }

    /// Looks a key up: returns a reference to the value of the first pair
    /// inserted with this key, or `None` when the key is absent.
    pub fn get(&self, key: &K) -> (r: Option<&V>)
        requires
            self.wf(),
        ensures
            match r {
                Some(v) => self.spec_get(key.abs()) == Some(*v),
                None => self.spec_get(key.abs()) is None,
            },
    {
        let h = self.hash(key);
        let idx = h % self.table.len();
        let ghost b = Self::spec_bucket_of(key.abs());
        proof {
            assert(self@.len() == self.table@.len());
            assert(idx == b);
        }
        let bucket: &Vec<(K, V)> = &self.table[idx];
        proof {
            assert(bucket@ == self@[b]);
        }
        let n = bucket.len();
        let mut j: usize = 0;
        while j < n
            invariant
                j <= n,
                n == bucket@.len(),
                bucket@ == self@[b],
                b == Self::spec_bucket_of(key.abs()),
                forall|jj: int| 0 <= jj < j ==> (#[trigger] bucket@[jj].0.abs()) != key.abs(),
            decreases n - j,
        {
            if bucket[j].0.key_eq(key) {
                proof {
                    lemma_first_match_at(bucket@, key.abs(), j as int);
                }
                return Some(&bucket[j].1);
            }
            j = j + 1;
        }
        proof {
            lemma_first_match_at(bucket@, key.abs(), n as int);
        }
        None
    }

    /// An iterator over every pair in the map, bucket by bucket, each bucket
    /// in insertion order.
    pub fn iter<'a>(&'a self) -> (r: Iter<'a, K, V>)
        requires
            self.wf(),
        ensures
            r.wf(),
            r.spec_map() == *self,
            r.remaining() == tail_from(self@, 0, 0),
    {
        Iter { map: self, bucket: 0, index: 0 }
    }
}

/// The pairs of `bs` not yet visited by an iterator standing at bucket `b`,
/// position `i`: the rest of bucket `b`, then every later bucket.
pub open spec fn tail_from<K, V>(bs: Seq<Seq<(K, V)>>, b: int, i: int) -> Seq<(K, V)>
    decreases bs.len() - b,
{
    if b < 0 || b >= bs.len() {
        Seq::empty()
    } else {
        bs[b].skip(i) + tail_from(bs, b + 1, 0)
    }
}

/// An iterator over the pairs of a `HashMap`.
pub struct Iter<'a, K, V> {
    map: &'a HashMap<K, V>,
    bucket: usize,
    index: usize,
}

impl<'a, K, V> Iter<'a, K, V> {
    /// The map being iterated.
    pub closed spec fn spec_map(self) -> HashMap<K, V> {
        *self.map
    }

    /// The bucket the iterator stands in.
    pub closed spec fn spec_bucket(self) -> int {
        self.bucket as int
    }

    /// The position within that bucket.
    pub closed spec fn spec_index(self) -> int {
        self.index as int
    }

    /// The iterator points into its sixteen-bucket map.
    pub open spec fn wf(self) -> bool {
        &&& self.spec_map().wf()
        &&& 0 <= self.spec_bucket() <= 16
        &&& if self.spec_bucket() < 16 {
            0 <= self.spec_index() <= self.spec_map()@[self.spec_bucket()].len()
        } else {
            self.spec_index() == 0
        }
    }

    /// The pairs not yet returned, in the order they will be returned.
    pub open spec fn remaining(self) -> Seq<(K, V)> {
        tail_from(self.spec_map()@, self.spec_bucket(), self.spec_index())
    }

    /// Returns references to the key and value of the next pair, or `None`
    /// once every pair has been seen.
    pub fn next(&mut self) -> (r: Option<(&'a K, &'a V)>)
        requires
            old(self).wf(),
        ensures
            final(self).wf(),
            final(self).spec_map() == old(self).spec_map(),
            match r {
                Some(p) => old(self).remaining().len() > 0 && (*p.0, *p.1) == old(
                    self,
                ).remaining()[0] && final(self).remaining() == old(self).remaining().drop_first(),
                None => old(self).remaining().len() == 0 && final(self).remaining() == old(
                    self,
                ).remaining(),
            },
    {
        let m: &'a HashMap<K, V> = self.map;
        let n = m.table.len();
        proof {
            assert(m@.len() == m.table@.len());
        }
        while self.bucket < n
            invariant
                n == 16,
                m == old(self).spec_map(),
                m@.len() == 16,
                m@.len() == m.table@.len(),
                self.map == m,
                self.spec_bucket() <= 16,
                self.spec_bucket() < 16 ==> 0 <= self.spec_index() <= m@[self.spec_bucket()].len(),
                self.spec_bucket() == 16 ==> self.spec_index() == 0,
                tail_from(m@, self.spec_bucket(), self.spec_index()) == old(self).remaining(),
            decreases n - self.bucket,
        {
            let ghost bkt = self.spec_bucket();
            let ghost pos = self.spec_index();
            let bucket_ref: &'a Vec<(K, V)> = &m.table[self.bucket];
            proof {
                assert(bucket_ref@ == m@[bkt]);
            }
            if self.index < bucket_ref.len() {
                let r = Some((&bucket_ref[self.index].0, &bucket_ref[self.index].1));
                proof {
                    assert(m@[bkt].skip(pos)[0] == m@[bkt][pos]);
                    assert(m@[bkt].skip(pos).drop_first() =~= m@[bkt].skip(pos + 1));
                    assert((m@[bkt].skip(pos) + tail_from(m@, bkt + 1, 0)).drop_first() =~= m@[
                        bkt
                    ].skip(pos + 1) + tail_from(m@, bkt + 1, 0));
                }
                self.index = self.index + 1;
                return r;
            }
            proof {
                assert(m@[bkt].skip(pos) =~= Seq::<(K, V)>::empty());
                assert(Seq::<(K, V)>::empty() + tail_from(m@, bkt + 1, 0) =~= tail_from(
                    m@,
                    bkt + 1,
                    0,
                ));
            }
            self.bucket = self.bucket + 1;
            self.index = 0;
        }
        None
    }
}

} // verus!

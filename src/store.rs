//! An ordered key-value store whose keys are issued by the store itself.
//!
//! The store lives in ordinary memory. Its records hold strings, so a
//! stable-memory map would need them encoded through candid's derives, which
//! verified code cannot use; the host keeps a copy in stable memory instead,
//! through `image` and `from_image`.
//!
//! Records are kept in a vector sorted by strictly increasing key. A fresh key
//! is always larger than every key issued before, so appending keeps the order,
//! and a key is never handed out twice, even after its record is removed.
use vstd::prelude::*;

verus! {

/// A value that can be copied out of a store without changing it.
pub trait Record: Sized {
    fn duplicate(&self) -> (r: Self)
        ensures
            r == *self,
    ;
}

/// A store laid out as plain values, to be saved and loaded again.
pub struct StoreImage<V> {
    pub entries: Vec<(u64, V)>,
    pub next_key: u64,
}

/// Whether `img` describes a store: sorted keys, all below the next key.
pub open spec fn image_valid<V>(img: &StoreImage<V>) -> bool {
    &&& sorted(img.entries@)
    &&& forall|i: int| 0 <= i < img.entries@.len() ==> img.entries@[i].0 < img.next_key
}

pub struct Store<V> {
    entries: Vec<(u64, V)>,
    next_key: u64,
}

/// Keys strictly increase along the sequence.
pub open spec fn sorted<V>(s: Seq<(u64, V)>) -> bool {
    forall|i: int, j: int| 0 <= i < j < s.len() ==> s[i].0 < s[j].0
}

/// Whether some entry of `s` has key `k`.
pub open spec fn has_key<V>(s: Seq<(u64, V)>, k: u64) -> bool {
    exists|i: int| 0 <= i < s.len() && s[i].0 == k
}

/// The map from keys to records that a sequence of entries describes.
pub open spec fn map_of<V>(s: Seq<(u64, V)>) -> Map<u64, V> {
    Map::new(
        |k: u64| has_key(s, k),
        |k: u64| s[choose|i: int| 0 <= i < s.len() && s[i].0 == k].1,
    )
}

/// The records of `s` in key order.
pub open spec fn values_of<V>(s: Seq<(u64, V)>) -> Seq<V> {
    s.map_values(|e: (u64, V)| e.1)
}

/// The records `vs` under consecutive keys starting at `first`.
pub open spec fn keyed_from<V>(vs: Seq<V>, first: int) -> Seq<(u64, V)> {
    Seq::new(vs.len(), |j: int| ((first + j) as u64, vs[j]))
}

/// `s` with the record under key `k` replaced by `v`.
pub open spec fn replaced<V>(s: Seq<(u64, V)>, k: u64, v: V) -> Seq<(u64, V)> {
    s.map_values(|e: (u64, V)| if e.0 == k { (k, v) } else { e })
}

pub proof fn lemma_map_at<V>(s: Seq<(u64, V)>, i: int)
    requires
        sorted(s),
        0 <= i < s.len(),
    ensures
        map_of(s).contains_key(s[i].0),
        map_of(s)[s[i].0] == s[i].1,
{
    let k = s[i].0;
    assert(has_key(s, k));
    let j = choose|j: int| 0 <= j < s.len() && s[j].0 == k;
    assert(j == i) by {
        if j < i {
            assert(s[j].0 < s[i].0);
        } else if i < j {
            assert(s[i].0 < s[j].0);
        }
    }
}

proof fn lemma_map_replaced<V>(s: Seq<(u64, V)>, k: u64, v: V)
    requires
        sorted(s),
        has_key(s, k),
    ensures
        sorted(replaced(s, k, v)),
        map_of(replaced(s, k, v)) == map_of(s).insert(k, v),
{
    let t = replaced(s, k, v);
    assert(sorted(t));
    assert forall|kk: u64| has_key(t, kk) <==> has_key(s, kk) by {
        if has_key(t, kk) {
            let i = choose|i: int| 0 <= i < t.len() && t[i].0 == kk;
            assert(s[i].0 == kk);
        }
        if has_key(s, kk) {
            let i = choose|i: int| 0 <= i < s.len() && s[i].0 == kk;
            assert(t[i].0 == kk);
        }
    }
    assert forall|kk: u64| #[trigger] map_of(t).contains_key(kk) implies map_of(t)[kk] == map_of(
        s,
    ).insert(k, v)[kk] by {
        let i = choose|i: int| 0 <= i < t.len() && t[i].0 == kk;
        lemma_map_at(t, i);
        lemma_map_at(s, i);
    }
    assert(map_of(t) =~= map_of(s).insert(k, v));
}

proof fn lemma_map_push<V>(s: Seq<(u64, V)>, k: u64, v: V)
    requires
        sorted(s),
        forall|i: int| 0 <= i < s.len() ==> s[i].0 < k,
    ensures
        sorted(s.push((k, v))),
        !map_of(s).contains_key(k),
        map_of(s.push((k, v))) == map_of(s).insert(k, v),
{
    let t = s.push((k, v));
    assert(sorted(t));
    assert forall|kk: u64| has_key(t, kk) <==> (has_key(s, kk) || kk == k) by {
        if has_key(t, kk) {
            let i = choose|i: int| 0 <= i < t.len() && t[i].0 == kk;
            if i < s.len() {
                assert(s[i].0 == kk);
            }
        }
        if has_key(s, kk) {
            let i = choose|i: int| 0 <= i < s.len() && s[i].0 == kk;
            assert(t[i].0 == kk);
        }
        if kk == k {
            assert(t[s.len() as int].0 == kk);
        }
    }
    assert forall|kk: u64| #[trigger] map_of(t).contains_key(kk) implies map_of(t)[kk] == map_of(
        s,
    ).insert(k, v)[kk] by {
        let i = choose|i: int| 0 <= i < t.len() && t[i].0 == kk;
        lemma_map_at(t, i);
        if i < s.len() {
            lemma_map_at(s, i);
        }
    }
    assert(map_of(t) =~= map_of(s).insert(k, v));
}

proof fn lemma_map_remove<V>(s: Seq<(u64, V)>, i: int)
    requires
        sorted(s),
        0 <= i < s.len(),
    ensures
        sorted(s.remove(i)),
        map_of(s.remove(i)) == map_of(s).remove(s[i].0),
{
    let t = s.remove(i);
    let k = s[i].0;
    assert(sorted(t)) by {
        assert forall|a: int, b: int| 0 <= a < b < t.len() implies t[a].0 < t[b].0 by {
            let a2 = if a < i { a } else { a + 1 };
            let b2 = if b < i { b } else { b + 1 };
            assert(t[a] == s[a2] && t[b] == s[b2]);
        }
    }
    assert forall|kk: u64| has_key(t, kk) <==> (has_key(s, kk) && kk != k) by {
        if has_key(t, kk) {
            let a = choose|a: int| 0 <= a < t.len() && t[a].0 == kk;
            let a2 = if a < i { a } else { a + 1 };
            assert(s[a2].0 == kk);
            if a2 < i {
                assert(s[a2].0 < s[i].0);
            } else {
                assert(s[i].0 < s[a2].0);
            }
        }
        if has_key(s, kk) && kk != k {
            let a = choose|a: int| 0 <= a < s.len() && s[a].0 == kk;
            if a < i {
                assert(t[a].0 == kk);
            } else {
                assert(a != i);
                assert(t[a - 1].0 == kk);
            }
        }
    }
    assert forall|kk: u64| #[trigger] map_of(t).contains_key(kk) implies map_of(t)[kk] == map_of(
        s,
    ).remove(k)[kk] by {
        let a = choose|a: int| 0 <= a < t.len() && t[a].0 == kk;
        let a2 = if a < i { a } else { a + 1 };
        lemma_map_at(t, a);
        lemma_map_at(s, a2);
    }
    assert(map_of(t) =~= map_of(s).remove(k));
}

impl<V> Store<V> {
    /// The stored entries, in increasing key order.
    pub closed spec fn entries(&self) -> Seq<(u64, V)> {
        self.entries@
    }

    /// The key that the next append will issue.
    pub closed spec fn next_key(&self) -> u64 {
        self.next_key
    }

    /// Keys are sorted and all below the next key to issue.
    pub open spec fn wf(&self) -> bool {
        &&& sorted(self.entries())
        &&& forall|i: int| 0 <= i < self.entries().len() ==> self.entries()[i].0 < self.next_key()
    }

    pub open spec fn view(&self) -> Map<u64, V> {
        map_of(self.entries())
    }

    /// The records in increasing key order.
    pub open spec fn values(&self) -> Seq<V> {
        values_of(self.entries())
    }

    /// An empty store whose first issued key is `first_key`.
    pub fn new(first_key: u64) -> (r: Self)
        ensures
            r.wf(),
            r.entries() == Seq::<(u64, V)>::empty(),
            r@ == Map::<u64, V>::empty(),
            r.next_key() == first_key,
    {
        let r = Store { entries: Vec::new(), next_key: first_key };
        assert(r@ =~= Map::<u64, V>::empty());
        r
    }

    /// The key that the next append will issue.
    pub fn peek_next_key(&self) -> (r: u64)
        ensures
            r == self.next_key(),
    {
        self.next_key
    }

    pub fn len(&self) -> (r: usize)
        ensures
            r == self.entries().len(),
    {
        self.entries.len()
    }

    /// The key and record at position `i` of the key order.
    pub fn entry_at(&self, i: usize) -> (r: (u64, &V))
        requires
            i < self.entries().len(),
        ensures
            r.0 == self.entries()[i as int].0,
            *r.1 == self.entries()[i as int].1,
    {
        (self.entries[i].0, &self.entries[i].1)
    }

    /// Binary search for `key` over the sorted keys.
    fn position(&self, key: u64) -> (r: Option<usize>)
        requires
            self.wf(),
        ensures
            match r {
                Some(i) => i < self.entries().len() && self.entries()[i as int].0 == key,
                None => !has_key(self.entries(), key),
            },
    {
        let mut lo: usize = 0;
        let mut hi: usize = self.entries.len();
        while lo < hi
            invariant
                self.wf(),
                lo <= hi <= self.entries@.len(),
                forall|j: int| 0 <= j < lo ==> self.entries@[j].0 < key,
                forall|j: int| hi <= j < self.entries@.len() ==> self.entries@[j].0 > key,
            decreases hi - lo,
        {
            let mid = lo + (hi - lo) / 2;
            let k = self.entries[mid].0;
            if k == key {
                return Some(mid);
            } else if k < key {
                proof {
                    assert forall|j: int| 0 <= j < mid + 1 implies self.entries@[j].0 < key by {
                        if j < mid {
                            assert(self.entries@[j].0 < self.entries@[mid as int].0);
                        }
                    }
                }
                lo = mid + 1;
            } else {
                proof {
                    assert forall|j: int| mid <= j < self.entries@.len() implies self.entries@[j].0
                        > key by {
                        if j > mid {
                            assert(self.entries@[mid as int].0 < self.entries@[j].0);
                        }
                    }
                }
                hi = mid;
            }
        }
        None
    }

    /// The record stored under `key`, if any.
    pub fn get(&self, key: u64) -> (r: Option<&V>)
        requires
            self.wf(),
        ensures
            r is Some <==> self@.contains_key(key),
            r is Some ==> *r.unwrap() == self@[key],
    {
        match self.position(key) {
            Some(i) => {
                proof {
                    lemma_map_at(self.entries(), i as int);
                }
                Some(&self.entries[i].1)
            },
            None => None,
        }
    }

    /// Overwrites the record under an existing key and returns the prior one;
    /// under an absent key nothing changes and the result is `None`. Keys are
    /// issued by `append` only.
    pub fn update(&mut self, key: u64, value: V) -> (r: Option<V>)
        requires
            old(self).wf(),
        ensures
            final(self).wf(),
            final(self).next_key() == old(self).next_key(),
            r is Some <==> old(self)@.contains_key(key),
            r is Some ==> r.unwrap() == old(self)@[key],
            old(self)@.contains_key(key) ==> final(self)@ == old(self)@.insert(key, value),
            old(self)@.contains_key(key) ==> final(self).entries() == replaced(
                old(self).entries(),
                key,
                value,
            ),
            !old(self)@.contains_key(key) ==> *final(self) == *old(self),
    {
        match self.position(key) {
            Some(i) => {
                proof {
                    lemma_map_at(self.entries(), i as int);
                    lemma_map_replaced(self.entries(), key, value);
                }
                let ghost s = self.entries@;
                let (_, prior) = self.entries.remove(i);
                self.entries.insert(i, (key, value));
                proof {
                    assert(self.entries@ =~= replaced(s, key, value));
                }
                Some(prior)
            },
            None => None,
        }
    }

    /// Stores `value` under a freshly issued key, larger than every key issued
    /// before; `None` once the keys are exhausted.
    pub fn append(&mut self, value: V) -> (r: Option<u64>)
        requires
            old(self).wf(),
        ensures
            final(self).wf(),
            r is Some <==> old(self).next_key() < u64::MAX,
            match r {
                Some(k) => {
                    &&& k == old(self).next_key()
                    &&& final(self).next_key() == k + 1
                    &&& !old(self)@.contains_key(k)
                    &&& final(self)@ == old(self)@.insert(k, value)
                    &&& final(self).entries() == old(self).entries().push((k, value))
                    &&& final(self).values() == old(self).values().push(value)
                },
                None => *final(self) == *old(self),
            },
    {
        if self.next_key == u64::MAX {
            return None;
        }
        let k = self.next_key;
        proof {
            lemma_map_push(self.entries(), k, value);
        }
        self.entries.push((k, value));
        self.next_key = k + 1;
        assert(self.values() =~= old(self).values().push(value));
        Some(k)
    }

    /// Removes the record under `key` and returns it.
    pub fn remove(&mut self, key: u64) -> (r: Option<V>)
        requires
            old(self).wf(),
        ensures
            final(self).wf(),
            final(self).next_key() == old(self).next_key(),
            r is Some <==> old(self)@.contains_key(key),
            r is Some ==> r.unwrap() == old(self)@[key],
            final(self)@ == old(self)@.remove(key),
    {
        match self.position(key) {
            Some(i) => {
                proof {
                    lemma_map_at(self.entries(), i as int);
                    lemma_map_remove(self.entries(), i as int);
                }
                let (_, prior) = self.entries.remove(i);
                Some(prior)
            },
            None => {
                proof {
                    assert(self@ =~= self@.remove(key));
                }
                None
            },
        }
    }
}

impl<V> Store<V> {
    /// The store that `img` describes, if it describes one.
    pub fn from_image(img: StoreImage<V>) -> (r: Option<Self>)
        ensures
            r is Some <==> image_valid(&img),
            r matches Some(st) ==> st.wf() && st.entries() == img.entries@ && st.next_key()
                == img.next_key,
    {
        let n = img.entries.len();
        let mut i: usize = 0;
        while i < n
            invariant
                n == img.entries@.len(),
                i <= n,
                forall|a: int, b: int| 0 <= a < b < i ==> img.entries@[a].0 < img.entries@[b].0,
                forall|a: int| 0 <= a < i ==> img.entries@[a].0 < img.next_key,
            decreases n - i,
        {
            if img.entries[i].0 >= img.next_key {
                return None;
            }
            if i > 0 && img.entries[i - 1].0 >= img.entries[i].0 {
                return None;
            }
            proof {
                assert forall|a: int, b: int| 0 <= a < b < i + 1 implies img.entries@[a].0
                    < img.entries@[b].0 by {
                    if b == i && a < i - 1 {
                        assert(img.entries@[a].0 < img.entries@[i - 1].0);
                    }
                }
            }
            i = i + 1;
        }
        Some(Store { entries: img.entries, next_key: img.next_key })
    }
}

impl<V: Record> Store<V> {
    /// The store laid out as plain values.
    pub fn image(&self) -> (r: StoreImage<V>)
        ensures
            r.entries@ == self.entries(),
            r.next_key == self.next_key(),
    {
        let mut entries: Vec<(u64, V)> = Vec::new();
        let mut i: usize = 0;
        while i < self.entries.len()
            invariant
                i <= self.entries@.len(),
                entries@ == self.entries@.subrange(0, i as int),
            decreases self.entries@.len() - i,
        {
            entries.push((self.entries[i].0, self.entries[i].1.duplicate()));
            proof {
                assert(entries@ =~= self.entries@.subrange(0, i + 1));
            }
            i = i + 1;
        }
        assert(self.entries@.subrange(0, i as int) =~= self.entries@);
        StoreImage { entries, next_key: self.next_key }
    }

    /// Copies of the records, in increasing key order.
    pub fn to_vec(&self) -> (r: Vec<V>)
        ensures
            r@ == self.values(),
    {
        let mut r: Vec<V> = Vec::new();
        let mut i: usize = 0;
        while i < self.entries.len()
            invariant
                i <= self.entries@.len(),
                r@ == values_of(self.entries@.subrange(0, i as int)),
            decreases self.entries@.len() - i,
        {
            r.push(self.entries[i].1.duplicate());
            proof {
                assert(values_of(self.entries@.subrange(0, i + 1)) =~= values_of(
                    self.entries@.subrange(0, i as int),
                ).push(self.entries@[i as int].1));
            }
            i = i + 1;
        }
        assert(self.entries@.subrange(0, i as int) =~= self.entries@);
        r
    }
}

} // verus!

//! An index of distinct byte strings, numbered in order of first insertion,
//! with hashed buckets for lookup.

use vstd::prelude::*;

verus! {

/// Number of hash buckets.
pub const KEY_BUCKETS: usize = 65536;

/// The bucket that a key falls in.
pub open spec fn bucket_hash(s: Seq<u8>) -> nat
    decreases s.len(),
{
    if s.len() == 0 {
        0
    } else {
        (bucket_hash(s.drop_last()) * 31 + s.last() as nat) % (KEY_BUCKETS as nat)
    }
}

fn bucket_of(k: &[u8]) -> (h: usize)
    ensures
        h == bucket_hash(k@),
        h < KEY_BUCKETS,
{
    let mut h: usize = 0;
    let mut i: usize = 0;
    while i < k.len()
        invariant
            i <= k@.len(),
            h < KEY_BUCKETS,
            h == bucket_hash(k@.subrange(0, i as int)),
        decreases k@.len() - i,
    {
        h = (h * 31 + k[i] as usize) % KEY_BUCKETS;
        i = i + 1;
        assert(k@.subrange(0, i as int).drop_last() =~= k@.subrange(0, i - 1));
    }
    assert(k@.subrange(0, k@.len() as int) =~= k@);
    h
}

/// Whether two byte strings are equal.
pub fn bytes_equal(a: &[u8], b: &[u8]) -> (r: bool)
    ensures
        r == (a@ == b@),
{
    if a.len() != b.len() {
        return false;
    }
    let mut i: usize = 0;
    while i < a.len()
        invariant
            i <= a@.len(),
            a@.len() == b@.len(),
            forall|j: int| 0 <= j < i ==> a@[j] == b@[j],
        decreases a@.len() - i,
    {
        if a[i] != b[i] {
            return false;
        }
        i = i + 1;
    }
    assert(a@ =~= b@);
    true
}

/// Distinct byte strings, each with the number of its first insertion.
pub struct KeyIndex {
    keys: Vec<Vec<u8>>,
    buckets: Vec<Vec<usize>>,
}

impl View for KeyIndex {
    type V = Seq<Seq<u8>>;

    /// The keys in order of insertion; a key's position is its number.
    closed spec fn view(&self) -> Seq<Seq<u8>> {
        self.keys@.map_values(|k: Vec<u8>| k@)
    }
}

impl KeyIndex {
    pub closed spec fn wf(&self) -> bool {
        &&& self.buckets@.len() == KEY_BUCKETS
        &&& forall|i: int| 0 <= i < self.keys@.len()
            ==> self.buckets@[bucket_hash(#[trigger] self.keys@[i]@) as int]@.contains(i as usize)
        &&& forall|b: int, j: int| 0 <= b < KEY_BUCKETS && 0 <= j < self.buckets@[b]@.len() ==> {
            let id = #[trigger] self.buckets@[b]@[j];
            &&& id < self.keys@.len()
            &&& bucket_hash(self.keys@[id as int]@) == b
        }
        &&& forall|i: int, j: int| 0 <= i < j < self.keys@.len() ==> (#[trigger] self.keys@[i])@ != (#[trigger] self.keys@[j])@
    }

    /// The keys are distinct.
    pub proof fn lemma_distinct(&self)
        requires
            self.wf(),
        ensures
            forall|i: int, j: int| 0 <= i < self@.len() && 0 <= j < self@.len() && i != j ==> self@[i] != self@[j],
    {
        assert forall|i: int, j: int| 0 <= i < self@.len() && 0 <= j < self@.len() && i != j implies self@[i] != self@[j] by {
            if i < j {
                assert(self.keys@[i]@ != self.keys@[j]@);
            } else {
                assert(self.keys@[j]@ != self.keys@[i]@);
            }
        }
    }

    pub fn new() -> (r: KeyIndex)
        ensures
            r.wf(),
            r@ == Seq::<Seq<u8>>::empty(),
    {
        let mut buckets: Vec<Vec<usize>> = Vec::new();
        let mut b: usize = 0;
        while b < KEY_BUCKETS
            invariant
                b <= KEY_BUCKETS,
                buckets@.len() == b,
                forall|c: int| 0 <= c < b ==> (#[trigger] buckets@[c])@.len() == 0,
            decreases KEY_BUCKETS - b,
        {
            buckets.push(Vec::new());
            b = b + 1;
        }
        let r = KeyIndex { keys: Vec::new(), buckets };
        assert(r@ =~= Seq::<Seq<u8>>::empty());
        r
    }

    /// Number of keys.
    pub fn len(&self) -> (n: usize)
        ensures
            n == self@.len(),
    {
        self.keys.len()
    }

    /// The key numbered `i`.
    pub fn key(&self, i: usize) -> (k: &Vec<u8>)
        requires
            i < self@.len(),
        ensures
            k@ == self@[i as int],
    {
        &self.keys[i]
    }

    /// The number of `k`, if it was inserted.
    pub fn find(&self, k: &[u8]) -> (r: Option<usize>)
        requires
            self.wf(),
        ensures
            match r {
                Some(i) => i < self@.len() && self@[i as int] == k@,
                None => !self@.contains(k@),
            },
    {
        let h = bucket_of(k);
        let bucket = &self.buckets[h];
        let mut j: usize = 0;
        while j < bucket.len()
            invariant
                self.wf(),
                h == bucket_hash(k@),
                h < KEY_BUCKETS,
                *bucket == self.buckets@[h as int],
                j <= bucket@.len(),
                forall|m: int| 0 <= m < j ==> self.keys@[bucket@[m] as int]@ != k@,
            decreases bucket@.len() - j,
        {
            let id = bucket[j];
            assert(id < self.keys@.len());
            if bytes_equal(self.keys[id].as_slice(), k) {
                return Some(id);
            }
            j = j + 1;
        }
        proof {
            if self@.contains(k@) {
                let i = choose|i: int| 0 <= i < self@.len() && self@[i] == k@;
                assert(self.keys.len() == self.keys@.len());
                assert(self.keys@[i]@ == k@);
                assert(bucket@.contains(i as usize));
                let m = choose|m: int| 0 <= m < bucket@.len() && bucket@[m] == i as usize;
                assert(self.keys@[bucket@[m] as int]@ != k@);
            }
        }
        None
    }

    /// The number of `k`, inserting it after the others if it is new.
    pub fn intern(&mut self, k: &[u8]) -> (r: usize)
        requires
            old(self).wf(),
        ensures
            final(self).wf(),
            old(self)@.contains(k@) ==> final(self)@ == old(self)@ && r < old(self)@.len() && old(self)@[r as int] == k@,
            !old(self)@.contains(k@) ==> final(self)@ == old(self)@.push(k@) && r == old(self)@.len(),
    {
        match self.find(k) {
            Some(i) => i,
            None => {
                let id = self.keys.len();
                let h = bucket_of(k);
                let ghost old_keys = self.keys@;
                let ghost old_buckets = self.buckets@;
                self.keys.push(vstd::slice::slice_to_vec(k));
                self.buckets[h].push(id);
                proof {
                    assert(self@ =~= old(self)@.push(k@));
                    assert forall|i: int| 0 <= i < self.keys@.len()
                        implies self.buckets@[bucket_hash(#[trigger] self.keys@[i]@) as int]@.contains(i as usize) by {
                        if i < old_keys.len() {
                            assert(self.keys@[i] == old_keys[i]);
                            let b = bucket_hash(old_keys[i]@) as int;
                            assert(old_buckets[b]@.contains(i as usize));
                            let m = choose|m: int| 0 <= m < old_buckets[b]@.len() && old_buckets[b]@[m] == i as usize;
                            assert(self.buckets@[b]@[m] == i as usize);
                        } else {
                            assert(self.buckets@[h as int]@.last() == id);
                        }
                    }
                    assert forall|b: int, j: int| 0 <= b < KEY_BUCKETS && 0 <= j < self.buckets@[b]@.len() implies {
                        let id2 = #[trigger] self.buckets@[b]@[j];
                        &&& id2 < self.keys@.len()
                        &&& bucket_hash(self.keys@[id2 as int]@) == b
                    } by {
                        if b == h && j == old_buckets[b]@.len() {
                        } else {
                            assert(self.buckets@[b]@[j] == old_buckets[b]@[j]);
                            assert(self.keys@[old_buckets[b]@[j] as int] == old_keys[old_buckets[b]@[j] as int]);
                        }
                    }
                    assert forall|i: int, j: int| 0 <= i < j < self.keys@.len()
                        implies (#[trigger] self.keys@[i])@ != (#[trigger] self.keys@[j])@ by {
                        if j == old_keys.len() {
                            assert(old(self)@[i] == self.keys@[i]@);
                        } else {
                            assert(self.keys@[i] == old_keys[i] && self.keys@[j] == old_keys[j]);
                        }
                    }
                }
                id
            },
        }
    }
}

} // verus!

use vstd::hash_map::HashMapWithView;
use vstd::prelude::*;

verus! {

/// A hash index over a sequence of items: for each hash, the positions of
/// the items that carry it.
pub struct HashIndex {
    buckets: HashMapWithView<u64, Vec<usize>>,
}

impl HashIndex {
    /// The index describes `hs`, the hash of each item by position: every
    /// position is in the bucket of its hash, and a bucket holds only
    /// positions that carry its hash.
    pub closed spec fn indexes(&self, hs: Seq<u64>) -> bool {
        &&& forall|i: int|
            0 <= i < hs.len() ==> #[trigger] self.buckets@.contains_key(hs[i])
                && self.buckets@[hs[i]]@.contains(i as usize)
        &&& forall|h: u64, j: int|
            #![trigger self.buckets@[h]@[j]]
            self.buckets@.contains_key(h) && 0 <= j < self.buckets@[h]@.len() ==> {
                &&& self.buckets@[h]@[j] < hs.len()
                &&& hs[self.buckets@[h]@[j] as int] == h
            }
    }

    pub fn new() -> (r: HashIndex)
        ensures
            r.indexes(Seq::empty()),
    {
        broadcast use vstd::std_specs::hash::group_hash_axioms;

        HashIndex { buckets: HashMapWithView::new() }
    }

    /// The positions whose hash is `h`, or `None` where there is none.
    pub fn bucket(&self, h: u64, Ghost(hs): Ghost<Seq<u64>>) -> (r: Option<&Vec<usize>>)
        requires
            self.indexes(hs),
        ensures
            match r {
                None => forall|i: int| 0 <= i < hs.len() ==> hs[i] != h,
                Some(b) => {
                    &&& forall|i: int| 0 <= i < hs.len() && hs[i] == h ==> b@.contains(i as usize)
                    &&& forall|j: int|
                        0 <= j < b@.len() ==> b@[j] < hs.len() && hs[#[trigger] b@[j] as int] == h
                },
            },
    {
        let r = self.buckets.get(&h);
        proof {
            if let Some(b) = r {
                assert forall|j: int| 0 <= j < b@.len() implies b@[j] < hs.len() && hs[
                    #[trigger] b@[j] as int
                ] == h by {
                    assert(self.buckets@[h]@[j] == b@[j]);
                }
            }
        }
        r
    }

    /// Records that the item at position `pos`, just appended, has hash `h`.
    pub fn add(&mut self, h: u64, pos: usize, Ghost(hs): Ghost<Seq<u64>>)
        requires
            old(self).indexes(hs),
            pos == hs.len(),
        ensures
            final(self).indexes(hs.push(h)),
    {
        let ghost before = self.buckets@;
        let mut b = match self.buckets.remove(&h) {
            Some(v) => v,
            None => Vec::new(),
        };
        let ghost old_b = b@;
        b.push(pos);
        self.buckets.insert(h, b);
        let ghost t = hs.push(h);
        assert forall|i: int| 0 <= i < t.len() implies #[trigger] self.buckets@.contains_key(t[i])
            && self.buckets@[t[i]]@.contains(i as usize) by {
            if i < hs.len() {
                assert(old(self).buckets@.contains_key(hs[i]));
                assert(before[hs[i]]@.contains(i as usize));
                if hs[i] == h {
                    let k = choose|k: int| 0 <= k < old_b.len() && old_b[k] == i as usize;
                    assert(self.buckets@[h]@[k] == i as usize);
                }
            } else {
                assert(self.buckets@[h]@[old_b.len() as int] == pos);
            }
        }
        assert forall|g: u64, j: int|
            self.buckets@.contains_key(g) && 0 <= j < self.buckets@[g]@.len() implies {
            &&& #[trigger] self.buckets@[g]@[j] < t.len()
            &&& t[self.buckets@[g]@[j] as int] == g
        } by {
            if g == h {
                if j < old_b.len() {
                    assert(before[h]@[j] == old_b[j]);
                }
            } else {
                assert(before[g]@[j] == self.buckets@[g]@[j]);
            }
        }
    }
}

} // verus!

//! The index of extracted attachment files by file name.
use vstd::prelude::*;
use crate::text::{chars_equal, to_chars};
use std::collections::HashMap;

verus! {

/// The map that a list of `(name, path)` entries stands for.
pub open spec fn map_of(entries: Seq<(Seq<char>, Seq<char>)>) -> Map<Seq<char>, Seq<char>>
    decreases entries.len(),
{
    if entries.len() == 0 {
        Map::empty()
    } else {
        map_of(entries.drop_last()).insert(entries.last().0, entries.last().1)
    }
}

/// No name occurs twice.
pub open spec fn names_distinct(entries: Seq<(Seq<char>, Seq<char>)>) -> bool {
    forall|i: int, j: int|
        0 <= i < j < entries.len() ==> #[trigger] entries[i].0 != #[trigger] entries[j].0
}

/// A name is in the map exactly when an entry holds it, and then the map
/// gives that entry's path.
pub proof fn lemma_map_of(entries: Seq<(Seq<char>, Seq<char>)>)
    requires
        names_distinct(entries),
    ensures
        forall|k: Seq<char>|
            #[trigger] map_of(entries).contains_key(k) <==> exists|i: int|
                0 <= i < entries.len() && entries[i].0 == k,
        forall|i: int|
            0 <= i < entries.len() ==> #[trigger] map_of(entries)[entries[i].0] == entries[i].1,
    decreases entries.len(),
{
    if entries.len() > 0 {
        let init = entries.drop_last();
        assert(names_distinct(init));
        lemma_map_of(init);
        assert forall|k: Seq<char>|
            #[trigger] map_of(entries).contains_key(k) <==> exists|i: int|
                0 <= i < entries.len() && entries[i].0 == k by {
            if map_of(entries).contains_key(k) {
                if k == entries.last().0 {
                    assert(entries[entries.len() - 1].0 == k);
                } else {
                    assert(map_of(init).contains_key(k));
                    let i = choose|i: int| 0 <= i < init.len() && init[i].0 == k;
                    assert(init[i] == entries[i]);
                    assert(entries[i].0 == k);
                }
            }
            if exists|i: int| 0 <= i < entries.len() && entries[i].0 == k {
                let i = choose|i: int| 0 <= i < entries.len() && entries[i].0 == k;
                if i < init.len() {
                    assert(init[i] == entries[i]);
                    assert(init[i].0 == k);
                    assert(map_of(init).contains_key(k));
                }
            }
        }
        assert forall|i: int| 0 <= i < entries.len() implies #[trigger] map_of(entries)[entries[i].0]
            == entries[i].1 by {
            if i < init.len() {
                assert(init[i] == entries[i]);
                assert(entries[i].0 != entries[entries.len() - 1].0);
                assert(map_of(init)[init[i].0] == init[i].1);
            }
        }
    }
}

/// The bucket key of a file name: a polynomial hash of its code points.
pub open spec fn name_hash(s: Seq<char>) -> u64
    decreases s.len(),
{
    if s.len() == 0 {
        0
    } else {
        ((name_hash(s.drop_last()) as int * 1000003 + s.last() as u32 as int)
            % 2305843009213693951) as u64
    }
}

fn name_hash_exec(s: &Vec<char>) -> (h: u64)
    ensures
        h == name_hash(s@),
{
    let mut h: u64 = 0;
    let mut i: usize = 0;
    assert(s@.take(0) =~= Seq::<char>::empty());
    while i < s.len()
        invariant
            i <= s.len(),
            h == name_hash(s@.take(i as int)),
            h < 2305843009213693951,
        decreases s.len() - i,
    {
        assert(s@.take(i + 1).drop_last() =~= s@.take(i as int));
        let c = s[i] as u32;
        h = ((h as u128 * 1000003 + c as u128) % 2305843009213693951) as u64;
        i += 1;
    }
    assert(s@.take(s.len() as int) =~= s@);
    h
}

/// Extracted files by file name; the first file extracted under a name is the
/// one that the name finds.
pub struct MediaIndex {
    entries: Vec<(Vec<char>, String)>,
    buckets: HashMap<u64, Vec<usize>>,
}

/// Bucket `h` lists entry `i`.
pub open spec fn bucket_has(buckets: Map<u64, Vec<usize>>, h: u64, i: int) -> bool {
    buckets.contains_key(h) && buckets[h]@.contains(i as usize)
}

impl MediaIndex {
    /// The entries, as `(name, path)` pairs.
    pub closed spec fn entries(&self) -> Seq<(Seq<char>, Seq<char>)> {
        Seq::new(self.entries@.len(), |i: int| (self.entries@[i].0@, self.entries@[i].1@))
    }

    #[verifier::type_invariant]
    closed spec fn inv(&self) -> bool {
        &&& names_distinct(self.entries())
        &&& forall|i: int|
            0 <= i < self.entries@.len() ==> #[trigger] bucket_has(
                self.buckets@,
                name_hash(self.entries@[i].0@),
                i,
            )
        &&& forall|h: u64, k: int|
            self.buckets@.contains_key(h) && 0 <= k < self.buckets@[h]@.len() ==> (
            #[trigger] self.buckets@[h]@[k]) < self.entries@.len()
    }
}

impl View for MediaIndex {
    type V = Map<Seq<char>, Seq<char>>;

    closed spec fn view(&self) -> Map<Seq<char>, Seq<char>> {
        map_of(self.entries())
    }
}

impl MediaIndex {
    /// An empty index.
    pub fn new() -> (r: Self)
        ensures
            r@ == Map::<Seq<char>, Seq<char>>::empty(),
    {
        broadcast use vstd::std_specs::hash::group_hash_axioms;

        let r = MediaIndex { entries: Vec::new(), buckets: HashMap::new() };
        assert(r.entries().len() == 0);
        r
    }

    /// The number of names in the index.
    pub fn len(&self) -> (n: usize)
        ensures
            n == self@.dom().len(),
    {
        proof {
            use_type_invariant(self);
            lemma_map_of_dom(self.entries());
        }
        self.entries.len()
    }

    fn position(&self, name: &Vec<char>) -> (r: Option<usize>)
        ensures
            match r {
                Some(i) => i < self.entries@.len() && self.entries@[i as int].0@ == name@,
                None => forall|i: int|
                    0 <= i < self.entries@.len() ==> self.entries@[i].0@ != name@,
            },
    {
        broadcast use vstd::std_specs::hash::group_hash_axioms;

        proof {
            use_type_invariant(self);
        }
        let count = self.entries.len();
        let h = name_hash_exec(name);
        match self.buckets.get(&h) {
            Some(bucket) => {
                assert(self.buckets@.contains_key(h) && self.buckets@[h] == *bucket);
                let mut k: usize = 0;
                while k < bucket.len()
                    invariant
                        k <= bucket@.len(),
                        self.buckets@.contains_key(h),
                        self.buckets@[h] == *bucket,
                        forall|g: u64, j: int|
                            self.buckets@.contains_key(g) && 0 <= j < self.buckets@[g]@.len() ==> (
                            #[trigger] self.buckets@[g]@[j]) < self.entries@.len(),
                        forall|j: int|
                            0 <= j < k ==> self.entries@[bucket@[j] as int].0@ != name@,
                    decreases bucket@.len() - k,
                {
                    let idx = bucket[k];
                    assert(self.buckets@[h]@[k as int] == idx);
                    if chars_equal(&self.entries[idx].0, name) {
                        return Some(idx);
                    }
                    k += 1;
                }
                assert forall|i: int| 0 <= i < self.entries@.len() implies self.entries@[i].0@
                    != name@ by {
                    if self.entries@[i].0@ == name@ {
                        assert(i < count);
                        assert(bucket_has(self.buckets@, name_hash(self.entries@[i].0@), i));
                        let j = choose|j: int| 0 <= j < bucket@.len() && bucket@[j] == i as usize;
                        assert(self.entries@[bucket@[j] as int].0@ != name@);
                    }
                }
                None
            },
            None => {
                assert forall|i: int| 0 <= i < self.entries@.len() implies self.entries@[i].0@
                    != name@ by {
                    if self.entries@[i].0@ == name@ {
                        assert(bucket_has(self.buckets@, name_hash(self.entries@[i].0@), i));
                    }
                }
                None
            },
        }
    }

    /// Records a file under `name`, unless a file is already recorded under
    /// it (the first one wins).
    pub fn insert_first(&mut self, name: &str, path: String)
        ensures
            final(self)@ == if old(self)@.contains_key(name@) {
                old(self)@
            } else {
                old(self)@.insert(name@, path@)
            },
    {
        broadcast use vstd::std_specs::hash::group_hash_axioms;

        proof {
            use_type_invariant(&*self);
            lemma_map_of(self.entries());
        }
        let name_chars = to_chars(name);
        match self.position(&name_chars) {
            Some(i) => {
                assert(self.entries()[i as int].0 == name@);
            },
            None => {
                let ghost old_entries = self.entries();
                assert(forall|i: int| 0 <= i < old_entries.len() ==> old_entries[i].0 != name@);
                let h = name_hash_exec(&name_chars);
                let mut taken = MediaIndex::new();
                std::mem::swap(&mut taken, self);
                proof {
                    use_type_invariant(&taken);
                }
                let MediaIndex { entries: mut entries, buckets: mut buckets } = taken;
                let ghost old_raw = entries@;
                let ghost old_buckets = buckets@;
                let idx = entries.len();
                entries.push((name_chars, path));
                let mut bucket = match buckets.remove(&h) {
                    Some(b) => b,
                    None => Vec::new(),
                };
                let ghost old_bucket = bucket@;
                assert(old_buckets.contains_key(h) ==> old_bucket == old_buckets[h]@);
                bucket.push(idx);
                buckets.insert(h, bucket);
                let ghost new_entries = Seq::new(
                    entries@.len(),
                    |i: int| (entries@[i].0@, entries@[i].1@),
                );
                assert(new_entries.drop_last() =~= old_entries);
                assert(names_distinct(new_entries)) by {
                    assert forall|i: int, j: int|
                        0 <= i < j < new_entries.len() implies #[trigger] new_entries[i].0
                        != #[trigger] new_entries[j].0 by {
                        if j < old_entries.len() {
                            assert(new_entries[i] == old_entries[i]);
                            assert(new_entries[j] == old_entries[j]);
                        } else {
                            assert(new_entries[i] == old_entries[i]);
                        }
                    }
                }
                assert forall|i: int| 0 <= i < entries@.len() implies #[trigger] bucket_has(
                    buckets@,
                    name_hash(entries@[i].0@),
                    i,
                ) by {
                    if i < old_raw.len() {
                        assert(entries@[i] == old_raw[i]);
                        assert(bucket_has(old_buckets, name_hash(old_raw[i].0@), i));
                        if name_hash(old_raw[i].0@) == h {
                            let j = choose|j: int|
                                0 <= j < old_bucket.len() && old_bucket[j] == i as usize;
                            assert(buckets@[h]@[j] == i as usize);
                        }
                    } else {
                        assert(buckets@[h]@[old_bucket.len() as int] == idx);
                    }
                }
                assert forall|g: u64, k: int|
                    buckets@.contains_key(g) && 0 <= k < buckets@[g]@.len() implies (
                    #[trigger] buckets@[g]@[k]) < entries@.len() by {
                    if g != h {
                        assert(old_buckets.contains_key(g) && buckets@[g] == old_buckets[g]);
                        assert(old_buckets[g]@[k] < old_raw.len());
                    } else if k < old_bucket.len() {
                        assert(old_buckets.contains_key(h));
                        assert(old_buckets[h]@[k] < old_raw.len());
                    }
                }
                *self = MediaIndex { entries, buckets };
                assert(self.entries() =~= new_entries);
            },
        }
    }

    /// The path recorded under `name`.
    pub fn get(&self, name: &Vec<char>) -> (r: Option<String>)
        ensures
            match r {
                Some(p) => self@.contains_key(name@) && self@[name@] == p@,
                None => !self@.contains_key(name@),
            },
    {
        proof {
            use_type_invariant(self);
            lemma_map_of(self.entries());
        }
        match self.position(name) {
            Some(i) => {
                assert(self.entries()[i as int].0 == name@);
                Some(self.entries[i].1.clone())
            },
            None => {
                assert forall|i: int| 0 <= i < self.entries().len() implies self.entries()[i].0
                    != name@ by {
                    assert(self.entries()[i].0 == self.entries@[i].0@);
                }
                None
            },
        }
    }
}

/// The map of distinct entries has one key per entry.
pub proof fn lemma_map_of_dom(entries: Seq<(Seq<char>, Seq<char>)>)
    requires
        names_distinct(entries),
    ensures
        map_of(entries).dom().finite(),
        map_of(entries).dom().len() == entries.len(),
    decreases entries.len(),
{
    if entries.len() > 0 {
        let init = entries.drop_last();
        assert(names_distinct(init));
        lemma_map_of_dom(init);
        lemma_map_of(init);
        assert(!map_of(init).contains_key(entries.last().0)) by {
            if map_of(init).contains_key(entries.last().0) {
                let i = choose|i: int| 0 <= i < init.len() && init[i].0 == entries.last().0;
                assert(entries[i].0 == entries[entries.len() - 1].0);
            }
        }
    }
}

} // verus!

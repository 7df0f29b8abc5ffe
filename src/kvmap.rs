use vstd::prelude::*;

verus! {

/// Returns a fresh copy of a byte vector.
pub fn copy_bytes(v: &Vec<u8>) -> (r: Vec<u8>)
    ensures
        r@ == v@,
{
    let mut r: Vec<u8> = Vec::with_capacity(v.len());
    let mut i: usize = 0;
    while i < v.len()
        invariant
            i <= v.len(),
            r@ == v@.take(i as int),
        decreases v.len() - i,
    {
        r.push(v[i]);
        i = i + 1;
        assert(r@ =~= v@.take(i as int));
    }
    assert(r@ =~= v@);
    r
}

/// The map described by a list of key/value pairs, where a later pair
/// overrides an earlier one with the same key.
pub open spec fn pairs_map(s: Seq<(u64, Vec<u8>)>) -> Map<u64, Seq<u8>>
    decreases s.len(),
{
    if s.len() == 0 {
        Map::empty()
    } else {
        pairs_map(s.drop_last()).insert(s.last().0, s.last().1@)
    }
}

/// No key occurs twice in the list.
pub open spec fn keys_unique(s: Seq<(u64, Vec<u8>)>) -> bool {
    forall|i: int, j: int| 0 <= i < j < s.len() ==> s[i].0 != s[j].0
}

proof fn lemma_pairs_map_absent(s: Seq<(u64, Vec<u8>)>, k: u64)
    requires
        forall|i: int| 0 <= i < s.len() ==> s[i].0 != k,
    ensures
        !pairs_map(s).contains_key(k),
    decreases s.len(),
{
    if s.len() > 0 {
        lemma_pairs_map_absent(s.drop_last(), k);
    }
}

proof fn lemma_pairs_map_at(s: Seq<(u64, Vec<u8>)>, i: int)
    requires
        keys_unique(s),
        0 <= i < s.len(),
    ensures
        pairs_map(s).contains_key(s[i].0),
        pairs_map(s)[s[i].0] == s[i].1@,
    decreases s.len(),
{
    if i < s.len() - 1 {
        lemma_pairs_map_at(s.drop_last(), i);
    }
}

/// A byte-valued map keyed by integers, held as a list of pairs with
/// distinct keys.
#[derive(Debug)]
pub struct KvMap {
    entries: Vec<(u64, Vec<u8>)>,
}

impl KvMap {
    pub closed spec fn wf(&self) -> bool {
        keys_unique(self.entries@)
    }

    pub closed spec fn view(&self) -> Map<u64, Seq<u8>> {
        pairs_map(self.entries@)
    }

    pub fn new() -> (r: KvMap)
        ensures
            r.wf(),
            r@ == Map::<u64, Seq<u8>>::empty(),
    {
        KvMap { entries: Vec::new() }
    }

    fn find(&self, key: u64) -> (r: Option<usize>)
        requires
            self.wf(),
        ensures
            match r {
                Some(i) => i < self.entries@.len() && self.entries@[i as int].0 == key,
                None => forall|i: int| 0 <= i < self.entries@.len() ==> self.entries@[i].0 != key,
            },
    {
        let mut i: usize = 0;
        while i < self.entries.len()
            invariant
                i <= self.entries@.len(),
                forall|j: int| 0 <= j < i ==> self.entries@[j].0 != key,
            decreases self.entries@.len() - i,
        {
            if self.entries[i].0 == key {
                return Some(i);
            }
            i = i + 1;
        }
        None
    }

    /// Returns a copy of the value stored under `key`.
    pub fn get(&self, key: u64) -> (r: Option<Vec<u8>>)
        requires
            self.wf(),
        ensures
            r is Some <==> self@.contains_key(key),
            r is Some ==> r->0@ == self@[key],
    {
        match self.find(key) {
            Some(i) => {
                proof { lemma_pairs_map_at(self.entries@, i as int); }
                Some(copy_bytes(&self.entries[i].1))
            },
            None => {
                proof { lemma_pairs_map_absent(self.entries@, key); }
                None
            },
        }
    }

    /// Stores `value` under `key`, replacing what was there.
    pub fn insert(&mut self, key: u64, value: Vec<u8>)
        requires
            old(self).wf(),
        ensures
            final(self).wf(),
            final(self)@ == old(self)@.insert(key, value@),
    {
        let ghost v = value@;
        match self.find(key) {
            Some(i) => {
                let ghost s0 = self.entries@;
                self.entries.set(i, (key, value));
                proof {
                    let s1 = self.entries@;
                    assert(keys_unique(s1));
                    assert forall|k: u64| #[trigger] pairs_map(s1).contains_key(k) == pairs_map(s0).insert(key, v).contains_key(k)
                        && (pairs_map(s1).contains_key(k) ==> pairs_map(s1)[k] == pairs_map(s0).insert(key, v)[k]) by {
                        if k == key {
                            lemma_pairs_map_at(s1, i as int);
                        } else if exists|j: int| 0 <= j < s0.len() && s0[j].0 == k {
                            let j = choose|j: int| 0 <= j < s0.len() && s0[j].0 == k;
                            lemma_pairs_map_at(s0, j);
                            lemma_pairs_map_at(s1, j);
                        } else {
                            lemma_pairs_map_absent(s0, k);
                            lemma_pairs_map_absent(s1, k);
                        }
                    }
                    assert(pairs_map(s1) =~= pairs_map(s0).insert(key, v));
                }
            },
            None => {
                let ghost s0 = self.entries@;
                self.entries.push((key, value));
                proof {
                    assert(self.entries@.drop_last() =~= s0);
                }
            },
        }
    }

    /// Returns an independent copy of the map.
    pub fn copy(&self) -> (r: KvMap)
        requires
            self.wf(),
        ensures
            r.wf(),
            r@ == self@,
    {
        let mut out: Vec<(u64, Vec<u8>)> = Vec::with_capacity(self.entries.len());
        let mut i: usize = 0;
        while i < self.entries.len()
            invariant
                i <= self.entries@.len(),
                out@.len() == i,
                forall|j: int| 0 <= j < i ==> out@[j].0 == self.entries@[j].0 && out@[j].1@ == self.entries@[j].1@,
            decreases self.entries@.len() - i,
        {
            let v = copy_bytes(&self.entries[i].1);
            out.push((self.entries[i].0, v));
            i = i + 1;
        }
        proof { lemma_pairs_map_same(out@, self.entries@); }
        KvMap { entries: out }
    }

    /// Writes every pair of `other` over this map.
    pub fn overlay(&mut self, other: &KvMap)
        requires
            old(self).wf(),
            other.wf(),
        ensures
            final(self).wf(),
            final(self)@ == old(self)@.union_prefer_right(other@),
    {
        let ghost base = self@;
        let mut i: usize = 0;
        while i < other.entries.len()
            invariant
                i <= other.entries@.len(),
                self.wf(),
                self@ == base.union_prefer_right(pairs_map(other.entries@.take(i as int))),
            decreases other.entries@.len() - i,
        {
            let ghost before = pairs_map(other.entries@.take(i as int));
            let v = copy_bytes(&other.entries[i].1);
            self.insert(other.entries[i].0, v);
            i = i + 1;
            proof {
                let t = other.entries@.take(i as int);
                assert(t.drop_last() =~= other.entries@.take(i - 1));
                assert(self@ =~= base.union_prefer_right(pairs_map(t)));
            }
        }
        assert(other.entries@.take(i as int) =~= other.entries@);
    }
}

proof fn lemma_pairs_map_same(a: Seq<(u64, Vec<u8>)>, b: Seq<(u64, Vec<u8>)>)
    requires
        a.len() == b.len(),
        forall|j: int| 0 <= j < a.len() ==> a[j].0 == b[j].0 && a[j].1@ == b[j].1@,
    ensures
        pairs_map(a) == pairs_map(b),
        keys_unique(a) == keys_unique(b),
    decreases a.len(),
{
    if a.len() > 0 {
        lemma_pairs_map_same(a.drop_last(), b.drop_last());
    }
}

} // verus!

use vstd::prelude::*;

verus! {

/// One remembered result: the tuple of input values and the value worked out
/// for it.
struct CacheEntry {
    key: Vec<u32>,
    value: u32,
}

/// A table from tuples of scalars to scalars, looked up by exact equality of
/// the whole tuple, bit for bit. Nothing is ever evicted.
pub struct Cache {
    entries: Vec<CacheEntry>,
}

/// Entry `i` of `entries` is the one for `key`.
spec fn holds(entries: Seq<CacheEntry>, i: int, key: Seq<u32>) -> bool {
    0 <= i < entries.len() && entries[i].key@ == key
}

/// No key occurs twice.
spec fn distinct(entries: Seq<CacheEntry>) -> bool {
    forall|i: int, j: int|
        0 <= i < j < entries.len() ==> (#[trigger] entries[i]).key@ != (#[trigger] entries[j]).key@
}

/// The table that the entries stand for.
spec fn table(entries: Seq<CacheEntry>) -> Map<Seq<u32>, u32> {
    Map::new(
        |key: Seq<u32>| exists|i: int| holds(entries, i, key),
        |key: Seq<u32>| entries[choose|i: int| holds(entries, i, key)].value,
    )
}

/// With no key held twice, the table has as many keys as there are entries.
proof fn lemma_table_len(entries: Seq<CacheEntry>)
    requires
        distinct(entries),
    ensures
        table(entries).dom().finite(),
        table(entries).dom().len() == entries.len(),
    decreases entries.len(),
{
    if entries.len() == 0 {
        assert(table(entries).dom() =~= Set::<Seq<u32>>::empty());
    } else {
        let front = entries.drop_last();
        let last = entries.last();
        let at = entries.len() - 1;
        lemma_table_len(front);
        assert forall|k: Seq<u32>|
            table(entries).dom().contains(k) == table(front).dom().insert(last.key@).contains(
                k,
            ) by {
            if table(entries).dom().contains(k) {
                let i = choose|i: int| holds(entries, i, k);
                if i != at {
                    assert(holds(front, i, k));
                }
            }
            if table(front).dom().contains(k) {
                let i = choose|i: int| holds(front, i, k);
                assert(holds(entries, i, k));
            }
            if k == last.key@ {
                assert(holds(entries, at, k));
            }
        }
        assert(table(entries).dom() =~= table(front).dom().insert(last.key@));
        if table(front).dom().contains(last.key@) {
            let i = choose|i: int| holds(front, i, last.key@);
            assert(entries[i].key@ == entries[at].key@);
            assert(false);
        }
    }
}

/// Whether two tuples hold the same scalars in the same order.
pub fn same_tuple(left: &Vec<u32>, right: &Vec<u32>) -> (same: bool)
    ensures
        same == (left@ == right@),
{
    if left.len() != right.len() {
        return false;
    }
    let mut i: usize = 0;
    while i < left.len()
        invariant
            left.len() == right.len(),
            i <= left.len(),
            forall|t: int| 0 <= t < i ==> left@[t] == right@[t],
        decreases left.len() - i,
    {
        if left[i] != right[i] {
            return false;
        }
        i += 1;
    }
    assert(left@ =~= right@);
    true
}

impl View for Cache {
    type V = Map<Seq<u32>, u32>;

    closed spec fn view(&self) -> Map<Seq<u32>, u32> {
        table(self.entries@)
    }
}

impl Cache {
    /// The invariant of the representation: every key is held once.
    pub closed spec fn wf(&self) -> bool {
        distinct(self.entries@)
    }

    /// An empty table.
    pub fn new() -> (cache: Cache)
        ensures
            cache.wf(),
            cache@ == Map::<Seq<u32>, u32>::empty(),
    {
        let cache = Cache { entries: Vec::new() };
        assert(cache@ =~= Map::<Seq<u32>, u32>::empty());
        cache
    }

    /// The number of tuples that the table holds a value for.
    pub fn len(&self) -> (count: usize)
        requires
            self.wf(),
        ensures
            self@.dom().finite(),
            count == self@.dom().len(),
    {
        proof {
            lemma_table_len(self.entries@);
        }
        self.entries.len()
    }

    /// Where the entry for `key` stands, if there is one.
    fn position(&self, key: &Vec<u32>) -> (at: Option<usize>)
        ensures
            match at {
                Some(i) => holds(self.entries@, i as int, key@),
                None => forall|i: int| !holds(self.entries@, i, key@),
            },
    {
        let mut i: usize = 0;
        while i < self.entries.len()
            invariant
                i <= self.entries.len(),
                forall|t: int| 0 <= t < i ==> !holds(self.entries@, t, key@),
            decreases self.entries.len() - i,
        {
            if same_tuple(&self.entries[i].key, key) {
                return Some(i);
            }
            i += 1;
        }
        None
    }

    /// Whether the table holds a value for `key`.
    pub fn contains_key(&self, key: &Vec<u32>) -> (present: bool)
        ensures
            present == self@.contains_key(key@),
    {
        self.position(key).is_some()
    }

    /// The value held for `key`, if there is one.
    pub fn get(&self, key: &Vec<u32>) -> (found: Option<u32>)
        requires
            self.wf(),
        ensures
            found == (if self@.contains_key(key@) {
                Some(self@[key@])
            } else {
                None
            }),
    {
        match self.position(key) {
            Some(i) => {
                proof {
                    let chosen = choose|t: int| holds(self.entries@, t, key@);
                    assert(holds(self.entries@, chosen, key@));
                    assert(chosen == i);
                }
                Some(self.entries[i].value)
            },
            None => None,
        }
    }

    /// Sets the value held for `key`, whether or not there was one.
    pub fn insert(&mut self, key: Vec<u32>, value: u32)
        requires
            old(self).wf(),
        ensures
            final(self).wf(),
            final(self)@ == old(self)@.insert(key@, value),
    {
        let ghost before = self.entries@;
        match self.position(&key) {
            Some(i) => {
                let ghost tuple = key@;
                self.entries[i] = CacheEntry { key, value };
                proof {
                    let after = self.entries@;
                    assert(holds(before, i as int, tuple));
                    assert forall|a: int, b: int| 0 <= a < b < after.len() implies (
                    #[trigger] after[a]).key@ != (#[trigger] after[b]).key@ by {
                        assert(after[a].key@ == before[a].key@);
                        assert(after[b].key@ == before[b].key@);
                    }
                    assert forall|t: int, k: Seq<u32>| holds(after, t, k) == holds(before, t, k) by {}
                    assert forall|k: Seq<u32>| #[trigger]
                        table(after).contains_key(k) implies table(after)[k] == table(
                        before,
                    ).insert(tuple, value)[k] by {
                        let a = choose|t: int| holds(after, t, k);
                        let b = choose|t: int| holds(before, t, k);
                        assert(holds(after, a, k));
                        assert(holds(before, a, k));
                        assert(holds(before, b, k));
                        assert(a == b);
                    }
                    assert(table(after) =~= table(before).insert(tuple, value));
                }
            },
            None => {
                let ghost tuple = key@;
                self.entries.push(CacheEntry { key, value });
                proof {
                    let after = self.entries@;
                    let last = before.len() as int;
                    assert(holds(after, last, tuple));
                    assert forall|a: int, b: int| 0 <= a < b < after.len() implies (
                    #[trigger] after[a]).key@ != (#[trigger] after[b]).key@ by {
                        if b == last {
                            assert(!holds(before, a, tuple));
                        } else {
                            assert(after[a] == before[a]);
                            assert(after[b] == before[b]);
                        }
                    }
                    assert forall|t: int, k: Seq<u32>| holds(after, t, k) == (holds(before, t, k) || (
                    t == last && k == tuple)) by {}
                    assert forall|k: Seq<u32>| #[trigger]
                        table(after).contains_key(k) implies table(after)[k] == table(
                        before,
                    ).insert(tuple, value)[k] by {
                        let a = choose|t: int| holds(after, t, k);
                        assert(holds(after, a, k));
                        if k != tuple {
                            let b = choose|t: int| holds(before, t, k);
                            assert(holds(before, a, k));
                            assert(holds(before, b, k));
                            assert(a == b);
                        }
                    }
                    assert(table(after) =~= table(before).insert(tuple, value));
                }
            },
        }
    }
}

} // verus!

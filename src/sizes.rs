use vstd::prelude::*;

verus! {

/// Scaffold name to scaffold length, one entry per distinct name.
pub struct ScaffoldSizeTable {
    names: Vec<String>,
    lens: Vec<u64>,
}

/// The table that a sequence of rows builds, each row overwriting any
/// earlier row of the same name.
pub open spec fn rows_map(rows: Seq<(String, u64)>) -> Map<Seq<char>, u64>
    decreases rows.len(),
{
    if rows.len() == 0 {
        Map::empty()
    } else {
        rows_map(rows.drop_last()).insert(rows.last().0@, rows.last().1)
    }
}

/// Sum of a sequence of lengths.
pub open spec fn seq_sum(s: Seq<u64>) -> int
    decreases s.len(),
{
    if s.len() == 0 {
        0
    } else {
        seq_sum(s.drop_last()) + s.last()
    }
}

proof fn lemma_seq_sum_update(s: Seq<u64>, i: int, v: u64)
    requires
        0 <= i < s.len(),
    ensures
        seq_sum(s.update(i, v)) == seq_sum(s) - s[i] + v,
    decreases s.len(),
{
    let t = s.update(i, v);
    if i < s.len() - 1 {
        assert(t.drop_last() =~= s.drop_last().update(i, v));
        lemma_seq_sum_update(s.drop_last(), i, v);
    } else {
        assert(t.drop_last() =~= s.drop_last());
    }
}

proof fn lemma_seq_sum_bound(s: Seq<u64>)
    ensures
        0 <= seq_sum(s) <= s.len() * u64::MAX,
    decreases s.len(),
{
    if s.len() > 0 {
        lemma_seq_sum_bound(s.drop_last());
        assert((s.len() - 1) * u64::MAX + u64::MAX == s.len() * u64::MAX) by (nonlinear_arith);
    }
}

impl View for ScaffoldSizeTable {
    type V = Map<Seq<char>, u64>;

    closed spec fn view(&self) -> Map<Seq<char>, u64> {
        Map::new(
            |k: Seq<char>| exists|i: int| 0 <= i < self.names@.len() && self.names@[i]@ == k,
            |k: Seq<char>|
                self.lens@[choose|i: int| 0 <= i < self.names@.len() && self.names@[i]@ == k],
        )
    }
}

impl ScaffoldSizeTable {
    /// Names and lengths line up and no name occurs twice.
    pub closed spec fn wf(&self) -> bool {
        &&& self.names@.len() == self.lens@.len()
        &&& forall|i: int, j: int|
            0 <= i < j < self.names@.len() ==> self.names@[i]@ != self.names@[j]@
    }

    /// Sum of the lengths of all scaffolds in the table.
    pub closed spec fn length_sum(&self) -> int {
        seq_sum(self.lens@)
    }

    proof fn lemma_view_at(&self, i: int)
        requires
            self.wf(),
            0 <= i < self.names@.len(),
        ensures
            self@.contains_key(self.names@[i]@),
            self@[self.names@[i]@] == self.lens@[i],
    {
        let k = self.names@[i]@;
        assert(self@.contains_key(k));
        let j = choose|j: int| 0 <= j < self.names@.len() && self.names@[j]@ == k;
        assert(j == i);
    }

    /// An empty table.
    pub fn new() -> (r: Self)
        ensures
            r.wf(),
            r@ == Map::<Seq<char>, u64>::empty(),
            r.length_sum() == 0,
    {
        let r = ScaffoldSizeTable { names: Vec::new(), lens: Vec::new() };
        assert(r@ =~= Map::<Seq<char>, u64>::empty());
        r
    }

    fn find(&self, name: &String) -> (r: Option<usize>)
        requires
            self.wf(),
        ensures
            match r {
                Some(i) => i < self.names@.len() && self.names@[i as int]@ == name@,
                None => forall|i: int| 0 <= i < self.names@.len() ==> self.names@[i]@ != name@,
            },
    {
        let mut i: usize = 0;
        while i < self.names.len()
            invariant
                i <= self.names@.len(),
                forall|j: int| 0 <= j < i ==> self.names@[j]@ != name@,
            decreases self.names@.len() - i,
        {
            if self.names[i] == *name {
                return Some(i);
            }
            i = i + 1;
        }
        None
    }

    /// The length recorded for `name`, if any.
    pub fn get(&self, name: &String) -> (r: Option<u64>)
        requires
            self.wf(),
        ensures
            r == (if self@.contains_key(name@) { Some(self@[name@]) } else { None::<u64> }),
    {
        match self.find(name) {
            Some(i) => {
                proof { self.lemma_view_at(i as int); }
                Some(self.lens[i])
            },
            None => None,
        }
    }

    /// Records `len` for `name`, replacing an earlier length of the same name.
    pub fn insert(&mut self, name: String, len: u64)
        requires
            old(self).wf(),
        ensures
            final(self).wf(),
            final(self)@ == old(self)@.insert(name@, len),
            final(self).length_sum() == old(self).length_sum() + len
                - (if old(self)@.contains_key(name@) { old(self)@[name@] as int } else { 0 }),
    {
        let ghost pre = *self;
        match self.find(&name) {
            Some(i) => {
                self.lens.set(i, len);
                proof {
                    pre.lemma_view_at(i as int);
                    lemma_seq_sum_update(pre.lens@, i as int, len);
                    assert forall|k: Seq<char>| #[trigger] self@.contains_key(k)
                        <==> pre@.insert(name@, len).contains_key(k) by {
                        if pre@.contains_key(k) {
                            let j = choose|j: int| 0 <= j < pre.names@.len() && pre.names@[j]@ == k;
                            assert(self.names@[j]@ == k);
                        }
                        if self@.contains_key(k) {
                            let j = choose|j: int| 0 <= j < self.names@.len() && self.names@[j]@ == k;
                            assert(pre.names@[j]@ == k);
                        }
                    }
                    assert forall|k: Seq<char>| #[trigger] self@.contains_key(k)
                        implies self@[k] == pre@.insert(name@, len)[k] by {
                        let j = choose|j: int| 0 <= j < self.names@.len() && self.names@[j]@ == k;
                        self.lemma_view_at(j);
                        if j != i {
                            pre.lemma_view_at(j);
                        }
                    }
                    assert(self@ =~= pre@.insert(name@, len));
                }
            },
            None => {
                self.names.push(name);
                self.lens.push(len);
                proof {
                    assert(self.lens@.drop_last() =~= pre.lens@);
                    let n = pre.names@.len() as int;
                    assert forall|k: Seq<char>| #[trigger] self@.contains_key(k)
                        <==> pre@.insert(self.names@[n]@, len).contains_key(k) by {
                        if pre@.contains_key(k) {
                            let j = choose|j: int| 0 <= j < pre.names@.len() && pre.names@[j]@ == k;
                            assert(self.names@[j]@ == k);
                        }
                        if self@.contains_key(k) {
                            let j = choose|j: int| 0 <= j < self.names@.len() && self.names@[j]@ == k;
                            if j < n {
                                assert(pre.names@[j]@ == k);
                            }
                        }
                    }
                    assert forall|k: Seq<char>| #[trigger] self@.contains_key(k)
                        implies self@[k] == pre@.insert(self.names@[n]@, len)[k] by {
                        let j = choose|j: int| 0 <= j < self.names@.len() && self.names@[j]@ == k;
                        self.lemma_view_at(j);
                        if j < n {
                            pre.lemma_view_at(j);
                        }
                    }
                    assert(self@ =~= pre@.insert(self.names@[n]@, len));
                }
            },
        }
    }

    /// The table of a sequence of `(name, length)` rows; a later row of a
    /// name replaces an earlier one.
    pub fn from_rows(rows: Vec<(String, u64)>) -> (r: Self)
        ensures
            r.wf(),
            r@ == rows_map(rows@),
    {
        let mut t = ScaffoldSizeTable::new();
        let mut i: usize = 0;
        while i < rows.len()
            invariant
                i <= rows@.len(),
                t.wf(),
                t@ == rows_map(rows@.take(i as int)),
            decreases rows@.len() - i,
        {
            let name = rows[i].0.clone();
            let len = rows[i].1;
            proof {
                assert(rows@.take(i + 1).drop_last() =~= rows@.take(i as int));
            }
            t.insert(name, len);
            i = i + 1;
        }
        proof {
            assert(rows@.take(rows@.len() as int) =~= rows@);
        }
        t
    }

    /// Sum of the lengths of all scaffolds: the extent of the assembly's
    /// joint coordinate space.
    pub fn total_length(&self) -> (r: u128)
        requires
            self.wf(),
        ensures
            r == self.length_sum(),
    {
        let mut acc: u128 = 0;
        let mut i: usize = 0;
        while i < self.lens.len()
            invariant
                i <= self.lens@.len(),
                acc == seq_sum(self.lens@.take(i as int)),
            decreases self.lens@.len() - i,
        {
            proof {
                assert(self.lens@.take(i + 1).drop_last() =~= self.lens@.take(i as int));
                lemma_seq_sum_bound(self.lens@.take(i + 1));
                assert((i + 1) * u64::MAX <= usize::MAX * u64::MAX) by (nonlinear_arith)
                    requires i + 1 <= usize::MAX;
            }
            acc = acc + self.lens[i] as u128;
            i = i + 1;
        }
        proof {
            assert(self.lens@.take(self.lens@.len() as int) =~= self.lens@);
        }
        acc
    }

    /// Number of scaffolds in the table.
    pub fn len(&self) -> (r: usize)
        requires
            self.wf(),
        ensures
            r == self@.len(),
    {
        proof { self.lemma_len(); }
        self.names.len()
    }

    proof fn lemma_len(&self)
        requires
            self.wf(),
        ensures
            self@.len() == self.names@.len(),
    {
        let keys = self.names@.map_values(|s: String| s@);
        assert forall|i: int, j: int| 0 <= i < j < keys.len() implies keys[i] != keys[j] by {}
        keys.unique_seq_to_set();
        assert(self@.dom() =~= keys.to_set()) by {
            assert forall|k: Seq<char>| #[trigger] self@.dom().contains(k) implies keys.to_set().contains(k) by {
                let j = choose|j: int| 0 <= j < self.names@.len() && self.names@[j]@ == k;
                assert(keys[j] == k);
            }
            assert forall|k: Seq<char>| #[trigger] keys.to_set().contains(k) implies self@.dom().contains(k) by {
                let j = choose|j: int| 0 <= j < keys.len() && keys[j] == k;
                assert(self.names@[j]@ == k);
            }
        }
    }
}

} // verus!

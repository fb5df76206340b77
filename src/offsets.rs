use vstd::prelude::*;
use crate::sizes::ScaffoldSizeTable;

verus! {

/// Why an alignment could not be placed in the joint coordinate space.
#[derive(Clone, Copy, Debug, PartialEq, Eq, Structural)]
pub enum ProjectionError {
    /// A scaffold name is absent from its size table.
    UnknownScaffold,
    /// A global coordinate does not fit in 64 bits.
    Overflow,
}

/// Sum of the lengths of the first `k` scaffolds of `order`: the start
/// offset of `order[k]`.
pub open spec fn prefix_total(sizes: Map<Seq<char>, u64>, order: Seq<Seq<char>>, k: int) -> int
    decreases k,
{
    if k <= 0 {
        0
    } else {
        prefix_total(sizes, order, k - 1) + sizes[order[k - 1]]
    }
}

/// Each scaffold occurs once in `order`, and each has a length in `sizes`.
pub open spec fn order_wf(sizes: Map<Seq<char>, u64>, order: Seq<Seq<char>>) -> bool {
    &&& forall|i: int, j: int| 0 <= i < j < order.len() ==> order[i] != order[j]
    &&& forall|i: int| 0 <= i < order.len() ==> sizes.contains_key(#[trigger] order[i])
}

/// Result of resolving `name` against the first-seen `order`, and the order
/// afterwards: a known name keeps its offset, a new one is appended at the
/// running total.
pub open spec fn resolve_spec(sizes: Map<Seq<char>, u64>, order: Seq<Seq<char>>, name: Seq<char>)
    -> (Result<u64, ProjectionError>, Seq<Seq<char>>)
{
    if order.contains(name) {
        (Ok(prefix_total(sizes, order, order.index_of(name)) as u64), order)
    } else if !sizes.contains_key(name) {
        (Err(ProjectionError::UnknownScaffold), order)
    } else if prefix_total(sizes, order, order.len() as int) + sizes[name] > u64::MAX {
        (Err(ProjectionError::Overflow), order)
    } else {
        (Ok(prefix_total(sizes, order, order.len() as int) as u64), order.push(name))
    }
}

/// Prefix totals never decrease.
pub proof fn lemma_prefix_total_monotonic(sizes: Map<Seq<char>, u64>, order: Seq<Seq<char>>, j: int, k: int)
    requires
        0 <= j <= k,
    ensures
        prefix_total(sizes, order, j) <= prefix_total(sizes, order, k),
    decreases k - j,
{
    if j < k {
        lemma_prefix_total_monotonic(sizes, order, j, k - 1);
    }
}

/// Appending a scaffold leaves the earlier prefix totals as they were.
pub proof fn lemma_prefix_total_push(sizes: Map<Seq<char>, u64>, order: Seq<Seq<char>>, name: Seq<char>, k: int)
    requires
        0 <= k <= order.len(),
    ensures
        prefix_total(sizes, order.push(name), k) == prefix_total(sizes, order, k),
    decreases k,
{
    if k > 0 {
        lemma_prefix_total_push(sizes, order, name, k - 1);
        assert(order.push(name)[k - 1] == order[k - 1]);
    }
}

/// Offsets in first-seen order: the first scaffold starts at zero, and
/// each next one where the previous one ends.
pub proof fn lemma_offsets_concatenate(sizes: Map<Seq<char>, u64>, order: Seq<Seq<char>>, k: int)
    requires
        order_wf(sizes, order),
        0 <= k < order.len(),
    ensures
        prefix_total(sizes, order, 0) == 0,
        resolve_spec(sizes, order, order[k]).0
            == Ok::<u64, ProjectionError>(prefix_total(sizes, order, k) as u64),
        prefix_total(sizes, order, k + 1) == prefix_total(sizes, order, k) + sizes[order[k]],
{
    lemma_index_of_distinct(order, k);
}

/// No two scaffolds' intervals `[offset, offset + length)` overlap: an
/// earlier scaffold ends before a later one starts.
pub proof fn lemma_offsets_disjoint(sizes: Map<Seq<char>, u64>, order: Seq<Seq<char>>, j: int, k: int)
    requires
        0 <= j < k < order.len(),
    ensures
        prefix_total(sizes, order, j) + sizes[order[j]] <= prefix_total(sizes, order, k),
{
    lemma_prefix_total_monotonic(sizes, order, j + 1, k);
}

proof fn lemma_index_of_distinct(order: Seq<Seq<char>>, i: int)
    requires
        forall|a: int, b: int| 0 <= a < b < order.len() ==> order[a] != order[b],
        0 <= i < order.len(),
    ensures
        order.contains(order[i]),
        order.index_of(order[i]) == i,
{
    assert(order.contains(order[i]));
    let j = order.index_of(order[i]);
    assert(order[j] == order[i]);
}

/// Resolving a name twice gives the same offset, and the second time
/// changes nothing.
pub proof fn lemma_resolve_idempotent(sizes: Map<Seq<char>, u64>, order: Seq<Seq<char>>, name: Seq<char>)
    requires
        order_wf(sizes, order),
    ensures
        ({
            let (r1, order1) = resolve_spec(sizes, order, name);
            let (r2, order2) = resolve_spec(sizes, order1, name);
            r1 is Ok ==> r2 == r1 && order2 == order1
        }),
{
    let (r1, order1) = resolve_spec(sizes, order, name);
    if r1 is Ok && !order.contains(name) {
        let n = order.len() as int;
        assert(order1[n] == name);
        assert forall|a: int, b: int| 0 <= a < b < order1.len() implies order1[a] != order1[b] by {
            if b == n {
                assert(order1[a] == order[a]);
            }
        }
        lemma_index_of_distinct(order1, n);
        lemma_prefix_total_push(sizes, order, name, n);
    }
}

/// A name missing from the size table is refused and leaves the order, and
/// with it the running total, unchanged.
pub proof fn lemma_resolve_unknown(sizes: Map<Seq<char>, u64>, order: Seq<Seq<char>>, name: Seq<char>)
    requires
        order_wf(sizes, order),
        !sizes.contains_key(name),
    ensures
        resolve_spec(sizes, order, name)
            == (Err::<u64, ProjectionError>(ProjectionError::UnknownScaffold), order),
{
    if order.contains(name) {
        let i = choose|i: int| 0 <= i < order.len() && order[i] == name;
        assert(sizes.contains_key(order[i]));
    }
}

/// Global start offsets of scaffolds, assigned in the order in which they
/// are first resolved.
pub struct CumulativeOffsetIndex {
    sizes: ScaffoldSizeTable,
    names: Vec<String>,
    offsets: Vec<u64>,
    total: u64,
}

impl CumulativeOffsetIndex {
    /// The lengths that new scaffolds are placed with.
    pub closed spec fn size_map(&self) -> Map<Seq<char>, u64> {
        self.sizes@
    }

    /// The scaffolds resolved so far, in first-seen order.
    pub closed spec fn order(&self) -> Seq<Seq<char>> {
        self.names@.map_values(|s: String| s@)
    }

    pub closed spec fn wf(&self) -> bool {
        &&& self.sizes.wf()
        &&& self.names@.len() == self.offsets@.len()
        &&& order_wf(self.size_map(), self.order())
        &&& forall|k: int| 0 <= k < self.offsets@.len()
            ==> self.offsets@[k] == prefix_total(self.size_map(), self.order(), k)
        &&& self.total == prefix_total(self.size_map(), self.order(), self.names@.len() as int)
    }

    /// An index with nothing resolved yet, placing scaffolds with `sizes`.
    pub fn new(sizes: ScaffoldSizeTable) -> (r: Self)
        requires
            sizes.wf(),
        ensures
            r.wf(),
            r.size_map() == sizes@,
            r.order() == Seq::<Seq<char>>::empty(),
            order_wf(r.size_map(), r.order()),
    {
        let r = CumulativeOffsetIndex { sizes, names: Vec::new(), offsets: Vec::new(), total: 0 };
        assert(r.order() =~= Seq::<Seq<char>>::empty());
        r
    }

    fn find(&self, name: &String) -> (r: Option<usize>)
        requires
            self.wf(),
        ensures
            match r {
                Some(i) => i < self.names@.len() && self.order()[i as int] == name@,
                None => !self.order().contains(name@),
            },
    {
        let mut i: usize = 0;
        while i < self.names.len()
            invariant
                i <= self.names@.len(),
                forall|j: int| 0 <= j < i ==> self.order()[j] != name@,
            decreases self.names@.len() - i,
        {
            if self.names[i] == *name {
                return Some(i);
            }
            i = i + 1;
        }
        None
    }

    /// The offset of `name`: the one it already has, or else the running
    /// total, which then grows by the scaffold's length.
    pub fn resolve(&mut self, name: &String) -> (r: Result<u64, ProjectionError>)
        requires
            old(self).wf(),
        ensures
            final(self).wf(),
            final(self).size_map() == old(self).size_map(),
            order_wf(final(self).size_map(), final(self).order()),
            (r, final(self).order()) == resolve_spec(old(self).size_map(), old(self).order(), name@),
    {
        match self.find(name) {
            Some(i) => {
                proof { lemma_index_of_distinct(self.order(), i as int); }
                Ok(self.offsets[i])
            },
            None => {
                match self.sizes.get(name) {
                    None => Err(ProjectionError::UnknownScaffold),
                    Some(len) => {
                        match self.total.checked_add(len) {
                            None => Err(ProjectionError::Overflow),
                            Some(next) => {
                                let ghost pre = *self;
                                let start = self.total;
                                self.names.push(name.clone());
                                self.offsets.push(start);
                                self.total = next;
                                proof {
                                    let n = pre.names@.len() as int;
                                    assert(self.order() =~= pre.order().push(name@));
                                    assert forall|k: int| 0 <= k < self.offsets@.len() implies
                                        self.offsets@[k] == prefix_total(self.size_map(), self.order(), k) by {
                                        lemma_prefix_total_push(pre.size_map(), pre.order(), name@, k);
                                    }
                                    lemma_prefix_total_push(pre.size_map(), pre.order(), name@, n);
                                    assert(self.order()[n] == name@);
                                    assert forall|a: int, b: int| 0 <= a < b < self.order().len()
                                        implies self.order()[a] != self.order()[b] by {
                                        if b == n {
                                            assert(self.order()[a] == pre.order()[a]);
                                        }
                                    }
                                    assert forall|a: int| 0 <= a < self.order().len()
                                        implies self.size_map().contains_key(#[trigger] self.order()[a]) by {
                                        if a < n {
                                            assert(self.order()[a] == pre.order()[a]);
                                        }
                                    }
                                }
                                Ok(start)
                            },
                        }
                    },
                }
            },
        }
    }

    /// The offset already assigned to `name`, if it has one.
    pub fn offset(&self, name: &String) -> (r: Option<u64>)
        requires
            self.wf(),
        ensures
            r == (if self.order().contains(name@) {
                Some(prefix_total(self.size_map(), self.order(), self.order().index_of(name@)) as u64)
            } else {
                None::<u64>
            }),
    {
        match self.find(name) {
            Some(i) => {
                proof { lemma_index_of_distinct(self.order(), i as int); }
                Some(self.offsets[i])
            },
            None => None,
        }
    }

    /// The running total: where the next new scaffold will start.
    pub fn total(&self) -> (r: u64)
        requires
            self.wf(),
        ensures
            r == prefix_total(self.size_map(), self.order(), self.order().len() as int),
    {
        self.total
    }
}

} // verus!

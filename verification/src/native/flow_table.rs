//! A table with flows as keys, in the order in which they came.
use super::flow::FlowKey;
use std::collections::HashMap;
use vstd::prelude::*;

verus! {

broadcast use vstd::std_specs::hash::group_hash_axioms;

/// A table with flows as keys. No flow has two rows.
pub struct FlowTable<V> {
    rows: Vec<(FlowKey, V)>,
    index: HashMap<u128, usize>,
}

/// Where the row of a flow stands; the number of rows if there is none.
pub open spec fn row_at<V>(rows: Seq<(FlowKey, V)>, key: FlowKey) -> int
    decreases rows.len(),
{
    if rows.len() == 0 {
        0
    } else if rows[0].0 == key {
        0
    } else {
        1 + row_at(rows.skip(1), key)
    }
}

/// What stands in the row of a flow.
pub open spec fn row_of<V>(rows: Seq<(FlowKey, V)>, key: FlowKey) -> Option<V> {
    if row_at(rows, key) < rows.len() {
        Some(rows[row_at(rows, key)].1)
    } else {
        None
    }
}

/// Rows with a value in the row of a flow, or in a new one.
pub open spec fn with_row<V>(rows: Seq<(FlowKey, V)>, key: FlowKey, value: V) -> Seq<(FlowKey, V)> {
    if row_at(rows, key) < rows.len() {
        rows.update(row_at(rows, key), (key, value))
    } else {
        rows.push((key, value))
    }
}

/// Rows without that of a flow; the last one takes its place.
pub open spec fn without_row<V>(rows: Seq<(FlowKey, V)>, key: FlowKey) -> Seq<(FlowKey, V)> {
    if row_at(rows, key) < rows.len() {
        rows.update(row_at(rows, key), rows.last()).drop_last()
    } else {
        rows
    }
}

/// Whether no flow has two rows.
pub open spec fn distinct_rows<V>(rows: Seq<(FlowKey, V)>) -> bool {
    forall|i: int, j: int|
        0 <= i < j < rows.len() ==> (#[trigger] rows[i]).0 != (#[trigger] rows[j]).0
}

/// A key as one number.
fn pack(key: FlowKey) -> (n: u128)
    ensures
        n == key.rank(),
{
    (((key.src as u128 * 0x1_0000_0000 + key.dst as u128) * 0x1_0000 + key.sport as u128) * 0x1_0000
        + key.dport as u128) * 0x100 + key.proto as u128
}

proof fn lemma_rank_identifies(a: FlowKey, b: FlowKey)
    requires
        a.rank() == b.rank(),
    ensures
        a == b,
{
}

proof fn lemma_rank_bound(key: FlowKey)
    ensures
        key.rank() <= u128::MAX,
{
}

/// Where the row of a flow stands: no row before it has the flow.
pub proof fn lemma_row_at<V>(rows: Seq<(FlowKey, V)>, key: FlowKey)
    ensures
        0 <= row_at(rows, key) <= rows.len(),
        row_at(rows, key) < rows.len() ==> rows[row_at(rows, key)].0 == key,
        forall|j: int| 0 <= j < row_at(rows, key) ==> (#[trigger] rows[j]).0 != key,
    decreases rows.len(),
{
    if rows.len() > 0 && rows[0].0 != key {
        let rest = rows.skip(1);
        lemma_row_at(rest, key);
        assert forall|j: int| 0 <= j < row_at(rows, key) implies (#[trigger] rows[j]).0 != key by {
            if j > 0 {
                assert(rest[j - 1] == rows[j]);
            }
        }
        let at = row_at(rest, key);
        if at < rest.len() {
            assert(rest[at] == rows[at + 1]);
        }
    }
}

pub proof fn lemma_row_at_is<V>(rows: Seq<(FlowKey, V)>, key: FlowKey, at: int)
    requires
        0 <= at <= rows.len(),
        at < rows.len() ==> rows[at].0 == key,
        forall|j: int| 0 <= j < at ==> (#[trigger] rows[j]).0 != key,
    ensures
        row_at(rows, key) == at,
{
    lemma_row_at(rows, key);
    let found = row_at(rows, key);
    if found < at {
        assert(rows[found].0 == key);
    } else if at < found {
        assert(rows[at].0 == key);
    }
}

/// Whether an index leads to the rows by the numbers of their flows.
pub closed spec fn indexed<V>(rows: Seq<(FlowKey, V)>, index: Map<u128, usize>) -> bool {
    &&& forall|i: int|
        0 <= i < rows.len() ==> #[trigger] index.contains_key(rows[i].0.rank() as u128)
            && index[rows[i].0.rank() as u128] == i
    &&& forall|n: u128| #[trigger]
        index.contains_key(n) ==> index[n] < rows.len() && rows[index[n] as int].0.rank() == n
}

proof fn lemma_removed<V>(
    before: Seq<(FlowKey, V)>,
    index: Map<u128, usize>,
    rows: Seq<(FlowKey, V)>,
    after: Map<u128, usize>,
    at: int,
)
    requires
        indexed(before, index),
        distinct_rows(before),
        0 <= at < before.len(),
        rows == before.update(at, before.last()).drop_last(),
        at == before.len() - 1 ==> after == index.remove(before[at].0.rank() as u128),
        at < before.len() - 1 ==> after == index.remove(before[at].0.rank() as u128).insert(
            before.last().0.rank() as u128,
            at as usize,
        ),
        before.len() <= usize::MAX,
    ensures
        indexed(rows, after),
{
    let key = before[at].0;
    let last = before.len() - 1;
    let moved = before.last().0;
    lemma_rank_bound(key);
    lemma_rank_bound(moved);
    assert forall|i: int| 0 <= i < rows.len() implies #[trigger] after.contains_key(
        rows[i].0.rank() as u128,
    ) && after[rows[i].0.rank() as u128] == i by {
        let own = rows[i].0;
        lemma_rank_bound(own);
        if i == at {
            assert(own == moved);
        } else {
            assert(own == before[i].0);
            assert(index.contains_key(before[i].0.rank() as u128));
            if own.rank() == key.rank() {
                lemma_rank_identifies(own, key);
                assert(before[i].0 != before[at].0);
            }
            if own.rank() == moved.rank() {
                lemma_rank_identifies(own, moved);
                assert(before[i].0 != before[last].0);
            }
        }
        if own.rank() == key.rank() {
            lemma_rank_identifies(own, key);
            assert(i == at);
            assert(before[at].0 != before[last].0);
        }
    }
    assert forall|x: u128| #[trigger] after.contains_key(x) implies after[x] < rows.len()
        && rows[after[x] as int].0.rank() == x by {
        if at < last && x == moved.rank() as u128 {
            assert(rows[at].0 == moved);
        } else {
            assert(index.contains_key(x));
            let i = index[x] as int;
            assert(before[i].0.rank() == x);
            if i == at {
                assert(x == key.rank() as u128);
            }
            if i == last {
                assert(before[i].0 == moved);
            }
            assert(i < last && i != at);
            assert(rows[i] == before[i]);
        }
    }
}

impl<V> FlowTable<V> {
    /// The rows.
    pub closed spec fn view(&self) -> Seq<(FlowKey, V)> {
        self.rows@
    }

    /// Whether the rows can be found by their flows.
    pub closed spec fn wf(&self) -> bool {
        indexed(self.rows@, self.index@)
    }

    pub proof fn lemma_distinct(&self)
        requires
            self.wf(),
        ensures
            distinct_rows(self@),
    {
        assert forall|i: int, j: int| 0 <= i < j < self.rows@.len() implies (
        #[trigger] self.rows@[i]).0 != (#[trigger] self.rows@[j]).0 by {
            assert(self.index@.contains_key(self.rows@[i].0.rank() as u128));
            assert(self.index@.contains_key(self.rows@[j].0.rank() as u128));
        }
    }

    /// An empty table.
    pub fn new() -> (table: Self)
        ensures
            table.wf(),
            table@ == Seq::<(FlowKey, V)>::empty(),
    {
        FlowTable { rows: Vec::new(), index: HashMap::new() }
    }

    /// How many rows there are.
    pub fn len(&self) -> (n: usize)
        ensures
            n == self@.len(),
    {
        self.rows.len()
    }

    /// The row at a place.
    pub fn row(&self, i: usize) -> (row: &(FlowKey, V))
        requires
            i < self@.len(),
        ensures
            *row == self@[i as int],
    {
        &self.rows[i]
    }

    fn find(&self, key: FlowKey) -> (at: Option<usize>)
        requires
            self.wf(),
        ensures
            match at {
                Some(i) => i < self@.len() && row_at(self@, key) == i,
                None => row_at(self@, key) == self@.len(),
            },
    {
        let n = pack(key);
        match self.index.get(&n) {
            Some(at) => {
                proof {
                    lemma_rank_identifies(self.rows@[*at as int].0, key);
                    self.lemma_distinct();
                    lemma_row_at_is(self.rows@, key, *at as int);
                }
                Some(*at)
            },
            None => {
                proof {
                    assert forall|j: int| 0 <= j < self.rows@.len() implies (
                    #[trigger] self.rows@[j]).0 != key by {
                        assert(self.index@.contains_key(self.rows@[j].0.rank() as u128));
                    }
                    lemma_row_at_is(self.rows@, key, self.rows@.len() as int);
                }
                None
            },
        }
    }

    /// What stands in the row of a flow.
    pub fn get(&self, key: FlowKey) -> (value: Option<&V>)
        requires
            self.wf(),
        ensures
            match value {
                Some(value) => row_of(self@, key) == Some(*value),
                None => row_of(self@, key) is None,
            },
    {
        match self.find(key) {
            Some(at) => Some(&self.rows[at].1),
            None => None,
        }
    }

    /// Puts a value into the row of a flow, or into a new one.
    pub fn insert(&mut self, key: FlowKey, value: V)
        requires
            old(self).wf(),
        ensures
            final(self).wf(),
            final(self)@ == with_row(old(self)@, key, value),
    {
        match self.find(key) {
            Some(at) => {
                proof {
                    lemma_row_at(self.rows@, key);
                }
                let ghost before = self.rows@;
                self.rows.set(at, (key, value));
                assert forall|i: int| 0 <= i < self.rows@.len() implies self.rows@[i].0
                    == before[i].0 by {
                    assert(before[at as int].0 == key);
                }
                assert(forall|i: int|
                    0 <= i < self.rows@.len() ==> #[trigger] self.index@.contains_key(
                        self.rows@[i].0.rank() as u128,
                    ));
            },
            None => {
                let at: usize = self.rows.len();
                let n = pack(key);
                proof {
                    lemma_row_at(self.rows@, key);
                }
                let ghost before = self.rows@;
                let ghost index = self.index@;
                self.rows.push((key, value));
                self.index.insert(n, at);
                proof {
                    assert forall|i: int| 0 <= i < self.rows@.len() implies
                    #[trigger] self.index@.contains_key(self.rows@[i].0.rank() as u128)
                        && self.index@[self.rows@[i].0.rank() as u128] == i by {
                        if i < before.len() {
                            assert(self.rows@[i] == before[i]);
                            assert(before[i].0 != key);
                            assert(index.contains_key(before[i].0.rank() as u128));
                            if before[i].0.rank() == key.rank() {
                                lemma_rank_identifies(before[i].0, key);
                            }
                        }
                    }
                    assert forall|m: u128| #[trigger] self.index@.contains_key(m) implies
                    self.index@[m] < self.rows@.len() && self.rows@[self.index@[m] as int].0.rank()
                        == m by {
                        if m != n {
                            assert(index.contains_key(m));
                        }
                    }
                }
            },
        }
    }

    /// Takes away the row of a flow.
    pub fn remove(&mut self, key: FlowKey)
        requires
            old(self).wf(),
        ensures
            final(self).wf(),
            final(self)@ == without_row(old(self)@, key),
    {
        if let Some(at) = self.find(key) {
            let ghost before = self.rows@;
            let ghost index = self.index@;
            proof {
                lemma_row_at(before, key);
                self.lemma_distinct();
            }
            let last: usize = self.rows.len() - 1;
            let moved = self.rows[last].0;
            let n = pack(key);
            let m = pack(moved);
            self.index.remove(&n);
            if at != last {
                self.index.insert(m, at);
            }
            self.rows.swap_remove(at);
            proof {
                assert(self.rows@ =~= before.update(at as int, before.last()).drop_last());
                lemma_rank_bound(key);
                lemma_rank_bound(moved);
                lemma_removed(before, index, self.rows@, self.index@, at as int);
            }
        }
    }
}

/// A row that is put in is found; the others stay.
pub proof fn law_row_is_found<V>(rows: Seq<(FlowKey, V)>, key: FlowKey, value: V, other: FlowKey)
    ensures
        row_of(with_row(rows, key, value), other) == if other == key {
            Some(value)
        } else {
            row_of(rows, other)
        },
{
    lemma_row_at(rows, key);
    lemma_row_at(rows, other);
    let out = with_row(rows, key, value);
    let at = row_at(rows, key);
    if other == key {
        lemma_row_at_is(out, key, at);
    } else if at < rows.len() {
        lemma_row_at_is(out, other, row_at(rows, other));
    } else {
        let found = row_at(rows, other);
        if found < rows.len() {
            lemma_row_at_is(out, other, found);
        } else {
            lemma_row_at_is(out, other, out.len() as int);
        }
    }
}

/// A row that is taken away is not found; the others stay.
pub proof fn law_row_is_gone<V>(rows: Seq<(FlowKey, V)>, key: FlowKey, other: FlowKey)
    requires
        distinct_rows(rows),
    ensures
        row_of(without_row(rows, key), other) == if other == key {
            None
        } else {
            row_of(rows, other)
        },
{
    lemma_row_at(rows, key);
    lemma_row_at(rows, other);
    let out = without_row(rows, key);
    let at = row_at(rows, key);
    if at < rows.len() {
        let last = rows.len() - 1;
        if other == key {
            assert forall|j: int| 0 <= j < out.len() implies (#[trigger] out[j]).0 != key by {
                if j == at {
                    assert(out[j] == rows[last]);
                } else {
                    assert(out[j] == rows[j]);
                }
            }
            lemma_row_at_is(out, key, out.len() as int);
        } else {
            let found = row_at(rows, other);
            if found == rows.len() {
                assert forall|j: int| 0 <= j < out.len() implies (#[trigger] out[j]).0 != other by {
                    if j == at {
                        assert(out[j] == rows[last]);
                    } else {
                        assert(out[j] == rows[j]);
                    }
                }
                lemma_row_at_is(out, other, out.len() as int);
            } else {
                let place = if found == last {
                    at
                } else {
                    found
                };
                assert forall|j: int| 0 <= j < place implies (#[trigger] out[j]).0 != other by {
                    if j == at {
                        assert(out[j] == rows[last]);
                    } else {
                        assert(out[j] == rows[j]);
                        assert(rows[found].0 == other);
                    }
                }
                lemma_row_at_is(out, other, place);
            }
        }
    }
}

/// The row of a flow is found by its key, and a key without a row is not.
pub proof fn law_rows_are_found_by_key<V>(rows: Seq<(FlowKey, V)>, i: int, key: FlowKey)
    requires
        distinct_rows(rows),
    ensures
        0 <= i < rows.len() ==> row_of(rows, rows[i].0) == Some(rows[i].1),
        (forall|k: int| 0 <= k < rows.len() ==> (#[trigger] rows[k]).0 != key) ==> row_of(rows, key)
            is None,
{
    lemma_row_at(rows, key);
    if 0 <= i < rows.len() {
        lemma_row_at_is(rows, rows[i].0, i);
    }
}

} // verus!

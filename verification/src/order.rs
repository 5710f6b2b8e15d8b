//! Orders and stable sorting.
use vstd::prelude::*;

verus! {

/// Lexicographic order; a proper prefix comes first.
pub open spec fn lex_less(a: Seq<int>, b: Seq<int>) -> bool
    decreases a.len(),
{
    if b.len() == 0 {
        false
    } else if a.len() == 0 {
        true
    } else if a[0] != b[0] {
        a[0] < b[0]
    } else {
        lex_less(a.skip(1), b.skip(1))
    }
}

/// A value with a place in an order.
pub trait Ranked: Sized {
    /// The place, compared lexicographically.
    spec fn rank(&self) -> Seq<int>;

    /// Whether this value comes before another.
    fn comes_before(&self, other: &Self) -> (b: bool)
        ensures
            b == lex_less(self.rank(), other.rank()),
    ;
}

pub proof fn lemma_lex_irreflexive(a: Seq<int>)
    ensures
        !lex_less(a, a),
    decreases a.len(),
{
    if a.len() > 0 {
        lemma_lex_irreflexive(a.skip(1));
    }
}

pub proof fn lemma_lex_transitive(a: Seq<int>, b: Seq<int>, c: Seq<int>)
    requires
        lex_less(a, b),
        lex_less(b, c),
    ensures
        lex_less(a, c),
    decreases a.len(),
{
    if a.len() > 0 && b.len() > 0 && c.len() > 0 && a[0] == b[0] && b[0] == c[0] {
        lemma_lex_transitive(a.skip(1), b.skip(1), c.skip(1));
    }
}

pub proof fn lemma_lex_total(a: Seq<int>, b: Seq<int>)
    ensures
        a == b || lex_less(a, b) || lex_less(b, a),
    decreases a.len(),
{
    if a.len() > 0 && b.len() > 0 && a[0] == b[0] {
        lemma_lex_total(a.skip(1), b.skip(1));
        if a.skip(1) == b.skip(1) {
            assert(a =~= seq![a[0]] + a.skip(1));
            assert(b =~= seq![b[0]] + b.skip(1));
        }
    } else if a.len() == 0 && b.len() == 0 {
        assert(a =~= b);
    }
}

/// If `a` is not behind `b` and `b` not behind `c`, then `a` is not behind `c`.
pub proof fn lemma_lex_chain(a: Seq<int>, b: Seq<int>, c: Seq<int>)
    requires
        !lex_less(b, a),
        !lex_less(c, b),
    ensures
        !lex_less(c, a),
{
    lemma_lex_total(a, b);
    lemma_lex_total(b, c);
    if lex_less(c, a) {
        if a == b {
        } else if b == c {
        } else {
            lemma_lex_transitive(c, a, b);
        }
    }
}

/// `s` with `x` put behind everything that does not come after it.
pub open spec fn placed<T: Ranked>(s: Seq<T>, x: T) -> Seq<T>
    decreases s.len(),
{
    if s.len() == 0 || !lex_less(x.rank(), s.last().rank()) {
        s.push(x)
    } else {
        placed(s.drop_last(), x).push(s.last())
    }
}

/// The values of `s` in order; values of one rank stay in their order.
pub open spec fn sorted<T: Ranked>(s: Seq<T>) -> Seq<T>
    decreases s.len(),
{
    if s.len() == 0 {
        s
    } else {
        placed(sorted(s.drop_last()), s.last())
    }
}

/// Whether no value comes before one that stands ahead of it.
pub open spec fn is_sorted<T: Ranked>(s: Seq<T>) -> bool {
    forall|i: int, j: int|
        0 <= i < j < s.len() ==> !lex_less((#[trigger] s[j]).rank(), (#[trigger] s[i]).rank())
}

/// Whether values of one rank are the same value.
pub open spec fn rank_identifies<T: Ranked>(s: Seq<T>) -> bool {
    forall|i: int, j: int|
        0 <= i < s.len() && 0 <= j < s.len() && (#[trigger] s[i]).rank() == (
        #[trigger] s[j]).rank() ==> s[i] == s[j]
}

pub proof fn lemma_placed_len<T: Ranked>(s: Seq<T>, x: T)
    ensures
        placed(s, x).len() == s.len() + 1,
    decreases s.len(),
{
    if s.len() > 0 && lex_less(x.rank(), s.last().rank()) {
        lemma_placed_len(s.drop_last(), x);
    }
}

pub proof fn lemma_sorted_len<T: Ranked>(s: Seq<T>)
    ensures
        sorted(s).len() == s.len(),
    decreases s.len(),
{
    if s.len() > 0 {
        lemma_sorted_len(s.drop_last());
        lemma_placed_len(sorted(s.drop_last()), s.last());
    }
}

proof fn lemma_placed_multiset<T: Ranked>(s: Seq<T>, x: T)
    ensures
        placed(s, x).to_multiset() =~= s.to_multiset().insert(x),
    decreases s.len(),
{
    broadcast use vstd::seq_lib::group_to_multiset_ensures;

    if s.len() == 0 || !lex_less(x.rank(), s.last().rank()) {
    } else {
        lemma_placed_multiset(s.drop_last(), x);
        assert(s =~= s.drop_last().push(s.last()));
    }
}

/// Sorting keeps every value.
pub proof fn law_sorting_permutes<T: Ranked>(s: Seq<T>)
    ensures
        sorted(s).to_multiset() == s.to_multiset(),
    decreases s.len(),
{
    broadcast use vstd::seq_lib::group_to_multiset_ensures;

    if s.len() > 0 {
        law_sorting_permutes(s.drop_last());
        lemma_placed_multiset(sorted(s.drop_last()), s.last());
        assert(s =~= s.drop_last().push(s.last()));
    }
}

proof fn lemma_placed_sorted<T: Ranked>(s: Seq<T>, x: T)
    requires
        is_sorted(s),
    ensures
        is_sorted(placed(s, x)),
        forall|i: int|
            0 <= i < placed(s, x).len() ==> (#[trigger] placed(s, x)[i] == x || s.contains(
                placed(s, x)[i],
            )),
    decreases s.len(),
{
    let out = placed(s, x);
    if s.len() == 0 || !lex_less(x.rank(), s.last().rank()) {
        assert forall|i: int, j: int| 0 <= i < j < out.len() implies !lex_less(
            (#[trigger] out[j]).rank(),
            (#[trigger] out[i]).rank(),
        ) by {
            if j == s.len() {
                if i < s.len() - 1 {
                    lemma_lex_chain(s[i].rank(), s.last().rank(), x.rank());
                }
            }
        }
        assert forall|i: int| 0 <= i < out.len() implies (#[trigger] out[i] == x || s.contains(
            out[i],
        )) by {
            if i < s.len() {
                assert(out[i] == s[i]);
            }
        }
    } else {
        let inner = placed(s.drop_last(), x);
        lemma_placed_sorted(s.drop_last(), x);
        lemma_placed_len(s.drop_last(), x);
        assert forall|i: int| 0 <= i < inner.len() implies !lex_less(
            s.last().rank(),
            (#[trigger] inner[i]).rank(),
        ) by {
            if inner[i] == x {
                if lex_less(s.last().rank(), x.rank()) {
                    lemma_lex_transitive(x.rank(), s.last().rank(), x.rank());
                    lemma_lex_irreflexive(x.rank());
                }
            } else {
                let k = choose|k: int| 0 <= k < s.len() - 1 && s.drop_last()[k] == inner[i];
                assert(s[k] == inner[i]);
            }
        }
        assert forall|i: int| 0 <= i < out.len() implies (#[trigger] out[i] == x || s.contains(
            out[i],
        )) by {
            if i < inner.len() {
                assert(out[i] == inner[i]);
                if inner[i] != x {
                    let k = choose|k: int| 0 <= k < s.len() - 1 && s.drop_last()[k] == inner[i];
                    assert(s[k] == inner[i]);
                }
            } else {
                assert(out[i] == s[s.len() - 1]);
            }
        }
    }
}

/// Sorting puts the values in order.
pub proof fn law_sorting_orders<T: Ranked>(s: Seq<T>)
    ensures
        is_sorted(sorted(s)),
    decreases s.len(),
{
    if s.len() > 0 {
        law_sorting_orders(s.drop_last());
        lemma_placed_sorted(sorted(s.drop_last()), s.last());
    }
}

proof fn lemma_same_order<T: Ranked>(a: Seq<T>, b: Seq<T>)
    requires
        is_sorted(a),
        is_sorted(b),
        a.to_multiset() == b.to_multiset(),
        rank_identifies(a),
    ensures
        a == b,
    decreases a.len(),
{
    broadcast use vstd::seq_lib::group_to_multiset_ensures;

    assert(a.len() == a.to_multiset().len());
    assert(b.len() == b.to_multiset().len());
    if a.len() == 0 {
        assert(a =~= b);
    } else {
        assert(a.to_multiset().count(a.last()) > 0) by {
            assert(a.contains(a.last())) by {
                assert(a[a.len() - 1] == a.last());
            }
        }
        assert(b.to_multiset().count(b.last()) > 0) by {
            assert(b.contains(b.last())) by {
                assert(b[b.len() - 1] == b.last());
            }
        }
        assert(b.contains(a.last()));
        assert(a.contains(b.last()));
        let i = choose|i: int| 0 <= i < b.len() && b[i] == a.last();
        let j = choose|j: int| 0 <= j < a.len() && a[j] == b.last();
        assert(!lex_less(b.last().rank(), a.last().rank())) by {
            if i < b.len() - 1 {
                assert(!lex_less(b[b.len() - 1].rank(), b[i].rank()));
            } else {
                lemma_lex_irreflexive(a.last().rank());
            }
        }
        assert(!lex_less(a.last().rank(), b.last().rank())) by {
            if j < a.len() - 1 {
                assert(!lex_less(a[a.len() - 1].rank(), a[j].rank()));
            } else {
                lemma_lex_irreflexive(b.last().rank());
            }
        }
        lemma_lex_total(a.last().rank(), b.last().rank());
        assert(a[a.len() - 1].rank() == a[j].rank());
        assert(a.last() == b.last());
        assert(a =~= a.drop_last().push(a.last()));
        assert(b =~= b.drop_last().push(b.last()));
        assert(a.drop_last().to_multiset() =~= a.to_multiset().remove(a.last()));
        assert(b.drop_last().to_multiset() =~= b.to_multiset().remove(b.last()));
        assert(rank_identifies(a.drop_last())) by {
            assert forall|p: int, q: int|
                0 <= p < a.len() - 1 && 0 <= q < a.len() - 1 && (
                #[trigger] a.drop_last()[p]).rank() == (#[trigger] a.drop_last()[q]).rank() implies a.drop_last()[p]
                == a.drop_last()[q] by {
                assert(a[p].rank() == a[q].rank());
            }
        }
        assert(is_sorted(a.drop_last())) by {
            assert forall|p: int, q: int| 0 <= p < q < a.len() - 1 implies !lex_less(
                (#[trigger] a.drop_last()[q]).rank(),
                (#[trigger] a.drop_last()[p]).rank(),
            ) by {
                assert(!lex_less(a[q].rank(), a[p].rank()));
            }
        }
        assert(is_sorted(b.drop_last())) by {
            assert forall|p: int, q: int| 0 <= p < q < b.len() - 1 implies !lex_less(
                (#[trigger] b.drop_last()[q]).rank(),
                (#[trigger] b.drop_last()[p]).rank(),
            ) by {
                assert(!lex_less(b[q].rank(), b[p].rank()));
            }
        }
        lemma_same_order(a.drop_last(), b.drop_last());
    }
}

/// Where the rank tells values apart, the sorted list depends on which values
/// there are and not on the order they came in.
pub proof fn law_sorting_forgets_order<T: Ranked>(a: Seq<T>, b: Seq<T>)
    requires
        a.to_multiset() == b.to_multiset(),
        rank_identifies(a),
    ensures
        sorted(a) == sorted(b),
{
    broadcast use vstd::seq_lib::group_to_multiset_ensures;

    law_sorting_permutes(a);
    law_sorting_permutes(b);
    law_sorting_orders(a);
    law_sorting_orders(b);
    let s = sorted(a);
    assert forall|i: int, j: int|
        0 <= i < s.len() && 0 <= j < s.len() && (#[trigger] s[i]).rank() == (
        #[trigger] s[j]).rank() implies s[i] == s[j] by {
        assert(s.contains(s[i]));
        assert(s.contains(s[j]));
        assert(s.to_multiset().count(s[i]) > 0);
        assert(s.to_multiset().count(s[j]) > 0);
        assert(a.contains(s[i]));
        assert(a.contains(s[j]));
        let p = choose|p: int| 0 <= p < a.len() && a[p] == s[i];
        let q = choose|q: int| 0 <= q < a.len() && a[q] == s[j];
        assert(a[p].rank() == a[q].rank());
    }
    lemma_same_order(sorted(a), sorted(b));
}

/// Puts the values in order; values of one rank stay in their order.
pub fn sort<T: Ranked>(v: &mut Vec<T>)
    ensures
        final(v)@ == sorted(old(v)@),
{
    let ghost all = v@;
    let n: usize = v.len();
    let mut i: usize = 0;
    assert(sorted(all.take(0)) + all.skip(0) =~= all);
    while i < n
        invariant
            i <= n,
            n == all.len(),
            v@ == sorted(all.take(i as int)) + all.skip(i as int),
        decreases n - i,
    {
        let ghost done = sorted(all.take(i as int));
        proof {
            lemma_sorted_len(all.take(i as int));
        }
        let x = v.remove(i);
        assert(x == all[i as int]);
        assert(v@ =~= done + all.skip(i + 1));
        let mut j: usize = i;
        assert(placed(done, x) =~= placed(done.take(j as int), x) + done.skip(j as int)) by {
            assert(done.take(i as int) =~= done);
        }
        while j > 0 && x.comes_before(&v[j - 1])
            invariant
                j <= i <= v.len(),
                done.len() == i,
                v@ == done + all.skip(i + 1),
                placed(done, x) == placed(done.take(j as int), x) + done.skip(j as int),
            decreases j,
        {
            assert(v@[j - 1] == done[j - 1]);
            assert(done.take(j as int).drop_last() =~= done.take(j - 1));
            assert(done.take(j as int).last() == done[j - 1]);
            assert(placed(done.take(j - 1), x).push(done[j - 1]) + done.skip(j as int) =~= placed(
                done.take(j - 1),
                x,
            ) + done.skip(j - 1));
            j -= 1;
        }
        assert(placed(done.take(j as int), x) == done.take(j as int).push(x)) by {
            if j > 0 {
                assert(v@[j - 1] == done[j - 1]);
                assert(done.take(j as int).last() == done[j - 1]);
            }
        }
        v.insert(j, x);
        assert(all.take(i + 1).drop_last() =~= all.take(i as int));
        assert(all.take(i + 1).last() == x);
        assert(v@ =~= placed(done, x) + all.skip(i + 1));
        i += 1;
    }
    assert(all.take(n as int) =~= all);
    assert(sorted(all) + all.skip(n as int) =~= sorted(all));
}

// ---------------------------------------------------------------------------
// Numbers and text
// ---------------------------------------------------------------------------

impl Ranked for u32 {
    open spec fn rank(&self) -> Seq<int> {
        seq![*self as int]
    }

    fn comes_before(&self, other: &Self) -> (b: bool) {
        proof {
            reveal_with_fuel(lex_less, 2);
        }
        *self < *other
    }
}

// ---------------------------------------------------------------------------
// Ascending sets of numbers
// ---------------------------------------------------------------------------

/// Whether every number is above the one ahead of it.
pub open spec fn ascending(s: Seq<u32>) -> bool {
    forall|i: int, j: int| 0 <= i < j < s.len() ==> #[trigger] s[i] < #[trigger] s[j]
}

/// Whether `set` lists the numbers of `values` once each, in ascending order.
pub open spec fn is_set_of(set: Seq<u32>, values: Seq<u32>) -> bool {
    ascending(set) && forall|x: u32| #[trigger] set.contains(x) <==> values.contains(x)
}

/// The numbers of `values`, once each, in ascending order.
pub open spec fn set_seq(values: Seq<u32>) -> Seq<u32> {
    choose|set: Seq<u32>| is_set_of(set, values)
}

/// Adds a number to an ascending set.
pub fn set_insert(set: &mut Vec<u32>, x: u32)
    requires
        ascending(old(set)@),
    ensures
        ascending(final(set)@),
        forall|y: u32| #[trigger] final(set)@.contains(y) <==> (old(set)@.contains(y) || y == x),
{
    let ghost before = set@;
    let mut i: usize = 0;
    while i < set.len() && set[i] < x
        invariant
            i <= set.len(),
            set@ == before,
            ascending(before),
            forall|j: int| 0 <= j < i ==> before[j] < x,
        decreases set.len() - i,
    {
        i += 1;
    }
    if i < set.len() && set[i] == x {
        assert(before[i as int] == x);
        return ;
    }
    set.insert(i, x);
    assert forall|y: u32| #[trigger] set@.contains(y) <==> (before.contains(y) || y == x) by {
        if before.contains(y) {
            let k = choose|k: int| 0 <= k < before.len() && before[k] == y;
            if k < i {
                assert(set@[k] == y);
            } else {
                assert(set@[k + 1] == y);
            }
        }
        if y == x {
            assert(set@[i as int] == y);
        }
        if set@.contains(y) && y != x {
            let k = choose|k: int| 0 <= k < set@.len() && set@[k] == y;
            if k < i {
                assert(before[k] == y);
            } else {
                assert(before[k - 1] == y);
            }
        }
    }
}

/// The numbers of `values`, once each, in ascending order.
pub fn set_of(values: &[u32]) -> (set: Vec<u32>)
    ensures
        is_set_of(set@, values@),
        set@ == set_seq(values@),
{
    let mut set: Vec<u32> = Vec::new();
    let mut i: usize = 0;
    while i < values.len()
        invariant
            i <= values.len(),
            is_set_of(set@, values@.take(i as int)),
        decreases values.len() - i,
    {
        let ghost before = set@;
        set_insert(&mut set, values[i]);
        assert forall|y: u32| #[trigger] set@.contains(y) <==> values@.take(i + 1).contains(y) by {
            let old_values = values@.take(i as int);
            let new_values = values@.take(i + 1);
            if old_values.contains(y) {
                let k = choose|k: int| 0 <= k < old_values.len() && old_values[k] == y;
                assert(new_values[k] == y);
            }
            if y == values@[i as int] {
                assert(new_values[i as int] == y);
            }
            if new_values.contains(y) && y != values@[i as int] {
                let k = choose|k: int| 0 <= k < new_values.len() && new_values[k] == y;
                assert(old_values[k] == y);
            }
            assert(before.contains(y) <==> old_values.contains(y));
        }
        i += 1;
    }
    assert(values@.take(values@.len() as int) =~= values@);
    proof {
        law_set_is_unique(set@, values@);
    }
    set
}

/// There is one ascending list of the numbers of `values`.
pub proof fn law_set_is_unique(set: Seq<u32>, values: Seq<u32>)
    requires
        is_set_of(set, values),
    ensures
        set == set_seq(values),
{
    law_ascending_sets_are_unique(set, set_seq(values));
}

/// An ascending set is the only one with its numbers.
pub proof fn law_ascending_sets_are_unique(a: Seq<u32>, b: Seq<u32>)
    requires
        ascending(a),
        ascending(b),
        forall|x: u32| #[trigger] a.contains(x) <==> b.contains(x),
    ensures
        a == b,
    decreases a.len() + b.len(),
{
    if a.len() == 0 {
        if b.len() > 0 {
            assert(b.contains(b[0]));
            assert(a.contains(b[0]));
        }
        assert(a =~= b);
    } else if b.len() == 0 {
        assert(a.contains(a[0]));
        assert(b.contains(a[0]));
    } else {
        assert(a.contains(a.last())) by {
            assert(a[a.len() - 1] == a.last());
        }
        assert(b.contains(b.last())) by {
            assert(b[b.len() - 1] == b.last());
        }
        let i = choose|i: int| 0 <= i < b.len() && b[i] == a.last();
        let j = choose|j: int| 0 <= j < a.len() && a[j] == b.last();
        assert(b.contains(a.last()) && a.contains(b.last()));
        assert(a.last() == b.last());
        let a0 = a.drop_last();
        let b0 = b.drop_last();
        assert forall|x: u32| #[trigger] a0.contains(x) <==> b0.contains(x) by {
            if a0.contains(x) {
                let k = choose|k: int| 0 <= k < a0.len() && a0[k] == x;
                assert(a[k] == x && x < a.last());
                assert(a.contains(x));
                assert(b.contains(x));
                let m = choose|m: int| 0 <= m < b.len() && b[m] == x;
                assert(b0[m] == x);
            }
            if b0.contains(x) {
                let k = choose|k: int| 0 <= k < b0.len() && b0[k] == x;
                assert(b[k] == x && x < b.last());
                assert(b.contains(x));
                assert(a.contains(x));
                let m = choose|m: int| 0 <= m < a.len() && a[m] == x;
                assert(a0[m] == x);
            }
        }
        law_ascending_sets_are_unique(a0, b0);
        assert(a =~= a0.push(a.last()));
        assert(b =~= b0.push(b.last()));
    }
}

proof fn lemma_set_with(set: Seq<u32>, x: u32) -> (out: Seq<u32>)
    requires
        ascending(set),
    ensures
        ascending(out),
        forall|y: u32| #[trigger] out.contains(y) <==> set.contains(y) || y == x,
    decreases set.len(),
{
    if set.len() == 0 {
        assert(seq![x][0] == x);
        seq![x]
    } else {
        let last = set.last();
        assert(set[set.len() - 1] == last);
        if last == x {
            set
        } else if last < x {
            let out = set.push(x);
            assert(out[out.len() - 1] == x);
            assert forall|y: u32| #[trigger] out.contains(y) <==> set.contains(y) || y == x by {
                if set.contains(y) {
                    let i = choose|i: int| 0 <= i < set.len() && set[i] == y;
                    assert(out[i] == y);
                }
                if out.contains(y) {
                    let i = choose|i: int| 0 <= i < out.len() && out[i] == y;
                    if i < set.len() {
                        assert(set[i] == y);
                    }
                }
            }
            assert forall|i: int, j: int| 0 <= i < j < out.len() implies #[trigger] out[i]
                < #[trigger] out[j] by {
                if j == set.len() && i < set.len() - 1 {
                    assert(set[i] < set[set.len() - 1]);
                }
            }
            out
        } else {
            let front = set.drop_last();
            let with = lemma_set_with(front, x);
            let out = with.push(last);
            assert(out[out.len() - 1] == last);
            assert forall|y: u32| #[trigger] out.contains(y) <==> set.contains(y) || y == x by {
                if set.contains(y) && y != last {
                    let i = choose|i: int| 0 <= i < set.len() && set[i] == y;
                    assert(front[i] == y);
                    assert(with.contains(y));
                }
                if with.contains(y) {
                    let i = choose|i: int| 0 <= i < with.len() && with[i] == y;
                    assert(out[i] == y);
                }
                if with.contains(y) && y != x {
                    assert(front.contains(y));
                    let i = choose|i: int| 0 <= i < front.len() && front[i] == y;
                    assert(set[i] == y);
                }
                if y == x {
                    assert(with.contains(x));
                }
                if out.contains(y) && y != last {
                    let i = choose|i: int| 0 <= i < out.len() && out[i] == y;
                    assert(with[i] == y);
                }
            }
            assert forall|i: int, j: int| 0 <= i < j < out.len() implies #[trigger] out[i]
                < #[trigger] out[j] by {
                if j < with.len() {
                    assert(with[i] < with[j]);
                } else {
                    assert(with.contains(with[i]));
                    if with[i] != x {
                        assert(front.contains(with[i]));
                        let m = choose|m: int| 0 <= m < front.len() && front[m] == with[i];
                        assert(set[m] < set[set.len() - 1]);
                    }
                }
            }
            out
        }
    }
}

proof fn lemma_set_exists(values: Seq<u32>) -> (set: Seq<u32>)
    ensures
        is_set_of(set, values),
    decreases values.len(),
{
    if values.len() == 0 {
        values
    } else {
        let front = values.drop_last();
        let before = lemma_set_exists(front);
        let set = lemma_set_with(before, values.last());
        assert forall|x: u32| #[trigger] set.contains(x) <==> values.contains(x) by {
            if front.contains(x) {
                let i = choose|i: int| 0 <= i < front.len() && front[i] == x;
                assert(values[i] == x);
            }
            assert(values[values.len() - 1] == values.last());
            if values.contains(x) && x != values.last() {
                let i = choose|i: int| 0 <= i < values.len() && values[i] == x;
                assert(front[i] == x);
            }
            assert(before.contains(x) <==> front.contains(x));
        }
        set
    }
}

/// The set of some numbers holds these and no others, in ascending order.
pub proof fn law_set_holds_each_once(values: Seq<u32>)
    ensures
        ascending(set_seq(values)),
        forall|x: u32| #[trigger] set_seq(values).contains(x) <==> values.contains(x),
{
    let set = lemma_set_exists(values);
    assert(is_set_of(set, values));
}

/// Of two ranks the one that is smaller at the first place at which they differ comes first,
/// and a rank comes before one that goes on behind it.
pub proof fn law_first_difference_decides(
    front: Seq<int>,
    a: int,
    b: int,
    x: Seq<int>,
    y: Seq<int>,
)
    ensures
        a < b ==> lex_less(front + seq![a] + x, front + seq![b] + y),
        a > b ==> !lex_less(front + seq![a] + x, front + seq![b] + y),
        lex_less(front, front + seq![a] + x),
        !lex_less(front + seq![a] + x, front),
    decreases front.len(),
{
    let p = front + seq![a] + x;
    let q = front + seq![b] + y;
    if front.len() == 0 {
        assert(p[0] == a && q[0] == b);
    } else {
        let rest = front.skip(1);
        law_first_difference_decides(rest, a, b, x, y);
        assert(p[0] == front[0] && q[0] == front[0]);
        assert(p.skip(1) =~= rest + seq![a] + x);
        assert(q.skip(1) =~= rest + seq![b] + y);
    }
}

} // verus!

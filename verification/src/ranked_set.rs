//! Ascending sets of texts and addresses.
use crate::linux::route::{ip_rank, ip_sort_key};
use crate::net::IpAddr;
use crate::order::{
    law_first_difference_decides, lemma_lex_irreflexive, lemma_lex_total, lemma_lex_transitive,
    lex_less, Ranked,
};
use crate::text::{chars_of, strings};
use vstd::prelude::*;

verus! {

/// Whether every rank is above the one ahead of it.
pub open spec fn rising(ranks: Seq<Seq<int>>) -> bool {
    forall|i: int, j: int|
        0 <= i < j < ranks.len() ==> lex_less(#[trigger] ranks[i], #[trigger] ranks[j])
}

/// The ranks of values.
pub open spec fn ranks<T: Ranked>(s: Seq<T>) -> Seq<Seq<int>> {
    s.map_values(|x: T| x.rank())
}

/// The place of a text in the order of texts: character by character.
pub open spec fn text_rank(text: Seq<char>) -> Seq<int> {
    text.map_values(|c: char| c as int)
}

/// Whether `set` lists the texts of `values` once each, in ascending order.
pub open spec fn is_text_set(set: Seq<Seq<char>>, values: Seq<Seq<char>>) -> bool {
    &&& rising(set.map_values(|t: Seq<char>| text_rank(t)))
    &&& forall|t: Seq<char>| #[trigger] set.contains(t) <==> values.contains(t)
}

/// The texts of `values`, once each, in ascending order.
pub open spec fn text_set(values: Seq<Seq<char>>) -> Seq<Seq<char>> {
    choose|set: Seq<Seq<char>>| is_text_set(set, values)
}

/// Whether `set` lists the addresses of `values` once each, in ascending order.
pub open spec fn is_ip_set(set: Seq<IpAddr>, values: Seq<IpAddr>) -> bool {
    &&& rising(set.map_values(|ip: IpAddr| ip_rank(ip)))
    &&& forall|ip: IpAddr| #[trigger] set.contains(ip) <==> values.contains(ip)
}

/// The addresses of `values`, once each, in ascending order.
pub open spec fn ip_set(values: Seq<IpAddr>) -> Seq<IpAddr> {
    choose|set: Seq<IpAddr>| is_ip_set(set, values)
}

proof fn lemma_rising_first<A>(a: Seq<A>, b: Seq<A>, rank: spec_fn(A) -> Seq<int>)
    requires
        rising(a.map_values(rank)),
        rising(b.map_values(rank)),
        forall|x: A| #[trigger] a.contains(x) <==> b.contains(x),
        a.len() > 0,
    ensures
        b.len() > 0,
        a[0] == b[0],
{
    assert(a.contains(a[0]));
    assert(b.contains(a[0]));
    let k = choose|k: int| 0 <= k < b.len() && b[k] == a[0];
    assert(b.contains(b[0]));
    assert(a.contains(b[0]));
    let l = choose|l: int| 0 <= l < a.len() && a[l] == b[0];
    let ra = a.map_values(rank);
    let rb = b.map_values(rank);
    if k > 0 {
        assert(lex_less(rb[0], rb[k]));
        lemma_lex_irreflexive(rb[0]);
        assert(l > 0);
        assert(lex_less(ra[0], ra[l]));
        lemma_lex_transitive(rb[0], ra[0], rb[0]);
    }
}

proof fn lemma_rising_rest<A>(
    a: Seq<A>,
    b: Seq<A>,
    rank: spec_fn(A) -> Seq<int>,
    x: A,
)
    requires
        rising(a.map_values(rank)),
        forall|y: A| #[trigger] a.contains(y) <==> b.contains(y),
        a.len() > 0,
        b.len() > 0,
        a[0] == b[0],
        a.skip(1).contains(x),
    ensures
        b.skip(1).contains(x),
{
    let i = choose|i: int| 0 <= i < a.skip(1).len() && a.skip(1)[i] == x;
    assert(a[i + 1] == x);
    assert(a.contains(x));
    let j = choose|j: int| 0 <= j < b.len() && b[j] == x;
    let ra = a.map_values(rank);
    assert(lex_less(ra[0], ra[i + 1]));
    lemma_lex_irreflexive(ra[0]);
    assert(j > 0);
    assert(b.skip(1)[j - 1] == x);
}

proof fn lemma_rising_skip<A>(a: Seq<A>, rank: spec_fn(A) -> Seq<int>)
    requires
        rising(a.map_values(rank)),
        a.len() > 0,
    ensures
        rising(a.skip(1).map_values(rank)),
{
    let ra = a.map_values(rank);
    let rs = a.skip(1).map_values(rank);
    assert forall|i: int, j: int| 0 <= i < j < rs.len() implies lex_less(
        #[trigger] rs[i],
        #[trigger] rs[j],
    ) by {
        assert(rs[i] == ra[i + 1]);
        assert(rs[j] == ra[j + 1]);
    }
}

/// A rising list is the only one with its values.
pub proof fn law_rising_lists_are_unique<A>(a: Seq<A>, b: Seq<A>, rank: spec_fn(A) -> Seq<int>)
    requires
        rising(a.map_values(rank)),
        rising(b.map_values(rank)),
        forall|x: A| #[trigger] a.contains(x) <==> b.contains(x),
    ensures
        a == b,
    decreases a.len(),
{
    if a.len() == 0 {
        if b.len() > 0 {
            assert(b.contains(b[0]));
            assert(a.contains(b[0]));
        }
        assert(a =~= b);
    } else {
        lemma_rising_first(a, b, rank);
        lemma_rising_skip(a, rank);
        lemma_rising_skip(b, rank);
        assert forall|x: A| #[trigger] a.skip(1).contains(x) <==> b.skip(1).contains(x) by {
            if a.skip(1).contains(x) {
                lemma_rising_rest(a, b, rank, x);
            }
            if b.skip(1).contains(x) {
                lemma_rising_rest(b, a, rank, x);
            }
        }
        law_rising_lists_are_unique(a.skip(1), b.skip(1), rank);
        assert(a =~= seq![a[0]] + a.skip(1));
        assert(b =~= seq![b[0]] + b.skip(1));
    }
}

fn text_before(a: &[char], b: &[char]) -> (less: bool)
    ensures
        less == lex_less(text_rank(a@), text_rank(b@)),
{
    let ghost ra = text_rank(a@);
    let ghost rb = text_rank(b@);
    let mut i: usize = 0;
    assert(ra.skip(0) =~= ra);
    assert(rb.skip(0) =~= rb);
    while i < a.len() && i < b.len() && a[i] == b[i]
        invariant
            i <= a.len(),
            i <= b.len(),
            ra == text_rank(a@),
            rb == text_rank(b@),
            lex_less(ra, rb) == lex_less(ra.skip(i as int), rb.skip(i as int)),
        decreases a.len() - i,
    {
        assert(ra.skip(i as int)[0] == a@[i as int] as int);
        assert(rb.skip(i as int)[0] == b@[i as int] as int);
        assert(ra.skip(i as int).skip(1) =~= ra.skip(i + 1));
        assert(rb.skip(i as int).skip(1) =~= rb.skip(i + 1));
        i += 1;
    }
    if i >= b.len() {
        return false;
    }
    if i >= a.len() {
        return true;
    }
    assert(ra.skip(i as int)[0] == a@[i as int] as int);
    assert(rb.skip(i as int)[0] == b@[i as int] as int);
    a[i] < b[i]
}

impl Ranked for String {
    open spec fn rank(&self) -> Seq<int> {
        text_rank(self@)
    }

    fn comes_before(&self, other: &Self) -> (b: bool) {
        let a = chars_of(self.as_str());
        let b = chars_of(other.as_str());
        text_before(a.as_slice(), b.as_slice())
    }
}

impl Ranked for IpAddr {
    open spec fn rank(&self) -> Seq<int> {
        ip_rank(*self)
    }

    fn comes_before(&self, other: &Self) -> (b: bool) {
        let a = ip_sort_key(*self);
        let b = ip_sort_key(*other);
        proof {
            reveal_with_fuel(lex_less, 3);
            assert(seq![a.0 as int, a.1 as int][0] == ip_rank(*self)[0]);
            assert(seq![a.0 as int, a.1 as int][1] == ip_rank(*self)[1]);
            assert(seq![b.0 as int, b.1 as int][0] == ip_rank(*other)[0]);
            assert(seq![b.0 as int, b.1 as int][1] == ip_rank(*other)[1]);
        }
        a.0 < b.0 || (a.0 == b.0 && a.1 < b.1)
    }
}

/// Adds a value to a rising list. Gives whether it was not there.
pub fn insert_ranked<T: Ranked>(set: &mut Vec<T>, x: T) -> (added: bool)
    requires
        rising(ranks(old(set)@)),
    ensures
        rising(ranks(final(set)@)),
        added ==> exists|at: int|
            0 <= at <= old(set)@.len() && final(set)@ == #[trigger] old(set)@.insert(at, x),
        !added ==> final(set)@ == old(set)@ && ranks(old(set)@).contains(x.rank()),
{
    let ghost before = set@;
    let ghost rb = ranks(before);
    let mut i: usize = 0;
    while i < set.len() && set[i].comes_before(&x)
        invariant
            i <= set.len(),
            set@ == before,
            rb == ranks(before),
            rising(rb),
            forall|j: int| 0 <= j < i ==> lex_less(#[trigger] rb[j], x.rank()),
        decreases set.len() - i,
    {
        assert(rb[i as int] == before[i as int].rank());
        i += 1;
    }
    if i < set.len() && !x.comes_before(&set[i]) {
        proof {
            assert(rb[i as int] == before[i as int].rank());
            lemma_lex_total(rb[i as int], x.rank());
        }
        return false;
    }
    let ghost xr = x.rank();
    let ghost value = x;
    set.insert(i, x);
    let ghost ra = ranks(set@);
    assert(set@ == before.insert(i as int, value));
    assert forall|j: int, k: int| 0 <= j < k < ra.len() implies lex_less(
        #[trigger] ra[j],
        #[trigger] ra[k],
    ) by {
        if k < i {
            assert(ra[j] == rb[j] && ra[k] == rb[k]);
        } else if k == i {
            assert(ra[j] == rb[j] && ra[k] == xr);
        } else if j > i {
            assert(ra[j] == rb[j - 1] && ra[k] == rb[k - 1]);
        } else {
            assert(ra[k] == rb[k - 1]);
            assert(rb[i as int] == before[i as int].rank());
            assert(lex_less(xr, rb[i as int]));
            if k - 1 > i {
                assert(lex_less(rb[i as int], rb[k - 1]));
                lemma_lex_transitive(xr, rb[i as int], rb[k - 1]);
            }
            if j == i {
                assert(ra[j] == xr);
            } else {
                assert(ra[j] == rb[j]);
                lemma_lex_transitive(rb[j], xr, rb[k - 1]);
            }
        }
    }
    true
}

proof fn lemma_insert_contains<A>(s: Seq<A>, at: int, x: A, y: A)
    requires
        0 <= at <= s.len(),
    ensures
        s.insert(at, x).contains(y) <==> s.contains(y) || x == y,
{
    let t = s.insert(at, x);
    if s.contains(y) {
        let k = choose|k: int| 0 <= k < s.len() && s[k] == y;
        if k < at {
            assert(t[k] == y);
        } else {
            assert(t[k + 1] == y);
        }
    }
    if x == y {
        assert(t[at] == y);
    }
    if t.contains(y) && x != y {
        let k = choose|k: int| 0 <= k < t.len() && t[k] == y;
        if k < at {
            assert(s[k] == y);
        } else {
            assert(s[k - 1] == y);
        }
    }
}

proof fn lemma_push_contains<A>(s: Seq<A>, i: int, y: A)
    requires
        0 <= i < s.len(),
    ensures
        s.take(i + 1).contains(y) <==> s.take(i).contains(y) || s[i] == y,
{
    assert(s.take(i + 1) =~= s.take(i).insert(i, s[i]));
    lemma_insert_contains(s.take(i), i, s[i], y);
}

proof fn lemma_text_rank_injective(a: Seq<char>, b: Seq<char>)
    requires
        text_rank(a) == text_rank(b),
    ensures
        a == b,
{
    assert(a.len() == text_rank(a).len());
    assert(b.len() == text_rank(b).len());
    assert forall|i: int| 0 <= i < a.len() implies a[i] == b[i] by {
        assert(text_rank(a)[i] == a[i] as int);
        assert(text_rank(b)[i] == b[i] as int);
    }
    assert(a =~= b);
}

/// The texts of `values`, once each, in ascending order.
pub fn text_set_of(values: Vec<String>) -> (set: Vec<String>)
    ensures
        is_text_set(strings(set@), strings(values@)),
        strings(set@) == text_set(strings(values@)),
{
    let mut set: Vec<String> = Vec::new();
    let ghost all = strings(values@);
    let ghost rank = |t: Seq<char>| text_rank(t);
    let mut i: usize = 0;
    while i < values.len()
        invariant
            i <= values.len(),
            all == strings(values@),
            rank == (|t: Seq<char>| text_rank(t)),
            is_text_set(strings(set@), all.take(i as int)),
        decreases values.len() - i,
    {
        let ghost before = set@;
        let x = values[i].clone();
        let ghost t = x@;
        let ghost value = x;
        assert(ranks(before) =~= strings(before).map_values(rank));
        let added = insert_ranked(&mut set, x);
        assert(ranks(set@) =~= strings(set@).map_values(rank));
        proof {
            if added {
                let at = choose|at: int|
                    0 <= at <= before.len() && set@ == #[trigger] before.insert(at, value);
                assert(strings(set@) =~= strings(before).insert(at, t));
                assert forall|y: Seq<char>| #[trigger] strings(set@).contains(y) <==> all.take(
                    i + 1,
                ).contains(y) by {
                    lemma_insert_contains(strings(before), at, t, y);
                    lemma_push_contains(all, i as int, y);
                }
            } else {
                let k = choose|k: int| 0 <= k < ranks(before).len() && ranks(before)[k] == text_rank(t);
                assert(strings(before)[k] == before[k]@);
                lemma_text_rank_injective(before[k]@, t);
                assert(strings(before).contains(t));
                assert forall|y: Seq<char>| #[trigger] strings(set@).contains(y) <==> all.take(
                    i + 1,
                ).contains(y) by {
                    lemma_push_contains(all, i as int, y);
                }
            }
        }
        i += 1;
    }
    assert(all.take(all.len() as int) =~= all);
    proof {
        law_text_set_is_unique(strings(set@), all);
    }
    set
}

/// There is one ascending list of the texts of `values`.
pub proof fn law_text_set_is_unique(set: Seq<Seq<char>>, values: Seq<Seq<char>>)
    requires
        is_text_set(set, values),
    ensures
        set == text_set(values),
{
    law_rising_lists_are_unique(set, text_set(values), |t: Seq<char>| text_rank(t));
}

/// The addresses of `values`, once each, in ascending order.
pub fn ip_set_of(values: &[IpAddr]) -> (set: Vec<IpAddr>)
    ensures
        is_ip_set(set@, values@),
        set@ == ip_set(values@),
{
    let mut set: Vec<IpAddr> = Vec::new();
    let ghost rank = |ip: IpAddr| ip_rank(ip);
    let mut i: usize = 0;
    while i < values.len()
        invariant
            i <= values.len(),
            rank == (|ip: IpAddr| ip_rank(ip)),
            is_ip_set(set@, values@.take(i as int)),
        decreases values.len() - i,
    {
        let ghost before = set@;
        let x = values[i];
        assert(ranks(before) =~= before.map_values(rank));
        let added = insert_ranked(&mut set, x);
        assert(ranks(set@) =~= set@.map_values(rank));
        proof {
            if added {
                let at = choose|at: int|
                    0 <= at <= before.len() && set@ == #[trigger] before.insert(at, x);
                assert forall|y: IpAddr| #[trigger] set@.contains(y) <==> values@.take(
                    i + 1,
                ).contains(y) by {
                    lemma_insert_contains(before, at, x, y);
                    lemma_push_contains(values@, i as int, y);
                }
            } else {
                let k = choose|k: int| 0 <= k < ranks(before).len() && ranks(before)[k] == ip_rank(x);
                assert(ip_rank(before[k]) == ip_rank(x));
                assert(before[k] == x) by {
                    assert(ip_rank(before[k])[0] == ip_rank(x)[0]);
                    assert(ip_rank(before[k])[1] == ip_rank(x)[1]);
                }
                assert(before.contains(x));
                assert forall|y: IpAddr| #[trigger] set@.contains(y) <==> values@.take(
                    i + 1,
                ).contains(y) by {
                    lemma_push_contains(values@, i as int, y);
                }
            }
        }
        i += 1;
    }
    assert(values@.take(values@.len() as int) =~= values@);
    proof {
        law_ip_set_is_unique(set@, values@);
    }
    set
}

/// There is one ascending list of the addresses of `values`.
pub proof fn law_ip_set_is_unique(set: Seq<IpAddr>, values: Seq<IpAddr>)
    requires
        is_ip_set(set, values),
    ensures
        set == ip_set(values),
{
    law_rising_lists_are_unique(set, ip_set(values), |ip: IpAddr| ip_rank(ip));
}

/// IPv4 addresses come before IPv6 addresses, and within a family the smaller number comes
/// first.
pub proof fn law_addresses_come_in_order(a: u32, b: u32, c: u128, d: u128)
    ensures
        lex_less(ip_rank(IpAddr::V4(a)), ip_rank(IpAddr::V6(c))),
        !lex_less(ip_rank(IpAddr::V6(c)), ip_rank(IpAddr::V4(a))),
        lex_less(ip_rank(IpAddr::V4(a)), ip_rank(IpAddr::V4(b))) <==> a < b,
        lex_less(ip_rank(IpAddr::V6(c)), ip_rank(IpAddr::V6(d))) <==> c < d,
{
    reveal_with_fuel(lex_less, 4);
}

/// Texts come in the order of the first character in which they differ.
pub proof fn law_texts_come_in_order(
    front: Seq<char>,
    a: char,
    b: char,
    x: Seq<char>,
    y: Seq<char>,
)
    requires
        a < b,
    ensures
        lex_less(text_rank(front + seq![a] + x), text_rank(front + seq![b] + y)),
        !lex_less(text_rank(front + seq![b] + y), text_rank(front + seq![a] + x)),
        lex_less(text_rank(front), text_rank(front + seq![a] + x)),
{
    law_first_difference_decides(
        text_rank(front),
        a as int,
        b as int,
        text_rank(x),
        text_rank(y),
    );
    law_first_difference_decides(
        text_rank(front),
        b as int,
        a as int,
        text_rank(y),
        text_rank(x),
    );
    assert(text_rank(front + seq![a] + x) =~= text_rank(front) + seq![a as int] + text_rank(x));
    assert(text_rank(front + seq![b] + y) =~= text_rank(front) + seq![b as int] + text_rank(y));
}

} // verus!

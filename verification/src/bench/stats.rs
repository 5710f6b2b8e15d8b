//! The figures of the load test.
use crate::bench::sample::{Sample, SampleView};
use crate::config::Protocol;
use crate::order::{
    ascending, law_set_is_unique, lex_less, set_insert, set_of, set_seq, sort, sorted, Ranked,
};
use crate::ranked_set::text_rank;
use crate::text::same_text;
use vstd::prelude::*;

verus! {

/// How often a name came up.
#[derive(Clone, Debug)]
pub struct Count {
    pub name: String,
    pub count: u64,
}

/// Counts as plain values, ascending by name.
pub open spec fn count_views(counts: Seq<Count>) -> Seq<(Seq<char>, u64)> {
    counts.map_values(|c: Count| (c.name@, c.count))
}

/// Counts with a name that came up `n` times more.
pub open spec fn counted(counts: Seq<(Seq<char>, u64)>, name: Seq<char>, n: u64) -> Seq<
    (Seq<char>, u64),
>
    decreases counts.len(),
{
    if counts.len() == 0 {
        seq![(name, n)]
    } else if counts[0].0 == name {
        seq![(name, (counts[0].1 + n) as u64)] + counts.skip(1)
    } else if lex_less(text_rank(name), text_rank(counts[0].0)) {
        seq![(name, n)] + counts
    } else {
        seq![counts[0]] + counted(counts.skip(1), name, n)
    }
}

/// Counts with those of another list.
pub open spec fn merged_counts(a: Seq<(Seq<char>, u64)>, b: Seq<(Seq<char>, u64)>) -> Seq<
    (Seq<char>, u64),
>
    decreases b.len(),
{
    if b.len() == 0 {
        a
    } else {
        let before = merged_counts(a, b.drop_last());
        counted(before, b.last().0, b.last().1)
    }
}

/// The sum of counts.
pub open spec fn count_sum(counts: Seq<(Seq<char>, u64)>) -> nat
    decreases counts.len(),
{
    if counts.len() == 0 {
        0
    } else {
        counts[0].1 as nat + count_sum(counts.skip(1))
    }
}

proof fn lemma_sum_front(c: (Seq<char>, u64), rest: Seq<(Seq<char>, u64)>)
    ensures
        count_sum(seq![c] + rest) == c.1 + count_sum(rest),
{
    assert((seq![c] + rest).skip(1) =~= rest);
}

proof fn lemma_sum_push(counts: Seq<(Seq<char>, u64)>)
    requires
        counts.len() > 0,
    ensures
        count_sum(counts) == count_sum(counts.drop_last()) + counts.last().1,
    decreases counts.len(),
{
    if counts.len() > 1 {
        let rest = counts.skip(1);
        lemma_sum_push(rest);
        assert(rest.drop_last() =~= counts.drop_last().skip(1));
    } else {
        assert(counts.skip(1) =~= Seq::<(Seq<char>, u64)>::empty());
        assert(counts.drop_last() =~= Seq::<(Seq<char>, u64)>::empty());
    }
}

proof fn lemma_counted_sum(counts: Seq<(Seq<char>, u64)>, name: Seq<char>, n: u64)
    requires
        count_sum(counts) + n <= u64::MAX,
    ensures
        count_sum(counted(counts, name, n)) == count_sum(counts) + n,
    decreases counts.len(),
{
    if counts.len() == 0 {
        assert(seq![(name, n)] =~= seq![(name, n)] + Seq::<(Seq<char>, u64)>::empty());
        lemma_sum_front((name, n), Seq::empty());
    } else if counts[0].0 == name {
        lemma_sum_front((name, (counts[0].1 + n) as u64), counts.skip(1));
    } else if lex_less(text_rank(name), text_rank(counts[0].0)) {
        lemma_sum_front((name, n), counts);
    } else {
        lemma_counted_sum(counts.skip(1), name, n);
        lemma_sum_front(counts[0], counted(counts.skip(1), name, n));
    }
}

proof fn lemma_merged_sum(a: Seq<(Seq<char>, u64)>, b: Seq<(Seq<char>, u64)>)
    requires
        count_sum(a) + count_sum(b) <= u64::MAX,
    ensures
        count_sum(merged_counts(a, b)) == count_sum(a) + count_sum(b),
    decreases b.len(),
{
    if b.len() > 0 {
        lemma_sum_push(b);
        lemma_merged_sum(a, b.drop_last());
        lemma_counted_sum(merged_counts(a, b.drop_last()), b.last().0, b.last().1);
    }
}

proof fn lemma_sum_bounds(counts: Seq<(Seq<char>, u64)>, i: int)
    requires
        0 <= i < counts.len(),
    ensures
        counts[i].1 <= count_sum(counts),
    decreases counts.len(),
{
    if i > 0 {
        lemma_sum_bounds(counts.skip(1), i - 1);
    }
}

/// Counts a name `n` times more.
pub fn count_name(counts: &mut Vec<Count>, name: String, n: u64)
    requires
        count_sum(count_views(old(counts)@)) + n <= u64::MAX,
    ensures
        count_views(final(counts)@) == counted(count_views(old(counts)@), name@, n),
        count_sum(count_views(final(counts)@)) == count_sum(count_views(old(counts)@)) + n,
{
    let ghost before = counts@;
    let ghost views = count_views(before);
    proof {
        lemma_counted_sum(views, name@, n);
    }
    let mut i: usize = 0;
    assert(views.skip(0) =~= views);
    assert(views.take(0) + counted(views.skip(0), name@, n) =~= counted(views, name@, n));
    while i < counts.len()
        invariant
            i <= counts.len(),
            counts@ == before,
            before == old(counts)@,
            views == count_views(before),
            count_sum(views) + n <= u64::MAX,
            count_sum(counted(views, name@, n)) == count_sum(views) + n,
            counted(views, name@, n) == views.take(i as int) + counted(
                views.skip(i as int),
                name@,
                n,
            ),
        ensures
            i <= counts.len(),
            counts@ == before,
            views == count_views(before),
            counted(views, name@, n) == views.take(i as int) + (seq![(name@, n)] + views.skip(
                i as int,
            )),
        decreases counts.len() - i,
    {
        let ghost rest = views.skip(i as int);
        assert(rest[0] == (before[i as int].name@, before[i as int].count));
        if same_text(counts[i].name.as_str(), name.as_str()) {
            proof {
                lemma_sum_bounds(views, i as int);
            }
            let count = counts[i].count;
            counts[i].count = count + n;
            assert(count_views(counts@) =~= views.take(i as int) + counted(rest, name@, n));
            return ;
        }
        if name.comes_before(&counts[i].name) {
            break ;
        }
        assert(rest.skip(1) =~= views.skip(i + 1));
        assert(views.take(i as int) + (seq![rest[0]] + counted(rest.skip(1), name@, n))
            =~= views.take(i + 1) + counted(views.skip(i + 1), name@, n));
        i += 1;
        assert(i == counts.len() ==> counted(views.skip(i as int), name@, n) =~= seq![(name@, n)]
            + views.skip(i as int));
    }
    let ghost text = name@;
    counts.insert(i, Count { name, count: n });
    assert(count_views(counts@) =~= views.take(i as int) + (seq![(text, n)] + views.skip(
        i as int,
    )));
}

impl Ranked for u128 {
    open spec fn rank(&self) -> Seq<int> {
        seq![*self as int]
    }

    fn comes_before(&self, other: &Self) -> (b: bool) {
        proof {
            reveal_with_fuel(lex_less, 2);
        }
        *self < *other
    }
}

/// The figures of one protocol.
#[derive(Clone, Debug)]
pub struct Stats {
    pub total: u64,
    pub ok: u64,
    pub fail: u64,
    pub latencies_us: Vec<u128>,
    pub source_ports: Vec<u32>,
    pub backends: Vec<Count>,
    pub errors: Vec<Count>,
}

/// The figures of one protocol, as plain values.
pub struct StatsView {
    pub total: u64,
    pub ok: u64,
    pub fail: u64,
    pub latencies_us: Seq<u128>,
    pub source_ports: Seq<u32>,
    pub backends: Seq<(Seq<char>, u64)>,
    pub errors: Seq<(Seq<char>, u64)>,
}

impl View for Stats {
    type V = StatsView;

    open spec fn view(&self) -> StatsView {
        StatsView {
            total: self.total,
            ok: self.ok,
            fail: self.fail,
            latencies_us: self.latencies_us@,
            source_ports: self.source_ports@,
            backends: count_views(self.backends@),
            errors: count_views(self.errors@),
        }
    }
}

impl StatsView {
    /// Whether the figures add up: every request passed or failed, has a latency, and
    /// is counted under one backend or one error.
    pub open spec fn adds_up(self) -> bool {
        &&& self.total == self.ok + self.fail
        &&& self.latencies_us.len() == self.total
        &&& count_sum(self.backends) == self.ok
        &&& count_sum(self.errors) == self.fail
        &&& ascending(self.source_ports)
    }
}

/// No figures yet.
pub open spec fn no_stats() -> StatsView {
    StatsView {
        total: 0,
        ok: 0,
        fail: 0,
        latencies_us: Seq::empty(),
        source_ports: Seq::empty(),
        backends: Seq::empty(),
        errors: Seq::empty(),
    }
}

impl Default for Stats {
    fn default() -> (stats: Self)
        ensures
            stats@ == no_stats(),
            stats@.adds_up(),
    {
        let stats = Stats {
            total: 0,
            ok: 0,
            fail: 0,
            latencies_us: Vec::new(),
            source_ports: Vec::new(),
            backends: Vec::new(),
            errors: Vec::new(),
        };
        assert(stats@.backends =~= no_stats().backends);
        assert(stats@.errors =~= no_stats().errors);
        stats
    }
}

/// The figures with one request more.
pub open spec fn recorded(stats: StatsView, sample: SampleView) -> StatsView {
    StatsView {
        total: (stats.total + 1) as u64,
        ok: if sample.ok {
            (stats.ok + 1) as u64
        } else {
            stats.ok
        },
        fail: if sample.ok {
            stats.fail
        } else {
            (stats.fail + 1) as u64
        },
        latencies_us: stats.latencies_us.push(sample.latency_us),
        source_ports: match sample.source_port {
            Some(port) => set_seq(stats.source_ports.push(port as u32)),
            None => stats.source_ports,
        },
        backends: if sample.ok {
            counted(stats.backends, sample.backend, 1)
        } else {
            stats.backends
        },
        errors: if sample.ok {
            stats.errors
        } else {
            counted(stats.errors, sample.error, 1)
        },
    }
}

/// The figures of two workers.
pub open spec fn merged(a: StatsView, b: StatsView) -> StatsView {
    StatsView {
        total: (a.total + b.total) as u64,
        ok: (a.ok + b.ok) as u64,
        fail: (a.fail + b.fail) as u64,
        latencies_us: a.latencies_us + b.latencies_us,
        source_ports: set_seq(a.source_ports + b.source_ports),
        backends: merged_counts(a.backends, b.backends),
        errors: merged_counts(a.errors, b.errors),
    }
}

proof fn lemma_push_set(set: Seq<u32>, x: u32, grown: Seq<u32>)
    requires
        ascending(grown),
        forall|y: u32| #[trigger] grown.contains(y) <==> (set.contains(y) || y == x),
    ensures
        grown == set_seq(set.push(x)),
{
    assert forall|y: u32| #[trigger] grown.contains(y) <==> set.push(x).contains(y) by {
        let pushed = set.push(x);
        if set.contains(y) {
            let k = choose|k: int| 0 <= k < set.len() && set[k] == y;
            assert(pushed[k] == y);
        }
        if y == x {
            assert(pushed[set.len() as int] == y);
        }
        if pushed.contains(y) && y != x {
            let k = choose|k: int| 0 <= k < pushed.len() && pushed[k] == y;
            assert(set[k] == y);
        }
    }
    law_set_is_unique(grown, set.push(x));
}

fn append_latencies(target: &mut Vec<u128>, more: &[u128])
    ensures
        final(target)@ == old(target)@ + more@,
{
    let ghost before = target@;
    let mut i: usize = 0;
    assert(target@ =~= before + more@.take(0));
    while i < more.len()
        invariant
            i <= more.len(),
            target@ == before + more@.take(i as int),
        decreases more.len() - i,
    {
        target.push(more[i]);
        assert(target@ =~= before + more@.take(i + 1));
        i += 1;
    }
    assert(more@.take(more@.len() as int) =~= more@);
}

fn join_ports(a: &[u32], b: &[u32]) -> (ports: Vec<u32>)
    ensures
        ports@ == set_seq(a@ + b@),
        ascending(ports@),
{
    let mut all: Vec<u32> = Vec::new();
    let mut i: usize = 0;
    while i < a.len()
        invariant
            i <= a.len(),
            all@ == a@.take(i as int),
        decreases a.len() - i,
    {
        all.push(a[i]);
        assert(all@ =~= a@.take(i + 1));
        i += 1;
    }
    assert(a@.take(a@.len() as int) =~= a@);
    i = 0;
    assert(all@ =~= a@ + b@.take(0));
    while i < b.len()
        invariant
            i <= b.len(),
            all@ == a@ + b@.take(i as int),
        decreases b.len() - i,
    {
        all.push(b[i]);
        assert(all@ =~= a@ + b@.take(i + 1));
        i += 1;
    }
    assert(b@.take(b@.len() as int) =~= b@);
    set_of(all.as_slice())
}

fn merge_names(target: &mut Vec<Count>, more: &[Count])
    requires
        count_sum(count_views(old(target)@)) + count_sum(count_views(more@)) <= u64::MAX,
    ensures
        count_views(final(target)@) == merged_counts(count_views(old(target)@), count_views(more@)),
        count_sum(count_views(final(target)@)) == count_sum(count_views(old(target)@)) + count_sum(
            count_views(more@),
        ),
{
    let ghost before = count_views(target@);
    let ghost views = count_views(more@);
    let mut i: usize = 0;
    assert(merged_counts(before, views.take(0)) =~= before);
    while i < more.len()
        invariant
            i <= more.len(),
            views == count_views(more@),
            count_sum(before) + count_sum(views) <= u64::MAX,
            count_views(target@) == merged_counts(before, views.take(i as int)),
            count_sum(count_views(target@)) == count_sum(before) + count_sum(
                views.take(i as int),
            ),
        decreases more.len() - i,
    {
        assert(views.take(i + 1).drop_last() =~= views.take(i as int));
        assert(views.take(i + 1).last() == (more@[i as int].name@, more@[i as int].count));
        proof {
            lemma_sum_push(views.take(i + 1));
            lemma_take_sum(views, i + 1);
        }
        count_name(target, more[i].name.clone(), more[i].count);
        i += 1;
    }
    assert(views.take(views.len() as int) =~= views);
}

proof fn lemma_take_sum(counts: Seq<(Seq<char>, u64)>, n: int)
    requires
        0 <= n <= counts.len(),
    ensures
        count_sum(counts.take(n)) <= count_sum(counts),
    decreases counts.len() - n,
{
    if n < counts.len() {
        lemma_take_sum(counts, n + 1);
        lemma_sum_push(counts.take(n + 1));
        assert(counts.take(n + 1).drop_last() =~= counts.take(n));
    } else {
        assert(counts.take(n) =~= counts);
    }
}

impl Stats {
    /// Adds a request.
    pub fn record(&mut self, sample: &Sample)
        requires
            old(self)@.adds_up(),
            old(self).total < u64::MAX,
        ensures
            final(self)@ == recorded(old(self)@, sample@),
            final(self)@.adds_up(),
    {
        self.total = self.total + 1;
        self.latencies_us.push(sample.latency_us);
        if let Some(port) = sample.source_port {
            let ghost before = self.source_ports@;
            set_insert(&mut self.source_ports, port as u32);
            proof {
                lemma_push_set(before, port as u32, self.source_ports@);
            }
        }
        if sample.ok {
            self.ok = self.ok + 1;
            count_name(&mut self.backends, sample.backend.clone(), 1);
        } else {
            self.fail = self.fail + 1;
            count_name(&mut self.errors, sample.error.clone(), 1);
        }
    }

    /// Adds the figures of another worker.
    pub fn merge(&mut self, other: &Stats)
        requires
            old(self)@.adds_up(),
            other@.adds_up(),
            old(self).total + other.total <= u64::MAX,
        ensures
            final(self)@ == merged(old(self)@, other@),
            final(self)@.adds_up(),
    {
        self.total = self.total + other.total;
        self.ok = self.ok + other.ok;
        self.fail = self.fail + other.fail;
        append_latencies(&mut self.latencies_us, other.latencies_us.as_slice());
        self.source_ports = join_ports(self.source_ports.as_slice(), other.source_ports.as_slice());
        merge_names(&mut self.backends, other.backends.as_slice());
        merge_names(&mut self.errors, other.errors.as_slice());
    }

    /// The latencies in ascending order.
    pub fn sorted_latencies(&self) -> (values: Vec<u128>)
        ensures
            values@ == sorted(self@.latencies_us),
    {
        let mut values: Vec<u128> = Vec::new();
        append_latencies(&mut values, self.latencies_us.as_slice());
        assert(values@ =~= self.latencies_us@);
        sort(&mut values);
        values
    }
}

/// The figures of both protocols; those of one that was not used are missing.
#[derive(Clone, Debug)]
pub struct BenchStats {
    pub tcp: Option<Stats>,
    pub udp: Option<Stats>,
}

/// Figures that may be missing.
pub open spec fn opt_view(stats: Option<Stats>) -> Option<StatsView> {
    match stats {
        Some(stats) => Some(stats@),
        None => None,
    }
}

/// Figures that may be missing, none standing for no requests.
pub open spec fn or_none(stats: Option<StatsView>) -> StatsView {
    match stats {
        Some(stats) => stats,
        None => no_stats(),
    }
}

/// Whether figures that may be missing add up.
pub open spec fn opt_adds_up(stats: Option<Stats>) -> bool {
    stats matches Some(stats) ==> stats@.adds_up()
}

impl BenchStats {
    /// The figures of a protocol.
    pub open spec fn of(self, protocol: Protocol) -> Option<StatsView> {
        match protocol {
            Protocol::Tcp => opt_view(self.tcp),
            Protocol::Udp => opt_view(self.udp),
        }
    }

    /// Whether all figures add up.
    pub open spec fn adds_up(self) -> bool {
        opt_adds_up(self.tcp) && opt_adds_up(self.udp)
    }

    /// No figures yet.
    pub fn new() -> (stats: BenchStats)
        ensures
            stats.of(Protocol::Tcp) is None,
            stats.of(Protocol::Udp) is None,
            stats.adds_up(),
    {
        BenchStats { tcp: None, udp: None }
    }

    /// The figures of a protocol.
    pub fn get(&self, protocol: Protocol) -> (stats: Option<&Stats>)
        ensures
            match (stats, self.of(protocol)) {
                (Some(stats), Some(view)) => stats@ == view,
                (None, None) => true,
                _ => false,
            },
    {
        match protocol {
            Protocol::Tcp => self.tcp.as_ref(),
            Protocol::Udp => self.udp.as_ref(),
        }
    }

    fn take(&mut self, protocol: Protocol) -> (stats: Stats)
        requires
            old(self).adds_up(),
        ensures
            stats@ == or_none(old(self).of(protocol)),
            stats@.adds_up(),
            final(self).adds_up(),
            protocol is Tcp ==> final(self).of(Protocol::Udp) == old(self).of(Protocol::Udp),
            protocol is Udp ==> final(self).of(Protocol::Tcp) == old(self).of(Protocol::Tcp),
    {
        let found = match protocol {
            Protocol::Tcp => self.tcp.take(),
            Protocol::Udp => self.udp.take(),
        };
        match found {
            Some(stats) => stats,
            None => Stats::default(),
        }
    }

    fn put(&mut self, protocol: Protocol, stats: Stats)
        requires
            old(self).adds_up(),
            stats@.adds_up(),
        ensures
            final(self).adds_up(),
            final(self).of(protocol) == Some(stats@),
            protocol is Tcp ==> final(self).of(Protocol::Udp) == old(self).of(Protocol::Udp),
            protocol is Udp ==> final(self).of(Protocol::Tcp) == old(self).of(Protocol::Tcp),
    {
        match protocol {
            Protocol::Tcp => {
                self.tcp = Some(stats);
            },
            Protocol::Udp => {
                self.udp = Some(stats);
            },
        }
    }

    /// Adds a request to the figures of its protocol.
    pub fn record_sample(&mut self, sample: &Sample)
        requires
            old(self).adds_up(),
            or_none(old(self).of(sample.protocol)).total < u64::MAX,
        ensures
            final(self).adds_up(),
            forall|p: Protocol| #[trigger]
                final(self).of(p) == if p == sample.protocol {
                    Some(recorded(or_none(old(self).of(p)), sample@))
                } else {
                    old(self).of(p)
                },
    {
        let mut stats = self.take(sample.protocol);
        stats.record(sample);
        self.put(sample.protocol, stats);
    }

    fn merge_one(&mut self, protocol: Protocol, other: &Stats)
        requires
            old(self).adds_up(),
            other@.adds_up(),
            or_none(old(self).of(protocol)).total + other.total <= u64::MAX,
        ensures
            final(self).adds_up(),
            final(self).of(protocol) == Some(merged(or_none(old(self).of(protocol)), other@)),
            protocol is Tcp ==> final(self).of(Protocol::Udp) == old(self).of(Protocol::Udp),
            protocol is Udp ==> final(self).of(Protocol::Tcp) == old(self).of(Protocol::Tcp),
    {
        let mut stats = self.take(protocol);
        stats.merge(other);
        self.put(protocol, stats);
    }

    /// Adds the figures of a worker.
    pub fn merge_stats(&mut self, source: &BenchStats)
        requires
            old(self).adds_up(),
            source.adds_up(),
            forall|p: Protocol|
                or_none(#[trigger] old(self).of(p)).total + or_none(source.of(p)).total
                    <= u64::MAX,
        ensures
            final(self).adds_up(),
            forall|p: Protocol| #[trigger]
                final(self).of(p) == match source.of(p) {
                    Some(more) => Some(merged(or_none(old(self).of(p)), more)),
                    None => old(self).of(p),
                },
    {
        assert(or_none(old(self).of(Protocol::Tcp)).total + or_none(
            source.of(Protocol::Tcp),
        ).total <= u64::MAX);
        assert(or_none(old(self).of(Protocol::Udp)).total + or_none(
            source.of(Protocol::Udp),
        ).total <= u64::MAX);
        if let Some(more) = &source.tcp {
            self.merge_one(Protocol::Tcp, more);
        }
        if let Some(more) = &source.udp {
            self.merge_one(Protocol::Udp, more);
        }
    }
}

/// The place of a percentile among values in ascending order, rounded half up.
pub fn percentile_index(len: usize, percent: u8) -> (at: usize)
    requires
        len > 0,
        percent <= 100,
    ensures
        at == ((len - 1) * percent + 50) / 100,
        at < len,
{
    assert((len - 1) as u128 * percent as u128 <= 0xffff_ffff_ffff_ffff * 100) by (nonlinear_arith)
        requires
            percent <= 100,
            len > 0,
            len <= 0xffff_ffff_ffff_ffff,
    ;
    let scaled: u128 = (len - 1) as u128 * percent as u128;
    assert(scaled == (len - 1) * percent && scaled <= (len - 1) * 100) by (nonlinear_arith)
        requires
            scaled == (len - 1) as u128 * percent as u128,
            percent <= 100,
            len > 0,
    ;
    let at: u128 = (scaled + 50) / 100;
    at as usize
}

// ---------------------------------------------------------------------------
// Laws
// ---------------------------------------------------------------------------

/// Figures that add up still do with one request more, and with those of another
/// worker.
pub proof fn law_figures_add_up(a: StatsView, b: StatsView, sample: SampleView)
    requires
        a.adds_up(),
        b.adds_up(),
        a.total + b.total <= u64::MAX,
        a.total < u64::MAX,
    ensures
        recorded(a, sample).total == recorded(a, sample).ok + recorded(a, sample).fail,
        count_sum(recorded(a, sample).backends) == recorded(a, sample).ok,
        count_sum(recorded(a, sample).errors) == recorded(a, sample).fail,
        merged(a, b).total == merged(a, b).ok + merged(a, b).fail,
        count_sum(merged(a, b).backends) == merged(a, b).ok,
        count_sum(merged(a, b).errors) == merged(a, b).fail,
{
    if sample.ok {
        lemma_counted_sum(a.backends, sample.backend, 1);
    } else {
        lemma_counted_sum(a.errors, sample.error, 1);
    }
    lemma_merged_sum(a.backends, b.backends);
    lemma_merged_sum(a.errors, b.errors);
}

/// A request that passed counts as passed under its backend, one that failed as failed under
/// its error; each has its latency, and its port is kept where it had one.
pub proof fn law_requests_are_counted(stats: StatsView, sample: SampleView)
    requires
        stats.adds_up(),
        stats.total < u64::MAX,
    ensures
        ({
            let next = recorded(stats, sample);
            &&& next.total == stats.total + 1
            &&& sample.ok ==> next.ok == stats.ok + 1 && next.fail == stats.fail
            &&& !sample.ok ==> next.fail == stats.fail + 1 && next.ok == stats.ok
            &&& next.latencies_us.len() == stats.latencies_us.len() + 1
            &&& next.latencies_us.last() == sample.latency_us
            &&& sample.ok ==> next.backends == counted(stats.backends, sample.backend, 1)
                && next.errors == stats.errors
            &&& !sample.ok ==> next.errors == counted(stats.errors, sample.error, 1)
                && next.backends == stats.backends
            &&& sample.source_port is None ==> next.source_ports == stats.source_ports
        }),
{
}

/// The figures of two workers add up, number by number, and all their latencies are kept.
pub proof fn law_workers_add_up(a: StatsView, b: StatsView, i: int)
    requires
        a.total + b.total <= u64::MAX,
        a.adds_up(),
        b.adds_up(),
    ensures
        ({
            let both = merged(a, b);
            &&& both.total == a.total + b.total
            &&& both.ok == a.ok + b.ok
            &&& both.fail == a.fail + b.fail
            &&& both.latencies_us.len() == a.latencies_us.len() + b.latencies_us.len()
            &&& 0 <= i < a.latencies_us.len() ==> both.latencies_us[i] == a.latencies_us[i]
            &&& 0 <= i < b.latencies_us.len() ==> both.latencies_us[a.latencies_us.len() + i]
                == b.latencies_us[i]
        }),
{
}

/// How often a name came up.
pub open spec fn count_of(counts: Seq<(Seq<char>, u64)>, name: Seq<char>) -> nat
    decreases counts.len(),
{
    if counts.len() == 0 {
        0
    } else {
        (if counts[0].0 == name {
            counts[0].1 as nat
        } else {
            0
        }) + count_of(counts.skip(1), name)
    }
}

/// A name that comes up more often counts so many times more, and no other name does.
pub proof fn law_names_are_counted(
    counts: Seq<(Seq<char>, u64)>,
    name: Seq<char>,
    n: u64,
    other: Seq<char>,
)
    requires
        count_sum(counts) + n <= u64::MAX,
    ensures
        count_of(counted(counts, name, n), name) == count_of(counts, name) + n,
        other != name ==> count_of(counted(counts, name, n), other) == count_of(counts, other),
    decreases counts.len(),
{
    if counts.len() == 0 {
        let one = seq![(name, n)];
        assert(one.skip(1) =~= Seq::<(Seq<char>, u64)>::empty());
        reveal_with_fuel(count_of, 2);
    } else {
        let rest = counts.skip(1);
        let next = counted(counts, name, n);
        if counts[0].0 == name {
            assert(next.skip(1) =~= rest);
        } else if lex_less(text_rank(name), text_rank(counts[0].0)) {
            assert(next.skip(1) =~= counts);
        } else {
            law_names_are_counted(rest, name, n, other);
            assert(next.skip(1) =~= counted(rest, name, n));
        }
    }
}

/// The names of two workers are counted together.
pub proof fn law_names_are_merged(
    a: Seq<(Seq<char>, u64)>,
    b: Seq<(Seq<char>, u64)>,
    name: Seq<char>,
)
    requires
        count_sum(a) + count_sum(b) <= u64::MAX,
    ensures
        count_of(merged_counts(a, b), name) == count_of(a, name) + count_of(b, name),
        count_sum(merged_counts(a, b)) == count_sum(a) + count_sum(b),
    decreases b.len(),
{
    if b.len() > 0 {
        let front = b.drop_last();
        let last = b.last();
        lemma_sum_push(b);
        lemma_count_last(b, name);
        law_names_are_merged(a, front, name);
        let before = merged_counts(a, front);
        law_names_are_counted(before, last.0, last.1, name);
        lemma_counted_sum(before, last.0, last.1);
    }
}

proof fn lemma_count_last(counts: Seq<(Seq<char>, u64)>, name: Seq<char>)
    requires
        counts.len() > 0,
    ensures
        count_of(counts, name) == count_of(counts.drop_last(), name) + (if counts.last().0 == name {
            counts.last().1 as nat
        } else {
            0
        }),
    decreases counts.len(),
{
    if counts.len() > 1 {
        lemma_count_last(counts.skip(1), name);
        assert(counts.skip(1).drop_last() =~= counts.drop_last().skip(1));
    } else {
        assert(counts.skip(1).len() == 0);
        reveal_with_fuel(count_of, 2);
    }
}

} // verus!

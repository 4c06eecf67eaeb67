//! Reservoir sampling of observed values, and the histogram built on it.
use rand::Rng;
use vstd::prelude::*;
use vstd::wrapping::i64_specs;

verus! {

broadcast use vstd::seq_lib::group_to_multiset_ensures;

/// A position drawn uniformly from `0 .. bound`.
///
/// Calls `rand::thread_rng().gen_range(0, bound)`. Trusted: the result lies in
/// `[0, bound)`, as rand documents; which position comes out is left open (it is random).
/// `gen_range` panics only when the range is empty, which `requires` rules out.
#[verifier::external_body]
fn random_index(bound: usize) -> (j: usize)
    requires
        bound > 0,
    ensures
        j < bound,
{
    rand::thread_rng().gen_range(0, bound)
}

/// Sorts `v` in ascending order.
///
/// Calls `sort` on the vector's slice. Trusted: std documents that it sorts the slice in
/// ascending order, keeping every element (a permutation).
#[verifier::external_body]
fn sort_values(v: &mut Vec<i64>)
    ensures
        ascending(final(v)@),
        final(v)@.to_multiset() == old(v)@.to_multiset(),
{
    v.sort();
}

/// The values of `s` never decrease from front to back.
pub open spec fn ascending(s: Seq<i64>) -> bool {
    forall|i: int, j: int| 0 <= i <= j < s.len() ==> s[i] <= s[j]
}

/// The sum of the values of `s`.
pub open spec fn sum_of(s: Seq<i64>) -> int
    decreases s.len(),
{
    if s.len() == 0 {
        0
    } else {
        sum_of(s.drop_last()) + s.last()
    }
}

/// The kept values after drawing position `j` for `value` in a full reservoir: the value at
/// `j` is replaced when `j` is below the size limit, and nothing changes otherwise.
pub open spec fn after_draw(values: Seq<i64>, limit: nat, j: int, value: i64) -> Seq<i64> {
    if j < limit {
        values.update(j, value)
    } else {
        values
    }
}

/// `v` wrapped into an `i64` the way two's-complement addition wraps: the `i64` that equals
/// `v` modulo `2^64`.
pub open spec fn wrap_i64(v: int) -> i64 {
    let r = v % 0x1_0000_0000_0000_0000int;
    if r > i64::MAX {
        (r - 0x1_0000_0000_0000_0000int) as i64
    } else {
        r as i64
    }
}

/// Adding to a wrapped sum with wrapping addition gives the wrapped sum of the total.
pub proof fn lemma_wrapping_add_wraps(a: int, x: i64)
    ensures
        i64_specs::wrapping_add(wrap_i64(a), x) == wrap_i64(a + x),
{
}

/// `sample` is made of distinct observations: its entry `k` is observation `slots[k]`, and no
/// observation is used twice.
pub open spec fn picks(sample: Seq<i64>, observed: Seq<i64>, slots: Seq<int>) -> bool {
    &&& slots.len() == sample.len()
    &&& forall|k: int|
        0 <= k < sample.len() ==> 0 <= #[trigger] slots[k] < observed.len() && sample[k]
            == observed[slots[k]]
    &&& forall|k1: int, k2: int|
        0 <= k1 < sample.len() && 0 <= k2 < sample.len() && k1 != k2 ==> #[trigger] slots[k1]
            != #[trigger] slots[k2]
}

/// Keeps a uniform random sample of at most `sample_size` of the values it has seen.
pub struct ReservoirSampler {
    reservoir: Vec<i64>,
    sample_size: usize,
    n: usize,
    seen: Ghost<Seq<i64>>,
    slots: Ghost<Seq<int>>,
}

impl ReservoirSampler {
    /// The values currently kept.
    pub closed spec fn values(&self) -> Seq<i64> {
        self.reservoir@
    }

    /// Every value sampled since creation or the last `clear`, in order.
    pub closed spec fn observed(&self) -> Seq<i64> {
        self.seen@
    }

    /// How many values are sampled since creation or the last `clear`.
    pub closed spec fn count(&self) -> nat {
        self.n as nat
    }

    /// The most values kept at once.
    pub closed spec fn size_limit(&self) -> nat {
        self.sample_size as nat
    }

    /// The sampler's invariant: it has counted every observation; it keeps
    /// `min(count, size_limit)` of them, distinct observations each; and until it is full it
    /// keeps every observation in order.
    pub closed spec fn wf(&self) -> bool {
        &&& self.n == self.seen@.len()
        &&& self.reservoir@.len() == if self.n < self.sample_size {
            self.n as int
        } else {
            self.sample_size as int
        }
        &&& picks(self.reservoir@, self.seen@, self.slots@)
        &&& self.n <= self.sample_size ==> self.reservoir@ == self.seen@
    }

    /// An empty sampler that keeps at most `sample_size` values.
    pub fn new(sample_size: usize) -> (sampler: ReservoirSampler)
        ensures
            sampler.wf(),
            sampler.size_limit() == sample_size,
            sampler.count() == 0,
            sampler.observed() == Seq::<i64>::empty(),
            sampler.values() == Seq::<i64>::empty(),
    {
        ReservoirSampler {
            reservoir: Vec::with_capacity(sample_size),
            sample_size: sample_size,
            n: 0,
            seen: Ghost(Seq::empty()),
            slots: Ghost(Seq::empty()),
        }
    }

    /// Observes `value`, with `j` the position drawn for it: kept while the reservoir is not
    /// full (and `j` unused); afterwards it replaces the kept value at `j` when `j` is below the
    /// size limit, and is dropped otherwise.
    pub fn sample_at(&mut self, value: i64, j: usize)
        requires
            old(self).wf(),
            old(self).count() < usize::MAX,
            j <= old(self).count(),
        ensures
            final(self).wf(),
            final(self).size_limit() == old(self).size_limit(),
            final(self).count() == old(self).count() + 1,
            final(self).observed() == old(self).observed().push(value),
            old(self).count() < old(self).size_limit() ==> final(self).values() == old(
                self,
            ).values().push(value),
            old(self).count() >= old(self).size_limit() ==> final(self).values() == after_draw(
                old(self).values(),
                old(self).size_limit(),
                j as int,
                value,
            ),
    {
        let ghost old_values = self.reservoir@;
        let ghost old_seen = self.seen@;
        let ghost old_slots = self.slots@;
        let ghost n = self.n as int;
        if self.n < self.sample_size {
            self.reservoir.push(value);
            self.slots = Ghost(old_slots.push(n));
        } else {
            if j < self.sample_size {
                self.reservoir[j] = value;
                self.slots = Ghost(old_slots.update(j as int, n));
                assert(self.reservoir@ == old_values.update(j as int, value));
            }
        }
        self.seen = Ghost(old_seen.push(value));
        self.n = self.n + 1;
        proof {
            let s = self.seen@;
            let v = self.reservoir@;
            let sl = self.slots@;
            assert forall|k: int| 0 <= k < v.len() implies 0 <= #[trigger] sl[k] < s.len() && v[k]
                == s[sl[k]] by {
                if sl[k] < n {
                    assert(s[sl[k]] == old_seen[sl[k]]);
                }
            }
            if self.n <= self.sample_size {
                assert(v =~= s);
            }
        }
    }

    /// Observes `value`: kept while the reservoir is not full; afterwards a position is drawn
    /// uniformly from `0 ..= count` and the value replaces the kept one there if the position
    /// is below the size limit (so with probability `size_limit / (count + 1)`).
    pub fn sample(&mut self, value: i64)
        requires
            old(self).wf(),
            old(self).count() < usize::MAX,
        ensures
            final(self).wf(),
            final(self).size_limit() == old(self).size_limit(),
            final(self).count() == old(self).count() + 1,
            final(self).observed() == old(self).observed().push(value),
            old(self).count() < old(self).size_limit() ==> final(self).values() == old(
                self,
            ).values().push(value),
            old(self).count() >= old(self).size_limit() ==> exists|j: int|
                0 <= j <= old(self).count() && final(self).values() == after_draw(
                    old(self).values(),
                    old(self).size_limit(),
                    j,
                    value,
                ),
    {
        if self.n < self.sample_size {
            self.sample_at(value, 0);
        } else {
            let j = random_index(self.n + 1);
            self.sample_at(value, j);
        }
    }

    /// Forgets every observation.
    pub fn clear(&mut self)
        ensures
            final(self).wf(),
            final(self).size_limit() == old(self).size_limit(),
            final(self).count() == 0,
            final(self).observed() == Seq::<i64>::empty(),
            final(self).values() == Seq::<i64>::empty(),
    {
        self.reservoir.clear();
        self.n = 0;
        self.seen = Ghost(Seq::empty());
        self.slots = Ghost(Seq::empty());
        assert(self.reservoir@ =~= self.seen@);
    }

    /// How many values are sampled since creation or the last `clear`.
    pub fn observations(&self) -> (n: usize)
        ensures
            n == self.count(),
    {
        self.n
    }

    /// A copy of the values currently kept.
    pub fn snapshot(&self) -> (values: Vec<i64>)
        ensures
            values@ == self.values(),
    {
        let values = self.reservoir.clone();
        assert(values@ =~= self.reservoir@);
        values
    }
}

/// The sampler's invariant, stated over its public views: it keeps `min(count, size_limit)`
/// values, each a distinct observation, and until it fills up, exactly the observations in
/// the order they came.
pub proof fn lemma_reservoir_keeps_observations(s: ReservoirSampler)
    requires
        s.wf(),
    ensures
        s.count() == s.observed().len(),
        s.values().len() == if s.count() < s.size_limit() {
            s.count()
        } else {
            s.size_limit()
        },
        exists|slots: Seq<int>| picks(s.values(), s.observed(), slots),
        s.count() <= s.size_limit() ==> s.values() == s.observed(),
{
    assert(picks(s.values(), s.observed(), s.slots@));
}

/// The integer part of a histogram's statistics: the sample, sorted, with its size, extremes
/// and sum in `i64` arithmetic, wrapping on overflow (mean, deviation and percentiles are
/// computed from these).
pub struct HistSummary {
    pub size: u64,
    pub min: i64,
    pub max: i64,
    pub sum: i64,
    pub sorted: Vec<i64>,
}

/// A latency distribution kept as a reservoir sample.
pub struct Histogram {
    pub name: String,
    sample: ReservoirSampler,
}

impl Histogram {
    /// The histogram's name.
    pub closed spec fn name_view(&self) -> Seq<char> {
        self.name@
    }

    /// The values the histogram currently keeps.
    pub closed spec fn values(&self) -> Seq<i64> {
        self.sample.values()
    }

    /// Every value inserted since creation or the last `clear`, in order.
    pub closed spec fn observed(&self) -> Seq<i64> {
        self.sample.observed()
    }

    /// How many values are inserted since creation or the last `clear`.
    pub closed spec fn count(&self) -> nat {
        self.sample.count()
    }

    /// The most values kept at once.
    pub closed spec fn size_limit(&self) -> nat {
        self.sample.size_limit()
    }

    /// The invariant of the underlying sampler.
    pub closed spec fn wf(&self) -> bool {
        self.sample.wf()
    }

    /// An empty histogram named `name` that keeps at most `sample_size` values.
    pub fn new(name: String, sample_size: usize) -> (hist: Histogram)
        ensures
            hist.wf(),
            hist.name_view() == name@,
            hist.size_limit() == sample_size,
            hist.count() == 0,
            hist.observed() == Seq::<i64>::empty(),
            hist.values() == Seq::<i64>::empty(),
    {
        Histogram { name: name, sample: ReservoirSampler::new(sample_size) }
    }

    /// How many values are inserted since creation or the last `clear`.
    pub fn observations(&self) -> (n: usize)
        ensures
            n == self.count(),
    {
        self.sample.observations()
    }

    /// Records `item` with `j` the position drawn for it (see `ReservoirSampler::sample_at`).
    pub fn insert_at(&mut self, item: i64, j: usize)
        requires
            old(self).wf(),
            old(self).count() < usize::MAX,
            j <= old(self).count(),
        ensures
            final(self).wf(),
            final(self).name_view() == old(self).name_view(),
            final(self).size_limit() == old(self).size_limit(),
            final(self).count() == old(self).count() + 1,
            final(self).observed() == old(self).observed().push(item),
            old(self).count() < old(self).size_limit() ==> final(self).values() == old(
                self,
            ).values().push(item),
            old(self).count() >= old(self).size_limit() ==> final(self).values() == after_draw(
                old(self).values(),
                old(self).size_limit(),
                j as int,
                item,
            ),
    {
        self.sample.sample_at(item, j);
    }

    /// Records `item` in the sample, drawing its position at random.
    pub fn insert(&mut self, item: i64)
        requires
            old(self).wf(),
            old(self).count() < usize::MAX,
        ensures
            final(self).wf(),
            final(self).name_view() == old(self).name_view(),
            final(self).size_limit() == old(self).size_limit(),
            final(self).count() == old(self).count() + 1,
            final(self).observed() == old(self).observed().push(item),
            old(self).count() < old(self).size_limit() ==> final(self).values() == old(
                self,
            ).values().push(item),
            old(self).count() >= old(self).size_limit() ==> exists|j: int|
                0 <= j <= old(self).count() && final(self).values() == after_draw(
                    old(self).values(),
                    old(self).size_limit(),
                    j,
                    item,
                ),
    {
        let ghost before = self.sample.values();
        self.sample.sample(item);
        proof {
            if old(self).count() >= old(self).size_limit() {
                let j = choose|j: int|
                    0 <= j <= old(self).count() && self.sample.values() == after_draw(
                        before,
                        old(self).size_limit(),
                        j,
                        item,
                    );
                assert(self.values() == after_draw(
                    old(self).values(),
                    old(self).size_limit(),
                    j,
                    item,
                ));
            }
        }
    }

    /// Forgets every recorded value.
    pub fn clear(&mut self)
        ensures
            final(self).wf(),
            final(self).name_view() == old(self).name_view(),
            final(self).size_limit() == old(self).size_limit(),
            final(self).count() == 0,
            final(self).observed() == Seq::<i64>::empty(),
            final(self).values() == Seq::<i64>::empty(),
    {
        self.sample.clear();
    }

    /// The sample sorted, with its size, smallest and largest value (zero when empty), and its
    /// sum added up in `i64`, wrapping around on overflow.
    pub fn summary(&self) -> (stats: HistSummary)
        ensures
            stats.size == self.values().len(),
            ascending(stats.sorted@),
            stats.sorted@.to_multiset() == self.values().to_multiset(),
            stats.sum == wrap_i64(sum_of(self.values())),
            self.values().len() == 0 ==> stats.min == 0 && stats.max == 0,
            self.values().len() > 0 ==> {
                &&& stats.min == stats.sorted@[0]
                &&& stats.max == stats.sorted@.last()
                &&& self.values().contains(stats.min)
                &&& self.values().contains(stats.max)
                &&& forall|k: int|
                    0 <= k < self.values().len() ==> stats.min <= #[trigger] self.values()[k]
                        <= stats.max
            },
    {
        let snapshot = self.sample.snapshot();
        let sample_size = snapshot.len();
        if sample_size == 0 {
            return HistSummary { size: 0, min: 0, max: 0, sum: 0, sorted: snapshot };
        }
        let ghost vals = snapshot@;
        let mut sum: i64 = 0;
        let mut k: usize = 0;
        while k < sample_size
            invariant
                k <= sample_size,
                sample_size == vals.len(),
                snapshot@ == vals,
                sum == wrap_i64(sum_of(vals.take(k as int))),
            decreases sample_size - k,
        {
            proof {
                assert(vals.take(k + 1).drop_last() =~= vals.take(k as int));
                lemma_wrapping_add_wraps(sum_of(vals.take(k as int)), vals[k as int]);
            }
            sum = sum.wrapping_add(snapshot[k]);
            k = k + 1;
        }
        assert(vals.take(k as int) =~= vals);
        let mut sorted = snapshot;
        sort_values(&mut sorted);
        assert(sorted@.to_multiset().len() == vals.to_multiset().len());
        assert(sorted@.len() == vals.len());
        let min = sorted[0];
        let max = sorted[sample_size - 1];
        proof {
            assert(sorted@[0] == min);
            assert(sorted@.contains(min));
            assert(sorted@.to_multiset().count(min) > 0);
            assert(vals.contains(min));
            assert(sorted@[sample_size - 1] == max);
            assert(sorted@.contains(max));
            assert(sorted@.to_multiset().count(max) > 0);
            assert(vals.contains(max));
            assert forall|k: int| 0 <= k < vals.len() implies min <= #[trigger] vals[k] <= max by {
                assert(vals.contains(vals[k]));
                assert(sorted@.to_multiset().count(vals[k]) > 0);
                assert(sorted@.contains(vals[k]));
                let i = choose|i: int| 0 <= i < sorted@.len() && sorted@[i] == vals[k];
                assert(sorted@[0] <= sorted@[i]);
                assert(sorted@[i] <= sorted@[sample_size - 1]);
            }
        }
        HistSummary { size: sample_size as u64, min: min, max: max, sum: sum, sorted: sorted }
    }
}

} // verus!

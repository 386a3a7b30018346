//! Per-metric aggregation: bucketed histograms and quantile summaries.

use vstd::prelude::*;

use crate::decimal::{sat_add_i64, spec_sat_add_i64, Decimal};
use crate::matcher::Matcher;
use crate::numfmt::{spec_fixed_digits, spec_trim_zeros, spec_udec, trimmed_digits, u64_chars};
use crate::text::{chars_to_string, str_eq};

verus! {

/// The label of the quantile `q` ten-thousandths: `min` for zero, `max`
/// for one, and otherwise `p` followed by the digits of the quantile
/// times one hundred, with the decimal point and trailing zeros dropped.
pub open spec fn spec_quantile_label(q: nat) -> Seq<char> {
    if q == 0 {
        seq!['m', 'i', 'n']
    } else if q >= 10000 {
        seq!['m', 'a', 'x']
    } else {
        seq!['p'] + spec_udec(q / 100) + spec_trim_zeros(spec_fixed_digits(q % 100, 2))
    }
}

/// A configured quantile: its value in ten-thousandths and its field
/// label.
#[derive(Debug)]
pub struct Quantile {
    /// Ten-thousandths of the quantile, at most ten thousand.
    pub value: u64,
    /// The label naming this quantile's field.
    pub label: String,
}

/// The mathematical value of a configured quantile.
#[verifier::ext_equal]
pub struct QuantileView {
    /// Ten-thousandths of the quantile.
    pub value: int,
    /// The characters of the label.
    pub label: Seq<char>,
}

impl View for Quantile {
    type V = QuantileView;

    open spec fn view(&self) -> QuantileView {
        QuantileView { value: self.value as int, label: self.label@ }
    }
}

impl DeepView for Quantile {
    type V = QuantileView;

    open spec fn deep_view(&self) -> QuantileView {
        self.view()
    }
}

impl Quantile {
    /// A quantile whose label names it correctly.
    pub open spec fn wf(&self) -> bool {
        self.value <= 10000 && self.label@ == spec_quantile_label(self.value as nat)
    }

    /// Builds the quantile `q` ten-thousandths, clamped to at most one.
    pub fn new(q: u64) -> (r: Quantile)
        ensures
            r.wf(),
            r.value == if q > 10000 {
                10000
            } else {
                q as int
            },
    {
        let v: u64 = if q > 10000 {
            10000
        } else {
            q
        };
        let mut chars: Vec<char> = Vec::new();
        if v == 0 {
            chars.push('m');
            chars.push('i');
            chars.push('n');
            assert(chars@ =~= spec_quantile_label(v as nat));
        } else if v == 10000 {
            chars.push('m');
            chars.push('a');
            chars.push('x');
            assert(chars@ =~= spec_quantile_label(v as nat));
        } else {
            chars.push('p');
            let mut whole = u64_chars(v / 100);
            chars.append(&mut whole);
            let mut frac = trimmed_digits(v % 100, 2);
            chars.append(&mut frac);
            assert(chars@ =~= spec_quantile_label(v as nat));
        }
        Quantile { value: v, label: chars_to_string(&chars) }
    }

    /// Copies this quantile.
    pub fn clone_quantile(&self) -> (r: Quantile)
        ensures
            r@ == self@,
    {
        Quantile { value: self.value, label: self.label.clone() }
    }
}

/// Builds the quantiles for the given values in ten-thousandths.
pub fn parse_quantiles(qs: &Vec<u64>) -> (out: Vec<Quantile>)
    ensures
        out@.len() == qs@.len(),
        forall|i: int|
            0 <= i < out@.len() ==> (#[trigger] out@[i]).wf() && out@[i].value == (if qs@[i] > 10000 {
                10000int
            } else {
                qs@[i] as int
            }),
{
    let mut out: Vec<Quantile> = Vec::new();
    let mut i: usize = 0;
    while i < qs.len()
        invariant
            i <= qs@.len(),
            out@.len() == i,
            forall|j: int|
                0 <= j < i ==> (#[trigger] out@[j]).wf() && out@[j].value == (if qs@[j] > 10000 {
                    10000int
                } else {
                    qs@[j] as int
                }),
        decreases qs@.len() - i,
    {
        out.push(Quantile::new(qs[i]));
        i = i + 1;
    }
    out
}

/// How many samples are at or below `bound`.
pub open spec fn spec_count_le(samples: Seq<(Decimal, i64)>, bound: int) -> nat
    decreases samples.len(),
{
    if samples.len() == 0 {
        0
    } else {
        (if samples[0].0.units <= bound {
            1nat
        } else {
            0nat
        }) + spec_count_le(samples.drop_first(), bound)
    }
}

/// One more sample raises the count by one exactly when it is at or
/// below the bound.
pub proof fn lemma_count_le_push(samples: Seq<(Decimal, i64)>, x: (Decimal, i64), bound: int)
    ensures
        spec_count_le(samples.push(x), bound) == spec_count_le(samples, bound) + (
        if x.0.units <= bound {
            1nat
        } else {
            0nat
        }),
    decreases samples.len(),
{
    if samples.len() == 0 {
        assert(samples.push(x).drop_first() =~= Seq::<(Decimal, i64)>::empty());
        assert(samples.push(x)[0] == x);
        assert(spec_count_le(Seq::<(Decimal, i64)>::empty(), bound) == 0);
        assert(spec_count_le(samples, bound) == 0);
    } else {
        assert(samples.push(x)[0] == samples[0]);
        assert(samples.push(x).drop_first() =~= samples.drop_first().push(x));
        lemma_count_le_push(samples.drop_first(), x, bound);
        assert(spec_count_le(samples.push(x), bound) == (if samples[0].0.units <= bound {
            1nat
        } else {
            0nat
        }) + spec_count_le(samples.drop_first().push(x), bound));
    }
}

/// The saturating sum of the sample values, starting from `init`.
pub open spec fn spec_sum_sat(samples: Seq<(Decimal, i64)>, init: int) -> int
    decreases samples.len(),
{
    if samples.len() == 0 {
        init
    } else {
        spec_sum_sat(samples.drop_first(), spec_sat_add_i64(init, samples[0].0.units as int))
    }
}

/// One more sample folds into the saturating sum at the end.
pub proof fn lemma_sum_sat_push(samples: Seq<(Decimal, i64)>, x: (Decimal, i64), init: int)
    ensures
        spec_sum_sat(samples.push(x), init) == spec_sat_add_i64(
            spec_sum_sat(samples, init),
            x.0.units as int,
        ),
    decreases samples.len(),
{
    if samples.len() == 0 {
        assert(samples.push(x).drop_first() =~= Seq::<(Decimal, i64)>::empty());
        assert(samples.push(x)[0] == x);
        assert(spec_sum_sat(Seq::<(Decimal, i64)>::empty(), spec_sat_add_i64(init, x.0.units as int))
            == spec_sat_add_i64(init, x.0.units as int));
        assert(spec_sum_sat(samples, init) == init);
    } else {
        assert(samples.push(x)[0] == samples[0]);
        assert(samples.push(x).drop_first() =~= samples.drop_first().push(x));
        lemma_sum_sat_push(
            samples.drop_first(),
            x,
            spec_sat_add_i64(init, samples[0].0.units as int),
        );
        assert(spec_sum_sat(samples.push(x), init) == spec_sum_sat(
            samples.drop_first().push(x),
            spec_sat_add_i64(init, samples[0].0.units as int),
        ));
    }
}

/// Bucketed aggregation: ascending boundaries, one cumulative count at
/// or below each boundary, a total count and a saturating sum.
#[derive(Debug)]
pub struct Histogram {
    /// The configured bucket boundaries.
    pub bounds: Vec<Decimal>,
    /// For each boundary, how many samples lie at or below it.
    pub counts: Vec<u64>,
    /// How many samples were recorded.
    pub count: u64,
    /// The saturating sum of the sample values, in billionths.
    pub sum_units: i64,
}

impl Histogram {
    /// The per-boundary counts line up with the boundaries and never
    /// exceed the total count.
    pub open spec fn wf(&self) -> bool {
        self.counts@.len() == self.bounds@.len() && forall|i: int|
            0 <= i < self.counts@.len() ==> (#[trigger] self.counts@[i]) <= self.count
    }

    /// Builds an empty histogram over the given boundaries.
    pub fn new(bounds: Vec<Decimal>) -> (r: Histogram)
        ensures
            r.wf(),
            r.bounds@ == bounds@,
            r.count == 0,
            r.sum_units == 0,
            forall|i: int| 0 <= i < r.counts@.len() ==> (#[trigger] r.counts@[i]) == 0,
    {
        let n = bounds.len();
        let mut counts: Vec<u64> = Vec::new();
        let mut i: usize = 0;
        while i < n
            invariant
                counts@.len() == i,
                i <= n,
                forall|j: int| 0 <= j < i ==> (#[trigger] counts@[j]) == 0,
            decreases n - i,
        {
            counts.push(0);
            i = i + 1;
        }
        Histogram { bounds, counts, count: 0, sum_units: 0 }
    }

    /// Folds a batch of samples into the histogram: the total count
    /// grows by the batch size, each boundary's count by the number of
    /// batch samples at or below it, and the sum by the sample values,
    /// saturating.
    pub fn record_samples(&mut self, samples: &Vec<(Decimal, i64)>)
        requires
            old(self).wf(),
            old(self).count + samples@.len() <= u64::MAX,
        ensures
            final(self).wf(),
            final(self).bounds@ == old(self).bounds@,
            final(self).count == old(self).count + samples@.len(),
            final(self).sum_units == spec_sum_sat(samples@, old(self).sum_units as int),
            final(self).counts@.len() == old(self).counts@.len(),
            forall|i: int|
                0 <= i < final(self).counts@.len() ==> (#[trigger] final(self).counts@[i])
                    == old(self).counts@[i] + spec_count_le(samples@, old(self).bounds@[i].units as int),
    {
        let n = samples.len();
        let nb = self.bounds.len();
        let ghost counts0 = self.counts@;
        let ghost count0 = self.count;
        let ghost sum0 = self.sum_units;
        let mut j: usize = 0;
        proof {
            assert(samples@.take(0) =~= Seq::<(Decimal, i64)>::empty());
        }
        while j < n
            invariant
                j <= n,
                n == samples@.len(),
                nb == self.bounds@.len(),
                self.bounds@ == old(self).bounds@,
                self.counts@.len() == counts0.len(),
                counts0 == old(self).counts@,
                count0 == old(self).count,
                sum0 == old(self).sum_units,
                counts0.len() == nb,
                self.count == count0 + j,
                count0 + n <= u64::MAX,
                forall|i: int| 0 <= i < counts0.len() ==> (#[trigger] counts0[i]) <= count0,
                self.sum_units == spec_sum_sat(samples@.take(j as int), sum0 as int),
                forall|i: int|
                    0 <= i < self.counts@.len() ==> (#[trigger] self.counts@[i]) == counts0[i]
                        + spec_count_le(samples@.take(j as int), self.bounds@[i].units as int),
                forall|i: int|
                    0 <= i < self.counts@.len() ==> (#[trigger] self.counts@[i]) <= count0 + j,
            decreases n - j,
        {
            let (value, _t) = samples[j];
            let ghost pre_counts = self.counts@;
            let ghost sample = samples@[j as int];
            proof {
                assert(spec_count_le(samples@.take(j as int), 0) >= 0);
            }
            let mut i: usize = 0;
            while i < nb
                invariant
                    i <= nb,
                    nb == self.bounds@.len(),
                    self.bounds@ == old(self).bounds@,
                    self.counts@.len() == nb,
                    pre_counts.len() == nb,
                    value == sample.0,
                    sample == samples@[j as int],
                    j < samples@.len(),
                    forall|ii: int| 0 <= ii < nb ==> (#[trigger] pre_counts[ii]) < u64::MAX,
                    forall|ii: int|
                        0 <= ii < i ==> (#[trigger] self.counts@[ii]) == pre_counts[ii] + (
                        if sample.0.units <= self.bounds@[ii].units {
                            1int
                        } else {
                            0int
                        }),
                    forall|ii: int| i <= ii < nb ==> (#[trigger] self.counts@[ii]) == pre_counts[ii],
                    self.count == count0 + j,
                    self.sum_units == spec_sum_sat(samples@.take(j as int), sum0 as int),
                decreases nb - i,
            {
                if value.le(&self.bounds[i]) {
                    let c = self.counts[i];
                    self.counts.set(i, c + 1);
                }
                i = i + 1;
            }
            self.count = self.count + 1;
            self.sum_units = sat_add_i64(self.sum_units, value.units);
            proof {
                lemma_sum_sat_push(samples@.take(j as int), sample, sum0 as int);
                assert(samples@.take(j + 1 as int) =~= samples@.take(j as int).push(sample));
                assert forall|ii: int| 0 <= ii < self.counts@.len() implies (
                #[trigger] self.counts@[ii]) == counts0[ii] + spec_count_le(
                    samples@.take(j + 1 as int),
                    self.bounds@[ii].units as int,
                ) by {
                    lemma_count_le_push(
                        samples@.take(j as int),
                        sample,
                        self.bounds@[ii].units as int,
                    );
                }
            }
            j = j + 1;
        }
        proof {
            assert(samples@.take(n as int) =~= samples@);
        }
    }
}

/// Quantile aggregation over the current window's samples, with a
/// running count and saturating sum.
#[derive(Debug)]
pub struct Summary {
    /// The window's sample values, in arrival order.
    pub samples: Vec<Decimal>,
    /// How many samples were recorded.
    pub count: u64,
    /// The saturating sum of the sample values, in billionths.
    pub sum_units: i64,
}

impl Summary {
    /// Builds an empty summary.
    pub fn new() -> (r: Summary)
        ensures
            r.samples@.len() == 0,
            r.count == 0,
            r.sum_units == 0,
    {
        Summary { samples: Vec::new(), count: 0, sum_units: 0 }
    }

    /// Folds a batch of samples into the summary.
    pub fn record_samples(&mut self, samples: &Vec<(Decimal, i64)>)
        requires
            old(self).count + samples@.len() <= u64::MAX,
        ensures
            final(self).samples@ == old(self).samples@ + samples@.map_values(
                |s: (Decimal, i64)| s.0,
            ),
            final(self).count == old(self).count + samples@.len(),
            final(self).sum_units == spec_sum_sat(samples@, old(self).sum_units as int),
    {
        let n = samples.len();
        let ghost sum0 = self.sum_units;
        let ghost count0 = self.count;
        let ghost samples0 = self.samples@;
        let ghost values = samples@.map_values(|s: (Decimal, i64)| s.0);
        let mut j: usize = 0;
        proof {
            assert(samples@.take(0) =~= Seq::<(Decimal, i64)>::empty());
            assert(self.samples@ =~= samples0 + values.take(0));
        }
        while j < n
            invariant
                j <= n,
                n == samples@.len(),
                count0 + n <= u64::MAX,
                values == samples@.map_values(|s: (Decimal, i64)| s.0),
                self.samples@ == samples0 + values.take(j as int),
                self.count == count0 + j,
                self.sum_units == spec_sum_sat(samples@.take(j as int), sum0 as int),
            decreases n - j,
        {
            let (value, _t) = samples[j];
            let ghost sample = samples@[j as int];
            self.samples.push(value);
            self.count = self.count + 1;
            self.sum_units = sat_add_i64(self.sum_units, value.units);
            proof {
                lemma_sum_sat_push(samples@.take(j as int), sample, sum0 as int);
                assert(samples@.take(j + 1 as int) =~= samples@.take(j as int).push(sample));
                assert(values.take(j + 1 as int) =~= values.take(j as int).push(sample.0));
                assert(self.samples@ =~= samples0 + values.take(j + 1 as int));
            }
            j = j + 1;
        }
        proof {
            assert(samples@.take(n as int) =~= samples@);
            assert(values.take(n as int) =~= values);
        }
    }

    /// True when the window holds no samples.
    pub fn is_empty(&self) -> (r: bool)
        ensures
            r == (self.samples@.len() == 0),
    {
        self.samples.is_empty()
    }

}

/// Copies a list of decimals.
pub fn copy_decimals(v: &Vec<Decimal>) -> (out: Vec<Decimal>)
    ensures
        out@ == v@,
{
    let mut out: Vec<Decimal> = Vec::new();
    let mut i: usize = 0;
    while i < v.len()
        invariant
            i <= v@.len(),
            out@ == v@.take(i as int),
        decreases v@.len() - i,
    {
        let d = v[i];
        out.push(d);
        assert(v@.take(i + 1 as int) =~= v@.take(i as int).push(d));
        i = i + 1;
    }
    assert(v@.take(v@.len() as int) =~= v@);
    out
}

/// Copies a list of quantiles.
pub fn copy_quantiles(v: &Vec<Quantile>) -> (out: Vec<Quantile>)
    ensures
        out.deep_view() == v.deep_view(),
        out@.len() == v@.len(),
        forall|i: int| 0 <= i < out@.len() && v@[i].wf() ==> (#[trigger] out@[i]).wf(),
{
    let mut out: Vec<Quantile> = Vec::new();
    let mut i: usize = 0;
    while i < v.len()
        invariant
            i <= v@.len(),
            out@.len() == i,
            out.deep_view() =~= v.deep_view().take(i as int),
            forall|j: int| 0 <= j < i && v@[j].wf() ==> (#[trigger] out@[j]).wf(),
        decreases v@.len() - i,
    {
        let q = v[i].clone_quantile();
        let ghost qv = q@;
        out.push(q);
        proof {
            assert(out.deep_view()[i as int] == qv);
            assert(v.deep_view()[i as int] == v@[i as int]@);
            assert(out.deep_view() =~~= v.deep_view().take(i + 1 as int));
        }
        i = i + 1;
    }
    assert(v.deep_view().take(v@.len() as int) =~= v.deep_view());
    out
}

/// A stateful aggregator for one metric name: a bucketed histogram
/// where boundaries are configured, a quantile summary otherwise.
#[derive(Debug)]
pub enum Distribution {
    /// Bucketed aggregation over fixed boundaries.
    Histogram(Histogram),
    /// Quantile estimation over the window, for the given quantiles.
    Summary(Summary, Vec<Quantile>),
}

/// The boundaries of the first override whose matcher accepts `name`.
pub open spec fn spec_first_override(
    overrides: Seq<(Matcher, Vec<Decimal>)>,
    name: Seq<char>,
) -> Option<Seq<Decimal>>
    decreases overrides.len(),
{
    if overrides.len() == 0 {
        None
    } else if overrides[0].0.spec_matches(name) {
        Some(overrides[0].1@)
    } else {
        spec_first_override(overrides.drop_first(), name)
    }
}

/// Chooses and caches the aggregation policy for each metric name.
#[derive(Debug)]
pub struct DistributionBuilder {
    /// The quantiles a summary reports.
    pub quantiles: Vec<Quantile>,
    /// The default bucket boundaries; their absence means summary mode.
    pub buckets: Option<Vec<Decimal>>,
    /// Per-matcher boundary overrides, tried in order, first match wins.
    pub bucket_overrides: Vec<(Matcher, Vec<Decimal>)>,
    /// The decision already made for each name seen so far.
    pub cache: Vec<(String, Option<Vec<Decimal>>)>,
}

impl DistributionBuilder {
    /// The bucket boundaries `name` aggregates with: the first matching
    /// override's, else the default; none means summary mode.
    pub open spec fn spec_decide(&self, name: Seq<char>) -> Option<Seq<Decimal>> {
        match spec_first_override(self.bucket_overrides@, name) {
            Some(b) => Some(b),
            None => match self.buckets {
                Some(b) => Some(b@),
                None => None,
            },
        }
    }

    /// Every cached decision is the one the configuration dictates.
    pub open spec fn cache_ok(&self) -> bool {
        forall|i: int|
            0 <= i < self.cache@.len() ==> (match (#[trigger] self.cache@[i]).1 {
                Some(b) => self.spec_decide(self.cache@[i].0@) == Some(b@),
                None => self.spec_decide(self.cache@[i].0@) is None,
            })
    }

    /// The cache is consistent and every quantile labels itself.
    pub open spec fn wf(&self) -> bool {
        self.cache_ok() && forall|i: int|
            0 <= i < self.quantiles@.len() ==> (#[trigger] self.quantiles@[i]).wf()
    }

    /// Builds a fresh policy chooser with an empty cache.
    pub fn new(
        quantiles: Vec<Quantile>,
        buckets: Option<Vec<Decimal>>,
        bucket_overrides: Vec<(Matcher, Vec<Decimal>)>,
    ) -> (r: DistributionBuilder)
        requires
            forall|i: int| 0 <= i < quantiles@.len() ==> (#[trigger] quantiles@[i]).wf(),
        ensures
            r.wf(),
            r.quantiles == quantiles,
            r.buckets == buckets,
            r.bucket_overrides == bucket_overrides,
            r.cache@.len() == 0,
    {
        DistributionBuilder { quantiles, buckets, bucket_overrides, cache: Vec::new() }
    }

    /// Looks up the boundaries the configuration dictates for `name`.
    fn decide(&self, name: &str) -> (r: Option<Vec<Decimal>>)
        ensures
            match r {
                Some(b) => self.spec_decide(name@) == Some(b@),
                None => self.spec_decide(name@) is None,
            },
    {
        let n = self.bucket_overrides.len();
        let mut i: usize = 0;
        assert(self.bucket_overrides@.skip(0) =~= self.bucket_overrides@);
        while i < n
            invariant_except_break
                i <= n,
                n == self.bucket_overrides@.len(),
                spec_first_override(self.bucket_overrides@, name@) == spec_first_override(
                    self.bucket_overrides@.skip(i as int),
                    name@,
                ),
            ensures
                spec_first_override(self.bucket_overrides@, name@) == (if i < n {
                    Some(self.bucket_overrides@[i as int].1@)
                } else {
                    None
                }),
            decreases n - i,
        {
            let matched = self.bucket_overrides[i].0.matches(name);
            proof {
                assert(self.bucket_overrides@.skip(i as int)[0] == self.bucket_overrides@[i as int]);
            }
            if matched {
                break;
            }
            proof {
                assert(self.bucket_overrides@.skip(i as int).drop_first()
                    =~= self.bucket_overrides@.skip(i + 1 as int));
            }
            i = i + 1;
        }
        if i < n {
            Some(copy_decimals(&self.bucket_overrides[i].1))
        } else {
            match &self.buckets {
                Some(b) => Some(copy_decimals(b)),
                None => None,
            }
        }
    }

    /// Hands out a fresh, empty aggregator for `name`, deciding its
    /// policy on first sight and reusing the cached decision after.
    pub fn get_distribution(&mut self, name: &str) -> (d: Distribution)
        requires
            old(self).wf(),
        ensures
            final(self).wf(),
            final(self).quantiles == old(self).quantiles,
            final(self).buckets == old(self).buckets,
            final(self).bucket_overrides == old(self).bucket_overrides,
            match d {
                Distribution::Histogram(h) => {
                    &&& old(self).spec_decide(name@) == Some(h.bounds@)
                    &&& h.wf()
                    &&& h.count == 0
                    &&& h.sum_units == 0
                    &&& forall|i: int| 0 <= i < h.counts@.len() ==> (#[trigger] h.counts@[i]) == 0
                },
                Distribution::Summary(s, q) => {
                    &&& old(self).spec_decide(name@) is None
                    &&& s.samples@.len() == 0
                    &&& s.count == 0
                    &&& s.sum_units == 0
                    &&& q.deep_view() == old(self).quantiles.deep_view()
                    &&& forall|i: int| 0 <= i < q@.len() ==> (#[trigger] q@[i]).wf()
                },
            },
    {
        let n = self.cache.len();
        let mut i: usize = 0;
        let mut hit: bool = false;
        while i < n
            invariant_except_break
                i <= n,
                n == self.cache@.len(),
                !hit,
            ensures
                hit ==> i < n && self.cache@[i as int].0@ == name@,
                !hit ==> i >= n,
            decreases n - i,
        {
            if str_eq(self.cache[i].0.as_str(), name) {
                hit = true;
                break;
            }
            i = i + 1;
        }
        let decision: Option<Vec<Decimal>> = if hit {
            proof {
                assert(match self.cache@[i as int].1 {
                    Some(b) => self.spec_decide(self.cache@[i as int].0@) == Some(b@),
                    None => self.spec_decide(self.cache@[i as int].0@) is None,
                });
            }
            match &self.cache[i].1 {
                Some(b) => Some(copy_decimals(b)),
                None => None,
            }
        } else {
            let d = self.decide(name);
            let copy = match &d {
                Some(b) => Some(copy_decimals(b)),
                None => None,
            };
            let ghost cache_pre = self.cache@;
            let key = chars_to_string(&crate::text::str_chars(name));
            self.cache.push((key, copy));
            proof {
                assert(forall|j: int|
                    0 <= j < cache_pre.len() ==> self.cache@[j] == cache_pre[j]);
            }
            d
        };
        match decision {
            Some(bounds) => Distribution::Histogram(Histogram::new(bounds)),
            None => Distribution::Summary(Summary::new(), copy_quantiles(&self.quantiles)),
        }
    }
}

/// First match wins: the policy for a name is the earliest registered
/// override whose matcher accepts it.
pub proof fn lemma_first_override_at(
    overrides: Seq<(Matcher, Vec<Decimal>)>,
    name: Seq<char>,
    i: int,
)
    requires
        0 <= i < overrides.len(),
        overrides[i].0.spec_matches(name),
        forall|j: int| 0 <= j < i ==> !(#[trigger] overrides[j]).0.spec_matches(name),
    ensures
        spec_first_override(overrides, name) == Some(overrides[i].1@),
    decreases overrides.len(),
{
    if i > 0 {
        lemma_first_override_at(overrides.drop_first(), name, i - 1);
    }
}

/// A name no override accepts falls back to the default boundaries.
pub proof fn lemma_first_override_none(overrides: Seq<(Matcher, Vec<Decimal>)>, name: Seq<char>)
    requires
        forall|j: int|
            0 <= j < overrides.len() ==> !(#[trigger] overrides[j]).0.spec_matches(name),
    ensures
        spec_first_override(overrides, name) is None,
    decreases overrides.len(),
{
    if overrides.len() > 0 {
        lemma_first_override_none(overrides.drop_first(), name);
    }
}

} // verus!

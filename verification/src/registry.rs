//! The aggregation registry: one cell per metric key, created lazily.

use vstd::prelude::*;

use crate::data::clone_tags;
use crate::decimal::Decimal;
use crate::text::str_eq;

verus! {

/// A metric key: measurement name plus ordered labels.
#[derive(Debug)]
pub struct MetricKey {
    /// The measurement name.
    pub name: String,
    /// Label keys and values, in the order given at the call site.
    pub labels: Vec<(String, String)>,
}

/// The mathematical value of a metric key.
#[verifier::ext_equal]
pub struct MetricKeyView {
    /// The characters of the name.
    pub name: Seq<char>,
    /// The labels as character sequences.
    pub labels: Seq<(Seq<char>, Seq<char>)>,
}

impl View for MetricKey {
    type V = MetricKeyView;

    open spec fn view(&self) -> MetricKeyView {
        MetricKeyView { name: self.name@, labels: self.labels.deep_view() }
    }
}

impl DeepView for MetricKey {
    type V = MetricKeyView;

    open spec fn deep_view(&self) -> MetricKeyView {
        self.view()
    }
}

impl MetricKey {
    /// Builds the key for `name` with the given labels.
    pub fn new(name: String, labels: Vec<(String, String)>) -> (r: MetricKey)
        ensures
            r@ == (MetricKeyView { name: name@, labels: labels.deep_view() }),
    {
        MetricKey { name, labels }
    }

    /// Copies this key; the copy identifies the same cell.
    pub fn clone_key(&self) -> (r: MetricKey)
        ensures
            r@ == self@,
    {
        let r = MetricKey { name: self.name.clone(), labels: clone_tags(&self.labels) };
        proof {
            assert(r@ =~~= self@);
        }
        r
    }

    /// Compares two keys by full content.
    pub fn eq_key(&self, other: &MetricKey) -> (r: bool)
        ensures
            r == (self@ == other@),
    {
        if !str_eq(self.name.as_str(), other.name.as_str()) {
            proof {
                assert(self@.name != other@.name);
            }
            return false;
        }
        let n = self.labels.len();
        if n != other.labels.len() {
            proof {
                assert(self@.labels.len() != other@.labels.len());
            }
            return false;
        }
        let mut i: usize = 0;
        while i < n
            invariant
                i <= n,
                n == self.labels@.len(),
                n == other.labels@.len(),
                forall|j: int|
                    0 <= j < i ==> (#[trigger] self.labels.deep_view()[j])
                        == other.labels.deep_view()[j],
            decreases n - i,
        {
            let ka = self.labels[i].0.as_str();
            let kb = other.labels[i].0.as_str();
            let va = self.labels[i].1.as_str();
            let vb = other.labels[i].1.as_str();
            let keys_eq = str_eq(ka, kb);
            let vals_eq = str_eq(va, vb);
            proof {
                assert(self.labels.deep_view()[i as int] == (self.labels@[i as int].0@, self.labels@[i as int].1@));
                assert(other.labels.deep_view()[i as int] == (other.labels@[i as int].0@, other.labels@[i as int].1@));
            }
            if !keys_eq || !vals_eq {
                proof {
                    assert(self.labels.deep_view()[i as int] != other.labels.deep_view()[i as int]);
                    assert(self@.labels != other@.labels);
                }
                return false;
            }
            i = i + 1;
        }
        proof {
            assert(self.labels.deep_view() =~= other.labels.deep_view());
            assert(self@ =~~= other@);
        }
        true
    }
}

/// The counters as (key, value) pairs at the mathematical level.
pub open spec fn counters_model(s: Seq<(MetricKey, u64)>) -> Seq<(MetricKeyView, int)> {
    s.map_values(|p: (MetricKey, u64)| (p.0@, p.1 as int))
}

/// The gauges as (key, billionths) pairs at the mathematical level.
pub open spec fn gauges_model(s: Seq<(MetricKey, Decimal)>) -> Seq<(MetricKeyView, int)> {
    s.map_values(|p: (MetricKey, Decimal)| (p.0@, p.1.units as int))
}

/// The histogram cells as (key, samples) pairs at the mathematical
/// level; a sample is a value and its arrival time in nanoseconds.
pub open spec fn hists_model(s: Seq<(MetricKey, Vec<(Decimal, i64)>)>) -> Seq<
    (MetricKeyView, Seq<(Decimal, i64)>),
> {
    s.map_values(|p: (MetricKey, Vec<(Decimal, i64)>)| (p.0@, p.1@))
}

/// The registration set at the mathematical level.
pub open spec fn regs_model(s: Seq<MetricKey>) -> Seq<MetricKeyView> {
    s.map_values(|k: MetricKey| k@)
}

/// The value stored under `k`, if any.
pub open spec fn model_find<T>(m: Seq<(MetricKeyView, T)>, k: MetricKeyView) -> Option<T>
    decreases m.len(),
{
    if m.len() == 0 {
        None
    } else if m[0].0 == k {
        Some(m[0].1)
    } else {
        model_find(m.drop_first(), k)
    }
}

/// Whether `k` is in the sequence of keys.
pub open spec fn keys_contain(m: Seq<MetricKeyView>, k: MetricKeyView) -> bool
    decreases m.len(),
{
    if m.len() == 0 {
        false
    } else if m[0] == k {
        true
    } else {
        keys_contain(m.drop_first(), k)
    }
}

/// The counters after `amount` is added, wrapping, under `k`; a missing
/// cell first appears holding zero.
pub open spec fn spec_bump(m: Seq<(MetricKeyView, int)>, k: MetricKeyView, amount: int) -> Seq<
    (MetricKeyView, int),
>
    decreases m.len(),
{
    if m.len() == 0 {
        seq![(k, amount % 0x1_0000_0000_0000_0000)]
    } else if m[0].0 == k {
        seq![(k, (m[0].1 + amount) % 0x1_0000_0000_0000_0000)] + m.drop_first()
    } else {
        seq![m[0]] + spec_bump(m.drop_first(), k, amount)
    }
}


/// The counters after the cell under `k` is raised to at least
/// `value`: the cell keeps the larger of its value and the given one;
/// a missing cell appears holding the value.
pub open spec fn spec_counter_absolute(
    m: Seq<(MetricKeyView, int)>,
    k: MetricKeyView,
    value: int,
) -> Seq<(MetricKeyView, int)>
    decreases m.len(),
{
    if m.len() == 0 {
        seq![(k, value)]
    } else if m[0].0 == k {
        seq![(k, if m[0].1 >= value { m[0].1 } else { value })] + m.drop_first()
    } else {
        seq![m[0]] + spec_counter_absolute(m.drop_first(), k, value)
    }
}

/// The gauges after the cell under `k` is set to `units` billionths.
pub open spec fn spec_gauge_set(m: Seq<(MetricKeyView, int)>, k: MetricKeyView, units: int) -> Seq<
    (MetricKeyView, int),
>
    decreases m.len(),
{
    if m.len() == 0 {
        seq![(k, units)]
    } else if m[0].0 == k {
        seq![(k, units)] + m.drop_first()
    } else {
        seq![m[0]] + spec_gauge_set(m.drop_first(), k, units)
    }
}

/// The gauges after `delta` billionths are added, saturating, to the
/// cell under `k`; a missing cell first appears holding zero.
pub open spec fn spec_gauge_adjust(m: Seq<(MetricKeyView, int)>, k: MetricKeyView, delta: int) -> Seq<
    (MetricKeyView, int),
>
    decreases m.len(),
{
    if m.len() == 0 {
        seq![(k, crate::decimal::spec_sat_add_i64(0, delta))]
    } else if m[0].0 == k {
        seq![(k, crate::decimal::spec_sat_add_i64(m[0].1, delta))] + m.drop_first()
    } else {
        seq![m[0]] + spec_gauge_adjust(m.drop_first(), k, delta)
    }
}

/// The histogram cells after one sample lands in the cell under `k`.
pub open spec fn spec_hist_append(
    m: Seq<(MetricKeyView, Seq<(Decimal, i64)>)>,
    k: MetricKeyView,
    sample: (Decimal, i64),
) -> Seq<(MetricKeyView, Seq<(Decimal, i64)>)>
    decreases m.len(),
{
    if m.len() == 0 {
        seq![(k, seq![sample])]
    } else if m[0].0 == k {
        seq![(k, m[0].1.push(sample))] + m.drop_first()
    } else {
        seq![m[0]] + spec_hist_append(m.drop_first(), k, sample)
    }
}

/// Concurrent map from metric key to counter, gauge or histogram cell,
/// plus the set of counter keys seen for the first time since the last
/// render.
#[derive(Debug)]
pub struct Registry {
    /// Counter cells.
    pub counters: Vec<(MetricKey, u64)>,
    /// Gauge cells, each holding the last value set.
    pub gauges: Vec<(MetricKey, Decimal)>,
    /// Histogram cells, each holding the window's samples.
    pub histograms: Vec<(MetricKey, Vec<(Decimal, i64)>)>,
    /// Counter keys registered since the last render.
    pub counter_registrations: Vec<MetricKey>,
}

impl Registry {
    /// Builds an empty registry.
    pub fn new() -> (r: Registry)
        ensures
            r.counters@.len() == 0,
            r.gauges@.len() == 0,
            r.histograms@.len() == 0,
            r.counter_registrations@.len() == 0,
    {
        Registry {
            counters: Vec::new(),
            gauges: Vec::new(),
            histograms: Vec::new(),
            counter_registrations: Vec::new(),
        }
    }

    /// Adds `amount` to the counter under `key`, wrapping on overflow;
    /// a key not seen before gets a fresh cell and joins the
    /// registration set, so the next render emits its zero point.
    pub fn increment_counter(&mut self, key: &MetricKey, amount: u64)
        ensures
            counters_model(final(self).counters@) == spec_bump(
                counters_model(old(self).counters@),
                key@,
                amount as int,
            ),
            final(self).gauges@ == old(self).gauges@,
            final(self).histograms@ == old(self).histograms@,
            regs_model(final(self).counter_registrations@) == (
            if model_find(counters_model(old(self).counters@), key@) is Some || keys_contain(
                regs_model(old(self).counter_registrations@),
                key@,
            ) {
                regs_model(old(self).counter_registrations@)
            } else {
                regs_model(old(self).counter_registrations@).push(key@)
            }),
    {
        let n = self.counters.len();
        let ghost m0 = counters_model(self.counters@);
        let mut i: usize = 0;
        let mut found: bool = false;
        while i < n
            invariant_except_break
                i <= n,
                !found,
                n == self.counters@.len(),
                forall|j: int| 0 <= j < i ==> (#[trigger] self.counters@[j]).0@ != key@,
            ensures
                forall|j: int| 0 <= j < i ==> (#[trigger] self.counters@[j]).0@ != key@,
                found ==> i < n && self.counters@[i as int].0@ == key@,
                !found ==> i >= n && forall|j: int|
                    0 <= j < n ==> (#[trigger] self.counters@[j]).0@ != key@,
            decreases n - i,
        {
            if self.counters[i].0.eq_key(key) {
                found = true;
                break;
            }
            i = i + 1;
        }
        if found {
            let old_val = self.counters[i].1;
            let new_val = old_val.wrapping_add(amount);
            let cell = self.counters.remove(i);
            self.counters.insert(i, (cell.0, new_val));
            proof {
                assert(new_val as int == (old_val + amount) % 0x1_0000_0000_0000_0000);
                assert forall|j: int| 0 <= j < i implies (#[trigger] m0[j]).0 != key@ by {
                    assert(m0[j] == (old(self).counters@[j].0@, old(self).counters@[j].1 as int));
                }
                assert(m0[i as int] == (old(self).counters@[i as int].0@, old(self).counters@[i as int].1 as int));
                lemma_bump_at(m0, key@, amount as int, i as int);
                lemma_model_find_at(m0, key@, i as int);
                assert(counters_model(self.counters@) =~~= spec_bump(m0, key@, amount as int));
            }
        } else {
            let start: u64 = 0;
            let new_val = start.wrapping_add(amount);
            proof {
                assert forall|j: int| 0 <= j < m0.len() implies (#[trigger] m0[j]).0 != key@ by {
                    assert(m0[j] == (old(self).counters@[j].0@, old(self).counters@[j].1 as int));
                }
                lemma_model_find_missing(m0, key@);
            }
            self.counters.push((key.clone_key(), new_val));
            proof {
                assert(new_val as int == (amount as int) % 0x1_0000_0000_0000_0000);
                lemma_bump_missing(m0, key@, amount as int);
                assert(counters_model(self.counters@) =~~= spec_bump(m0, key@, amount as int));
            }
            let already = self.contains_registration(key);
            if !already {
                self.counter_registrations.push(key.clone_key());
                proof {
                    assert(regs_model(self.counter_registrations@) =~~= regs_model(
                        old(self).counter_registrations@,
                    ).push(key@));
                }
            }
        }
    }


    /// Raises the counter under `key` to at least `value`, never
    /// lowering it; a key not seen before gets a cell holding the
    /// value and joins the registration set.
    pub fn absolute_counter(&mut self, key: &MetricKey, value: u64)
        ensures
            counters_model(final(self).counters@) == spec_counter_absolute(
                counters_model(old(self).counters@),
                key@,
                value as int,
            ),
            final(self).gauges@ == old(self).gauges@,
            final(self).histograms@ == old(self).histograms@,
            regs_model(final(self).counter_registrations@) == (
            if model_find(counters_model(old(self).counters@), key@) is Some || keys_contain(
                regs_model(old(self).counter_registrations@),
                key@,
            ) {
                regs_model(old(self).counter_registrations@)
            } else {
                regs_model(old(self).counter_registrations@).push(key@)
            }),
    {
        let n = self.counters.len();
        let ghost m0 = counters_model(self.counters@);
        let mut i: usize = 0;
        let mut found: bool = false;
        while i < n
            invariant_except_break
                i <= n,
                !found,
                n == self.counters@.len(),
                forall|j: int| 0 <= j < i ==> (#[trigger] self.counters@[j]).0@ != key@,
            ensures
                forall|j: int| 0 <= j < i ==> (#[trigger] self.counters@[j]).0@ != key@,
                found ==> i < n && self.counters@[i as int].0@ == key@,
                !found ==> i >= n && forall|j: int|
                    0 <= j < n ==> (#[trigger] self.counters@[j]).0@ != key@,
            decreases n - i,
        {
            if self.counters[i].0.eq_key(key) {
                found = true;
                break;
            }
            i = i + 1;
        }
        if found {
            let old_val = self.counters[i].1;
            let new_val = if old_val >= value {
                old_val
            } else {
                value
            };
            let cell = self.counters.remove(i);
            self.counters.insert(i, (cell.0, new_val));
            proof {
                assert forall|j: int| 0 <= j < i implies (#[trigger] m0[j]).0 != key@ by {
                    assert(m0[j] == (old(self).counters@[j].0@, old(self).counters@[j].1 as int));
                }
                assert(m0[i as int] == (old(self).counters@[i as int].0@, old(self).counters@[i as int].1 as int));
                lemma_counter_absolute_at(m0, key@, value as int, i as int);
                lemma_model_find_at(m0, key@, i as int);
                assert(counters_model(self.counters@) =~~= spec_counter_absolute(
                    m0,
                    key@,
                    value as int,
                ));
            }
        } else {
            proof {
                assert forall|j: int| 0 <= j < m0.len() implies (#[trigger] m0[j]).0 != key@ by {
                    assert(m0[j] == (old(self).counters@[j].0@, old(self).counters@[j].1 as int));
                }
                lemma_model_find_missing(m0, key@);
                lemma_counter_absolute_missing(m0, key@, value as int);
            }
            self.counters.push((key.clone_key(), value));
            proof {
                assert(counters_model(self.counters@) =~~= spec_counter_absolute(
                    m0,
                    key@,
                    value as int,
                ));
            }
            let already = self.contains_registration(key);
            if !already {
                self.counter_registrations.push(key.clone_key());
                proof {
                    assert(regs_model(self.counter_registrations@) =~~= regs_model(
                        old(self).counter_registrations@,
                    ).push(key@));
                }
            }
        }
    }

    /// Whether `key` is in the registration set.
    fn contains_registration(&self, key: &MetricKey) -> (r: bool)
        ensures
            r == keys_contain(regs_model(self.counter_registrations@), key@),
    {
        let n = self.counter_registrations.len();
        let mut i: usize = 0;
        proof {
            assert(regs_model(self.counter_registrations@).skip(0) =~= regs_model(
                self.counter_registrations@,
            ));
        }
        while i < n
            invariant_except_break
                i <= n,
                n == self.counter_registrations@.len(),
                keys_contain(regs_model(self.counter_registrations@), key@) == keys_contain(
                    regs_model(self.counter_registrations@).skip(i as int),
                    key@,
                ),
            ensures
                keys_contain(regs_model(self.counter_registrations@), key@) == (i < n),
            decreases n - i,
        {
            let ghost m = regs_model(self.counter_registrations@);
            proof {
                assert(m.skip(i as int)[0] == m[i as int]);
                assert(m[i as int] == self.counter_registrations@[i as int]@);
            }
            if self.counter_registrations[i].eq_key(key) {
                break;
            }
            proof {
                assert(m.skip(i as int).drop_first() =~= m.skip(i + 1 as int));
            }
            i = i + 1;
        }
        i < n
    }

    /// Sets the gauge under `key` to `value`, creating the cell on
    /// first use.
    pub fn set_gauge(&mut self, key: &MetricKey, value: Decimal)
        ensures
            gauges_model(final(self).gauges@) == spec_gauge_set(
                gauges_model(old(self).gauges@),
                key@,
                value.units as int,
            ),
            final(self).counters@ == old(self).counters@,
            final(self).histograms@ == old(self).histograms@,
            final(self).counter_registrations@ == old(self).counter_registrations@,
    {
        let n = self.gauges.len();
        let ghost m0 = gauges_model(self.gauges@);
        let mut i: usize = 0;
        let mut found: bool = false;
        while i < n
            invariant_except_break
                i <= n,
                !found,
                n == self.gauges@.len(),
                forall|j: int| 0 <= j < i ==> (#[trigger] self.gauges@[j]).0@ != key@,
            ensures
                forall|j: int| 0 <= j < i ==> (#[trigger] self.gauges@[j]).0@ != key@,
                found ==> i < n && self.gauges@[i as int].0@ == key@,
                !found ==> i >= n && forall|j: int|
                    0 <= j < n ==> (#[trigger] self.gauges@[j]).0@ != key@,
            decreases n - i,
        {
            if self.gauges[i].0.eq_key(key) {
                found = true;
                break;
            }
            i = i + 1;
        }
        if found {
            let cell = self.gauges.remove(i);
            self.gauges.insert(i, (cell.0, value));
            proof {
                assert forall|j: int| 0 <= j < i implies (#[trigger] m0[j]).0 != key@ by {
                    assert(m0[j] == (old(self).gauges@[j].0@, old(self).gauges@[j].1.units as int));
                }
                assert(m0[i as int] == (old(self).gauges@[i as int].0@, old(self).gauges@[i as int].1.units as int));
                lemma_gauge_set_at(m0, key@, value.units as int, i as int);
                assert(gauges_model(self.gauges@) =~~= spec_gauge_set(
                    m0,
                    key@,
                    value.units as int,
                ));
            }
        } else {
            self.gauges.push((key.clone_key(), value));
            proof {
                assert forall|j: int| 0 <= j < m0.len() implies (#[trigger] m0[j]).0 != key@ by {
                    assert(m0[j] == (old(self).gauges@[j].0@, old(self).gauges@[j].1.units as int));
                }
                lemma_gauge_set_missing(m0, key@, value.units as int);
                assert(gauges_model(self.gauges@) =~~= spec_gauge_set(
                    m0,
                    key@,
                    value.units as int,
                ));
            }
        }
    }

    /// Appends one sample to the histogram cell under `key`, creating
    /// the cell on first use.
    pub fn record_histogram(&mut self, key: &MetricKey, value: Decimal, time_ns: i64)
        ensures
            hists_model(final(self).histograms@) == spec_hist_append(
                hists_model(old(self).histograms@),
                key@,
                (value, time_ns),
            ),
            final(self).counters@ == old(self).counters@,
            final(self).gauges@ == old(self).gauges@,
            final(self).counter_registrations@ == old(self).counter_registrations@,
    {
        let n = self.histograms.len();
        let ghost m0 = hists_model(self.histograms@);
        let mut i: usize = 0;
        let mut found: bool = false;
        while i < n
            invariant_except_break
                i <= n,
                !found,
                n == self.histograms@.len(),
                forall|j: int| 0 <= j < i ==> (#[trigger] self.histograms@[j]).0@ != key@,
            ensures
                forall|j: int| 0 <= j < i ==> (#[trigger] self.histograms@[j]).0@ != key@,
                found ==> i < n && self.histograms@[i as int].0@ == key@,
                !found ==> i >= n && forall|j: int|
                    0 <= j < n ==> (#[trigger] self.histograms@[j]).0@ != key@,
            decreases n - i,
        {
            if self.histograms[i].0.eq_key(key) {
                found = true;
                break;
            }
            i = i + 1;
        }
        if found {
            let mut cell = self.histograms.remove(i);
            cell.1.push((value, time_ns));
            self.histograms.insert(i, cell);
            proof {
                assert forall|j: int| 0 <= j < i implies (#[trigger] m0[j]).0 != key@ by {
                    assert(m0[j] == (old(self).histograms@[j].0@, old(self).histograms@[j].1@));
                }
                assert(m0[i as int] == (old(self).histograms@[i as int].0@, old(self).histograms@[i as int].1@));
                lemma_hist_append_at(m0, key@, (value, time_ns), i as int);
                assert(hists_model(self.histograms@) =~~= spec_hist_append(
                    m0,
                    key@,
                    (value, time_ns),
                ));
            }
        } else {
            let mut samples: Vec<(Decimal, i64)> = Vec::new();
            samples.push((value, time_ns));
            self.histograms.push((key.clone_key(), samples));
            proof {
                assert forall|j: int| 0 <= j < m0.len() implies (#[trigger] m0[j]).0 != key@ by {
                    assert(m0[j] == (old(self).histograms@[j].0@, old(self).histograms@[j].1@));
                }
                lemma_hist_append_missing(m0, key@, (value, time_ns));
                assert(hists_model(self.histograms@) =~~= spec_hist_append(
                    m0,
                    key@,
                    (value, time_ns),
                ));
            }
        }
    }

    /// Drops every cell; the registration set is kept, so keys
    /// registered but not yet rendered still get their zero point.
    pub fn clear(&mut self)
        ensures
            final(self).counters@.len() == 0,
            final(self).gauges@.len() == 0,
            final(self).histograms@.len() == 0,
            final(self).counter_registrations@ == old(self).counter_registrations@,
    {
        self.counters.clear();
        self.gauges.clear();
        self.histograms.clear();
    }
}

proof fn lemma_model_find_at<T>(m: Seq<(MetricKeyView, T)>, k: MetricKeyView, i: int)
    requires
        0 <= i < m.len(),
        m[i].0 == k,
        forall|j: int| 0 <= j < i ==> (#[trigger] m[j]).0 != k,
    ensures
        model_find(m, k) == Some(m[i].1),
    decreases m.len(),
{
    if i > 0 {
        lemma_model_find_at(m.drop_first(), k, i - 1);
    }
}

proof fn lemma_model_find_missing<T>(m: Seq<(MetricKeyView, T)>, k: MetricKeyView)
    requires
        forall|j: int| 0 <= j < m.len() ==> (#[trigger] m[j]).0 != k,
    ensures
        model_find(m, k) is None,
    decreases m.len(),
{
    if m.len() > 0 {
        lemma_model_find_missing(m.drop_first(), k);
    }
}

proof fn lemma_bump_at(m: Seq<(MetricKeyView, int)>, k: MetricKeyView, a: int, i: int)
    requires
        0 <= i < m.len(),
        m[i].0 == k,
        forall|j: int| 0 <= j < i ==> (#[trigger] m[j]).0 != k,
    ensures
        spec_bump(m, k, a) == m.take(i) + seq![(k, (m[i].1 + a) % 0x1_0000_0000_0000_0000)]
            + m.skip(i + 1),
    decreases m.len(),
{
    if i == 0 {
        assert(spec_bump(m, k, a) =~= m.take(0) + seq![(k, (m[0].1 + a) % 0x1_0000_0000_0000_0000)]
            + m.skip(1));
    } else {
        lemma_bump_at(m.drop_first(), k, a, i - 1);
        assert(m.drop_first().take(i - 1) =~= m.take(i).drop_first());
        assert(m.drop_first().skip(i) =~= m.skip(i + 1));
        assert(m.drop_first()[i - 1] == m[i]);
        assert(spec_bump(m, k, a) =~= m.take(i) + seq![
            (k, (m[i].1 + a) % 0x1_0000_0000_0000_0000),
        ] + m.skip(i + 1));
    }
}

proof fn lemma_bump_missing(m: Seq<(MetricKeyView, int)>, k: MetricKeyView, a: int)
    requires
        forall|j: int| 0 <= j < m.len() ==> (#[trigger] m[j]).0 != k,
    ensures
        spec_bump(m, k, a) == m.push((k, a % 0x1_0000_0000_0000_0000)),
    decreases m.len(),
{
    if m.len() == 0 {
        assert(spec_bump(m, k, a) =~= m.push((k, a % 0x1_0000_0000_0000_0000)));
    } else {
        lemma_bump_missing(m.drop_first(), k, a);
        assert(spec_bump(m, k, a) =~= m.push((k, a % 0x1_0000_0000_0000_0000)));
    }
}


proof fn lemma_counter_absolute_at(m: Seq<(MetricKeyView, int)>, k: MetricKeyView, v: int, i: int)
    requires
        0 <= i < m.len(),
        m[i].0 == k,
        forall|j: int| 0 <= j < i ==> (#[trigger] m[j]).0 != k,
    ensures
        spec_counter_absolute(m, k, v) == m.take(i) + seq![
            (k, if m[i].1 >= v { m[i].1 } else { v }),
        ] + m.skip(i + 1),
    decreases m.len(),
{
    if i == 0 {
        assert(spec_counter_absolute(m, k, v) =~= m.take(0) + seq![
            (k, if m[0].1 >= v { m[0].1 } else { v }),
        ] + m.skip(1));
    } else {
        lemma_counter_absolute_at(m.drop_first(), k, v, i - 1);
        assert(m.drop_first().take(i - 1) =~= m.take(i).drop_first());
        assert(m.drop_first().skip(i) =~= m.skip(i + 1));
        assert(m.drop_first()[i - 1] == m[i]);
        assert(spec_counter_absolute(m, k, v) =~= m.take(i) + seq![
            (k, if m[i].1 >= v { m[i].1 } else { v }),
        ] + m.skip(i + 1));
    }
}

proof fn lemma_counter_absolute_missing(m: Seq<(MetricKeyView, int)>, k: MetricKeyView, v: int)
    requires
        forall|j: int| 0 <= j < m.len() ==> (#[trigger] m[j]).0 != k,
    ensures
        spec_counter_absolute(m, k, v) == m.push((k, v)),
    decreases m.len(),
{
    if m.len() == 0 {
        assert(spec_counter_absolute(m, k, v) =~= m.push((k, v)));
    } else {
        lemma_counter_absolute_missing(m.drop_first(), k, v);
        assert(spec_counter_absolute(m, k, v) =~= m.push((k, v)));
    }
}

proof fn lemma_gauge_set_at(m: Seq<(MetricKeyView, int)>, k: MetricKeyView, u: int, i: int)
    requires
        0 <= i < m.len(),
        m[i].0 == k,
        forall|j: int| 0 <= j < i ==> (#[trigger] m[j]).0 != k,
    ensures
        spec_gauge_set(m, k, u) == m.take(i) + seq![(k, u)] + m.skip(i + 1),
    decreases m.len(),
{
    if i == 0 {
        assert(spec_gauge_set(m, k, u) =~= m.take(0) + seq![(k, u)] + m.skip(1));
    } else {
        lemma_gauge_set_at(m.drop_first(), k, u, i - 1);
        assert(m.drop_first().take(i - 1) =~= m.take(i).drop_first());
        assert(m.drop_first().skip(i) =~= m.skip(i + 1));
        assert(spec_gauge_set(m, k, u) =~= m.take(i) + seq![(k, u)] + m.skip(i + 1));
    }
}

proof fn lemma_gauge_set_missing(m: Seq<(MetricKeyView, int)>, k: MetricKeyView, u: int)
    requires
        forall|j: int| 0 <= j < m.len() ==> (#[trigger] m[j]).0 != k,
    ensures
        spec_gauge_set(m, k, u) == m.push((k, u)),
    decreases m.len(),
{
    if m.len() == 0 {
        assert(spec_gauge_set(m, k, u) =~= m.push((k, u)));
    } else {
        lemma_gauge_set_missing(m.drop_first(), k, u);
        assert(spec_gauge_set(m, k, u) =~= m.push((k, u)));
    }
}

proof fn lemma_gauge_adjust_at(m: Seq<(MetricKeyView, int)>, k: MetricKeyView, d: int, i: int)
    requires
        0 <= i < m.len(),
        m[i].0 == k,
        forall|j: int| 0 <= j < i ==> (#[trigger] m[j]).0 != k,
    ensures
        spec_gauge_adjust(m, k, d) == m.take(i) + seq![
            (k, crate::decimal::spec_sat_add_i64(m[i].1, d)),
        ] + m.skip(i + 1),
    decreases m.len(),
{
    if i == 0 {
        assert(spec_gauge_adjust(m, k, d) =~= m.take(0) + seq![
            (k, crate::decimal::spec_sat_add_i64(m[0].1, d)),
        ] + m.skip(1));
    } else {
        lemma_gauge_adjust_at(m.drop_first(), k, d, i - 1);
        assert(m.drop_first().take(i - 1) =~= m.take(i).drop_first());
        assert(m.drop_first().skip(i) =~= m.skip(i + 1));
        assert(m.drop_first()[i - 1] == m[i]);
        assert(spec_gauge_adjust(m, k, d) =~= m.take(i) + seq![
            (k, crate::decimal::spec_sat_add_i64(m[i].1, d)),
        ] + m.skip(i + 1));
    }
}

proof fn lemma_gauge_adjust_missing(m: Seq<(MetricKeyView, int)>, k: MetricKeyView, d: int)
    requires
        forall|j: int| 0 <= j < m.len() ==> (#[trigger] m[j]).0 != k,
    ensures
        spec_gauge_adjust(m, k, d) == m.push((k, crate::decimal::spec_sat_add_i64(0, d))),
    decreases m.len(),
{
    if m.len() == 0 {
        assert(spec_gauge_adjust(m, k, d) =~= m.push((k, crate::decimal::spec_sat_add_i64(0, d))));
    } else {
        lemma_gauge_adjust_missing(m.drop_first(), k, d);
        assert(spec_gauge_adjust(m, k, d) =~= m.push((k, crate::decimal::spec_sat_add_i64(0, d))));
    }
}

proof fn lemma_hist_append_at(
    m: Seq<(MetricKeyView, Seq<(Decimal, i64)>)>,
    k: MetricKeyView,
    s: (Decimal, i64),
    i: int,
)
    requires
        0 <= i < m.len(),
        m[i].0 == k,
        forall|j: int| 0 <= j < i ==> (#[trigger] m[j]).0 != k,
    ensures
        spec_hist_append(m, k, s) == m.take(i) + seq![(k, m[i].1.push(s))] + m.skip(i + 1),
    decreases m.len(),
{
    if i == 0 {
        assert(spec_hist_append(m, k, s) =~= m.take(0) + seq![(k, m[0].1.push(s))] + m.skip(1));
    } else {
        lemma_hist_append_at(m.drop_first(), k, s, i - 1);
        assert(m.drop_first().take(i - 1) =~= m.take(i).drop_first());
        assert(m.drop_first().skip(i) =~= m.skip(i + 1));
        assert(m.drop_first()[i - 1] == m[i]);
        assert(spec_hist_append(m, k, s) =~= m.take(i) + seq![(k, m[i].1.push(s))] + m.skip(i + 1));
    }
}

proof fn lemma_hist_append_missing(
    m: Seq<(MetricKeyView, Seq<(Decimal, i64)>)>,
    k: MetricKeyView,
    s: (Decimal, i64),
)
    requires
        forall|j: int| 0 <= j < m.len() ==> (#[trigger] m[j]).0 != k,
    ensures
        spec_hist_append(m, k, s) == m.push((k, seq![s])),
    decreases m.len(),
{
    if m.len() == 0 {
        assert(spec_hist_append(m, k, s) =~= m.push((k, seq![s])));
    } else {
        lemma_hist_append_missing(m.drop_first(), k, s);
        assert(spec_hist_append(m, k, s) =~= m.push((k, seq![s])));
    }
}


/// The counter value under `k`, zero for a missing cell.
pub open spec fn spec_counter_value(m: Seq<(MetricKeyView, int)>, k: MetricKeyView) -> int {
    match model_find(m, k) {
        Some(v) => v,
        None => 0,
    }
}

/// Adding to a counter touches exactly the cell under its key: that
/// cell ends up holding the old value plus the amount, wrapping; a
/// cell appears only when the key had none; every other cell is
/// untouched.
pub proof fn lemma_bump_find(m: Seq<(MetricKeyView, int)>, k: MetricKeyView, a: int)
    ensures
        model_find(spec_bump(m, k, a), k) == Some(
            (spec_counter_value(m, k) + a) % 0x1_0000_0000_0000_0000,
        ),
        spec_bump(m, k, a).len() == (if model_find(m, k) is Some {
            m.len() as int
        } else {
            m.len() + 1int
        }),
        forall|k2: MetricKeyView|
            k2 != k ==> #[trigger] model_find(spec_bump(m, k, a), k2) == model_find(m, k2),
    decreases m.len(),
{
    let w = 0x1_0000_0000_0000_0000;
    let b = spec_bump(m, k, a);
    if m.len() == 0 {
        assert(b =~= seq![(k, a % w)]);
        assert(b[0].0 == k);
        assert forall|k2: MetricKeyView| k2 != k implies #[trigger] model_find(b, k2)
            == model_find(m, k2) by {
            assert(b.drop_first() =~= Seq::<(MetricKeyView, int)>::empty());
            assert(model_find(Seq::<(MetricKeyView, int)>::empty(), k2) is None);
            assert(model_find(b, k2) is None);
            assert(model_find(m, k2) is None);
        }
    } else if m[0].0 == k {
        assert(b =~= seq![(k, (m[0].1 + a) % w)] + m.drop_first());
        assert(b[0].0 == k);
        assert forall|k2: MetricKeyView| k2 != k implies #[trigger] model_find(b, k2)
            == model_find(m, k2) by {
            assert(b.drop_first() =~= m.drop_first());
        }
    } else {
        lemma_bump_find(m.drop_first(), k, a);
        assert(b =~= seq![m[0]] + spec_bump(m.drop_first(), k, a));
        assert(b[0] == m[0]);
        assert(b.drop_first() =~= spec_bump(m.drop_first(), k, a));
        assert(model_find(b, k) == model_find(spec_bump(m.drop_first(), k, a), k));
        assert(spec_counter_value(m, k) == spec_counter_value(m.drop_first(), k));
        assert forall|k2: MetricKeyView| k2 != k implies #[trigger] model_find(b, k2)
            == model_find(m, k2) by {
            if k2 != m[0].0 {
                assert(model_find(b, k2) == model_find(spec_bump(m.drop_first(), k, a), k2));
                assert(model_find(m, k2) == model_find(m.drop_first(), k2));
            }
        }
    }
}

/// Registration is idempotent: a second increment through an equal key
/// lands in the very cell the first created or found — it adds no
/// cell, and the two amounts accumulate together in that one cell.
pub proof fn lemma_idempotent_registration(
    m: Seq<(MetricKeyView, int)>,
    k1: MetricKeyView,
    k2: MetricKeyView,
    a: int,
    b: int,
)
    requires
        k1 == k2,
        0 <= a < 0x1_0000_0000_0000_0000,
        0 <= b < 0x1_0000_0000_0000_0000,
    ensures
        spec_bump(spec_bump(m, k1, a), k2, b).len() == spec_bump(m, k1, a).len(),
        model_find(spec_bump(spec_bump(m, k1, a), k2, b), k1) == Some(
            (spec_counter_value(m, k1) + a + b) % 0x1_0000_0000_0000_0000,
        ),
{
    let w = 0x1_0000_0000_0000_0000;
    lemma_bump_find(m, k1, a);
    lemma_bump_find(spec_bump(m, k1, a), k2, b);
    let v = spec_counter_value(m, k1);
    assert(spec_counter_value(spec_bump(m, k1, a), k1) == (v + a) % w);
    vstd::arithmetic::div_mod::lemma_add_mod_noop(v + a, b, w);
    vstd::arithmetic::div_mod::lemma_small_mod(b as nat, w as nat);
    assert(((v + a) % w + b % w) % w == (v + a + b) % w);
    assert(((v + a) % w + b) % w == (v + a + b) % w);
}


/// The cells after `k` is registered with `default`: an existing cell
/// is untouched, a missing one appears holding the default.
pub open spec fn spec_model_register<T>(
    m: Seq<(MetricKeyView, T)>,
    k: MetricKeyView,
    default: T,
) -> Seq<(MetricKeyView, T)>
    decreases m.len(),
{
    if m.len() == 0 {
        seq![(k, default)]
    } else if m[0].0 == k {
        m
    } else {
        seq![m[0]] + spec_model_register(m.drop_first(), k, default)
    }
}

proof fn lemma_register_at<T>(m: Seq<(MetricKeyView, T)>, k: MetricKeyView, d: T, i: int)
    requires
        0 <= i < m.len(),
        m[i].0 == k,
        forall|j: int| 0 <= j < i ==> (#[trigger] m[j]).0 != k,
    ensures
        spec_model_register(m, k, d) == m,
    decreases m.len(),
{
    if i > 0 {
        lemma_register_at(m.drop_first(), k, d, i - 1);
        assert(spec_model_register(m, k, d) =~= m);
    }
}

proof fn lemma_register_missing<T>(m: Seq<(MetricKeyView, T)>, k: MetricKeyView, d: T)
    requires
        forall|j: int| 0 <= j < m.len() ==> (#[trigger] m[j]).0 != k,
    ensures
        spec_model_register(m, k, d) == m.push((k, d)),
    decreases m.len(),
{
    if m.len() == 0 {
        assert(spec_model_register(m, k, d) =~= m.push((k, d)));
    } else {
        lemma_register_missing(m.drop_first(), k, d);
        assert(spec_model_register(m, k, d) =~= m.push((k, d)));
    }
}

/// Get-or-create is idempotent: registering a key a second time, with
/// any equal key, changes nothing — both calls refer to the one cell
/// the first created or found.
pub proof fn lemma_register_idempotent<T>(
    m: Seq<(MetricKeyView, T)>,
    k1: MetricKeyView,
    k2: MetricKeyView,
    d: T,
)
    requires
        k1 == k2,
    ensures
        spec_model_register(spec_model_register(m, k1, d), k2, d) == spec_model_register(m, k1, d),
    decreases m.len(),
{
    if m.len() == 0 {
        assert(spec_model_register(m, k1, d) =~= seq![(k1, d)]);
    } else if m[0].0 == k1 {
    } else {
        lemma_register_idempotent(m.drop_first(), k1, k2, d);
        let inner = spec_model_register(m.drop_first(), k1, d);
        assert(spec_model_register(m, k1, d) =~= seq![m[0]] + inner);
        assert((seq![m[0]] + inner).drop_first() =~= inner);
        assert(spec_model_register(spec_model_register(m, k1, d), k2, d) =~= seq![m[0]]
            + spec_model_register(inner, k2, d));
    }
}

impl Registry {
    /// Adds `delta` to the gauge under `key`, saturating at the ends
    /// of the range; a cell not seen before starts from zero.
    pub fn increment_gauge(&mut self, key: &MetricKey, delta: Decimal)
        ensures
            gauges_model(final(self).gauges@) == spec_gauge_adjust(
                gauges_model(old(self).gauges@),
                key@,
                delta.units as int,
            ),
            final(self).counters@ == old(self).counters@,
            final(self).histograms@ == old(self).histograms@,
            final(self).counter_registrations@ == old(self).counter_registrations@,
    {
        let n = self.gauges.len();
        let ghost m0 = gauges_model(self.gauges@);
        let mut i: usize = 0;
        let mut found: bool = false;
        while i < n
            invariant_except_break
                i <= n,
                !found,
                n == self.gauges@.len(),
                forall|j: int| 0 <= j < i ==> (#[trigger] self.gauges@[j]).0@ != key@,
            ensures
                forall|j: int| 0 <= j < i ==> (#[trigger] self.gauges@[j]).0@ != key@,
                found ==> i < n && self.gauges@[i as int].0@ == key@,
                !found ==> i >= n && forall|j: int|
                    0 <= j < n ==> (#[trigger] self.gauges@[j]).0@ != key@,
            decreases n - i,
        {
            if self.gauges[i].0.eq_key(key) {
                found = true;
                break;
            }
            i = i + 1;
        }
        if found {
            let old_val = self.gauges[i].1;
            let new_val = Decimal { units: crate::decimal::sat_add_i64(old_val.units, delta.units) };
            let cell = self.gauges.remove(i);
            self.gauges.insert(i, (cell.0, new_val));
            proof {
                assert forall|j: int| 0 <= j < i implies (#[trigger] m0[j]).0 != key@ by {
                    assert(m0[j] == (old(self).gauges@[j].0@, old(self).gauges@[j].1.units as int));
                }
                assert(m0[i as int] == (old(self).gauges@[i as int].0@, old(self).gauges@[i as int].1.units as int));
                lemma_gauge_adjust_at(m0, key@, delta.units as int, i as int);
                assert(gauges_model(self.gauges@) =~~= spec_gauge_adjust(
                    m0,
                    key@,
                    delta.units as int,
                ));
            }
        } else {
            let new_val = Decimal { units: crate::decimal::sat_add_i64(0, delta.units) };
            proof {
                assert forall|j: int| 0 <= j < m0.len() implies (#[trigger] m0[j]).0 != key@ by {
                    assert(m0[j] == (old(self).gauges@[j].0@, old(self).gauges@[j].1.units as int));
                }
                lemma_gauge_adjust_missing(m0, key@, delta.units as int);
            }
            self.gauges.push((key.clone_key(), new_val));
            proof {
                assert(gauges_model(self.gauges@) =~~= spec_gauge_adjust(
                    m0,
                    key@,
                    delta.units as int,
                ));
            }
        }
    }

    /// Subtracts `delta` from the gauge under `key`, saturating at the
    /// ends of the range; a cell not seen before starts from zero.
    pub fn decrement_gauge(&mut self, key: &MetricKey, delta: Decimal)
        ensures
            gauges_model(final(self).gauges@) == spec_gauge_adjust(
                gauges_model(old(self).gauges@),
                key@,
                -(delta.units as int),
            ),
            final(self).counters@ == old(self).counters@,
            final(self).histograms@ == old(self).histograms@,
            final(self).counter_registrations@ == old(self).counter_registrations@,
    {
        let n = self.gauges.len();
        let ghost m0 = gauges_model(self.gauges@);
        let mut i: usize = 0;
        let mut found: bool = false;
        while i < n
            invariant_except_break
                i <= n,
                !found,
                n == self.gauges@.len(),
                forall|j: int| 0 <= j < i ==> (#[trigger] self.gauges@[j]).0@ != key@,
            ensures
                forall|j: int| 0 <= j < i ==> (#[trigger] self.gauges@[j]).0@ != key@,
                found ==> i < n && self.gauges@[i as int].0@ == key@,
                !found ==> i >= n && forall|j: int|
                    0 <= j < n ==> (#[trigger] self.gauges@[j]).0@ != key@,
            decreases n - i,
        {
            if self.gauges[i].0.eq_key(key) {
                found = true;
                break;
            }
            i = i + 1;
        }
        if found {
            let old_val = self.gauges[i].1;
            let new_val = Decimal { units: crate::decimal::sat_sub_i64(old_val.units, delta.units) };
            let cell = self.gauges.remove(i);
            self.gauges.insert(i, (cell.0, new_val));
            proof {
                assert forall|j: int| 0 <= j < i implies (#[trigger] m0[j]).0 != key@ by {
                    assert(m0[j] == (old(self).gauges@[j].0@, old(self).gauges@[j].1.units as int));
                }
                assert(m0[i as int] == (old(self).gauges@[i as int].0@, old(self).gauges@[i as int].1.units as int));
                lemma_gauge_adjust_at(m0, key@, -(delta.units as int), i as int);
                assert(gauges_model(self.gauges@) =~~= spec_gauge_adjust(
                    m0,
                    key@,
                    -(delta.units as int),
                ));
            }
        } else {
            let new_val = Decimal { units: crate::decimal::sat_sub_i64(0, delta.units) };
            proof {
                assert forall|j: int| 0 <= j < m0.len() implies (#[trigger] m0[j]).0 != key@ by {
                    assert(m0[j] == (old(self).gauges@[j].0@, old(self).gauges@[j].1.units as int));
                }
                lemma_gauge_adjust_missing(m0, key@, -(delta.units as int));
            }
            self.gauges.push((key.clone_key(), new_val));
            proof {
                assert(gauges_model(self.gauges@) =~~= spec_gauge_adjust(
                    m0,
                    key@,
                    -(delta.units as int),
                ));
            }
        }
    }

    /// Ensures a counter cell exists under `key`; a key not seen
    /// before gets a zero cell and joins the registration set, so the
    /// next render emits its zero point.
    pub fn register_counter(&mut self, key: &MetricKey)
        ensures
            counters_model(final(self).counters@) == spec_model_register(
                counters_model(old(self).counters@),
                key@,
                0int,
            ),
            final(self).gauges@ == old(self).gauges@,
            final(self).histograms@ == old(self).histograms@,
            regs_model(final(self).counter_registrations@) == (
            if model_find(counters_model(old(self).counters@), key@) is Some || keys_contain(
                regs_model(old(self).counter_registrations@),
                key@,
            ) {
                regs_model(old(self).counter_registrations@)
            } else {
                regs_model(old(self).counter_registrations@).push(key@)
            }),
    {
        let n = self.counters.len();
        let ghost m0 = counters_model(self.counters@);
        let mut i: usize = 0;
        let mut found: bool = false;
        while i < n
            invariant_except_break
                i <= n,
                !found,
                n == self.counters@.len(),
                forall|j: int| 0 <= j < i ==> (#[trigger] self.counters@[j]).0@ != key@,
            ensures
                forall|j: int| 0 <= j < i ==> (#[trigger] self.counters@[j]).0@ != key@,
                found ==> i < n && self.counters@[i as int].0@ == key@,
                !found ==> i >= n && forall|j: int|
                    0 <= j < n ==> (#[trigger] self.counters@[j]).0@ != key@,
            decreases n - i,
        {
            if self.counters[i].0.eq_key(key) {
                found = true;
                break;
            }
            i = i + 1;
        }
        if found {
            proof {
                assert forall|j: int| 0 <= j < i implies (#[trigger] m0[j]).0 != key@ by {
                    assert(m0[j] == (old(self).counters@[j].0@, old(self).counters@[j].1 as int));
                }
                assert(m0[i as int] == (old(self).counters@[i as int].0@, old(self).counters@[i as int].1 as int));
                lemma_register_at(m0, key@, 0int, i as int);
                lemma_model_find_at(m0, key@, i as int);
            }
        } else {
            proof {
                assert forall|j: int| 0 <= j < m0.len() implies (#[trigger] m0[j]).0 != key@ by {
                    assert(m0[j] == (old(self).counters@[j].0@, old(self).counters@[j].1 as int));
                }
                lemma_model_find_missing(m0, key@);
                lemma_register_missing(m0, key@, 0int);
            }
            self.counters.push((key.clone_key(), 0));
            proof {
                assert(counters_model(self.counters@) =~~= m0.push((key@, 0int)));
            }
            let already = self.contains_registration(key);
            if !already {
                self.counter_registrations.push(key.clone_key());
                proof {
                    assert(regs_model(self.counter_registrations@) =~~= regs_model(
                        old(self).counter_registrations@,
                    ).push(key@));
                }
            }
        }
    }

    /// Ensures a gauge cell exists under `key`, holding zero until it
    /// is first set.
    pub fn register_gauge(&mut self, key: &MetricKey)
        ensures
            gauges_model(final(self).gauges@) == spec_model_register(
                gauges_model(old(self).gauges@),
                key@,
                0int,
            ),
            final(self).counters@ == old(self).counters@,
            final(self).histograms@ == old(self).histograms@,
            final(self).counter_registrations@ == old(self).counter_registrations@,
    {
        let n = self.gauges.len();
        let ghost m0 = gauges_model(self.gauges@);
        let mut i: usize = 0;
        let mut found: bool = false;
        while i < n
            invariant_except_break
                i <= n,
                !found,
                n == self.gauges@.len(),
                forall|j: int| 0 <= j < i ==> (#[trigger] self.gauges@[j]).0@ != key@,
            ensures
                forall|j: int| 0 <= j < i ==> (#[trigger] self.gauges@[j]).0@ != key@,
                found ==> i < n && self.gauges@[i as int].0@ == key@,
                !found ==> i >= n && forall|j: int|
                    0 <= j < n ==> (#[trigger] self.gauges@[j]).0@ != key@,
            decreases n - i,
        {
            if self.gauges[i].0.eq_key(key) {
                found = true;
                break;
            }
            i = i + 1;
        }
        if found {
            proof {
                assert forall|j: int| 0 <= j < i implies (#[trigger] m0[j]).0 != key@ by {
                    assert(m0[j] == (old(self).gauges@[j].0@, old(self).gauges@[j].1.units as int));
                }
                assert(m0[i as int] == (old(self).gauges@[i as int].0@, old(self).gauges@[i as int].1.units as int));
                lemma_register_at(m0, key@, 0int, i as int);
            }
        } else {
            proof {
                assert forall|j: int| 0 <= j < m0.len() implies (#[trigger] m0[j]).0 != key@ by {
                    assert(m0[j] == (old(self).gauges@[j].0@, old(self).gauges@[j].1.units as int));
                }
                lemma_register_missing(m0, key@, 0int);
            }
            self.gauges.push((key.clone_key(), Decimal { units: 0 }));
            proof {
                assert(gauges_model(self.gauges@) =~~= m0.push((key@, 0int)));
            }
        }
    }

    /// Ensures a histogram cell exists under `key`, with an empty
    /// window until samples arrive.
    pub fn register_histogram(&mut self, key: &MetricKey)
        ensures
            hists_model(final(self).histograms@) == spec_model_register(
                hists_model(old(self).histograms@),
                key@,
                Seq::<(Decimal, i64)>::empty(),
            ),
            final(self).counters@ == old(self).counters@,
            final(self).gauges@ == old(self).gauges@,
            final(self).counter_registrations@ == old(self).counter_registrations@,
    {
        let n = self.histograms.len();
        let ghost m0 = hists_model(self.histograms@);
        let mut i: usize = 0;
        let mut found: bool = false;
        while i < n
            invariant_except_break
                i <= n,
                !found,
                n == self.histograms@.len(),
                forall|j: int| 0 <= j < i ==> (#[trigger] self.histograms@[j]).0@ != key@,
            ensures
                forall|j: int| 0 <= j < i ==> (#[trigger] self.histograms@[j]).0@ != key@,
                found ==> i < n && self.histograms@[i as int].0@ == key@,
                !found ==> i >= n && forall|j: int|
                    0 <= j < n ==> (#[trigger] self.histograms@[j]).0@ != key@,
            decreases n - i,
        {
            if self.histograms[i].0.eq_key(key) {
                found = true;
                break;
            }
            i = i + 1;
        }
        if found {
            proof {
                assert forall|j: int| 0 <= j < i implies (#[trigger] m0[j]).0 != key@ by {
                    assert(m0[j] == (old(self).histograms@[j].0@, old(self).histograms@[j].1@));
                }
                assert(m0[i as int] == (old(self).histograms@[i as int].0@, old(self).histograms@[i as int].1@));
                lemma_register_at(m0, key@, Seq::<(Decimal, i64)>::empty(), i as int);
            }
        } else {
            proof {
                assert forall|j: int| 0 <= j < m0.len() implies (#[trigger] m0[j]).0 != key@ by {
                    assert(m0[j] == (old(self).histograms@[j].0@, old(self).histograms@[j].1@));
                }
                lemma_register_missing(m0, key@, Seq::<(Decimal, i64)>::empty());
            }
            self.histograms.push((key.clone_key(), Vec::new()));
            proof {
                assert(hists_model(self.histograms@) =~~= m0.push(
                    (key@, Seq::<(Decimal, i64)>::empty()),
                ));
            }
        }
    }
}

} // verus!

//! The aggregation handle: registry state, global context and render.

use vstd::prelude::*;
use vstd::string::StringExecFns;

use crate::data::{clone_data, clone_tags, spec_metric_line, InfluxMetric, MetricData, MetricDataView};
use crate::decimal::Decimal;
use crate::distribution::{
    spec_count_le, spec_sum_sat, Histogram, Quantile, QuantileView, Summary,
};
use crate::decimal::spec_two_places_chars;
use crate::distribution::{Distribution, DistributionBuilder};
use crate::registry::{
    counters_model, gauges_model, hists_model, regs_model, MetricKey, MetricKeyView, Registry,
};
use crate::text::{spec_join_with, spec_sort_lines};
use crate::text::{
    assoc_set, spec_assoc_has, spec_assoc_set, spec_starts_with, str_starts_with, str_suffix_from,
};

verus! {

/// The label prefix that turns a label into an explicit field.
pub open spec fn field_prefix() -> Seq<char> {
    seq!['f', 'i', 'e', 'l', 'd', ':']
}

/// The label prefix that turns a label into an explicit tag.
pub open spec fn tag_prefix() -> Seq<char> {
    seq!['t', 'a', 'g', ':']
}

/// The key of the synthetic value field of counter and gauge points.
pub open spec fn value_key() -> Seq<char> {
    seq!['v', 'a', 'l', 'u', 'e']
}

/// Folds per-call labels into the accumulated tags and fields: a label
/// with the field prefix becomes a text field and one with the tag
/// prefix a tag, both overriding anything under the same key; a label
/// with neither prefix becomes a tag under its own name, but yields to
/// a global tag already claiming the key — explicit prefixed labels
/// outrank the global context, which outranks implicit tags.
pub open spec fn spec_parse_labels_from(
    globals: Seq<(Seq<char>, Seq<char>)>,
    tags: Seq<(Seq<char>, Seq<char>)>,
    fields: Seq<(Seq<char>, MetricDataView)>,
    labels: Seq<(Seq<char>, Seq<char>)>,
) -> (Seq<(Seq<char>, Seq<char>)>, Seq<(Seq<char>, MetricDataView)>)
    decreases labels.len(),
{
    if labels.len() == 0 {
        (tags, fields)
    } else {
        let k = labels[0].0;
        let v = labels[0].1;
        if spec_starts_with(k, field_prefix()) {
            spec_parse_labels_from(
                globals,
                tags,
                spec_assoc_set(fields, k.skip(6), MetricDataView::Str(v)),
                labels.drop_first(),
            )
        } else if spec_starts_with(k, tag_prefix()) {
            spec_parse_labels_from(
                globals,
                spec_assoc_set(tags, k.skip(4), v),
                fields,
                labels.drop_first(),
            )
        } else if spec_assoc_has(globals, k) {
            spec_parse_labels_from(globals, tags, fields, labels.drop_first())
        } else {
            spec_parse_labels_from(
                globals,
                spec_assoc_set(tags, k, v),
                fields,
                labels.drop_first(),
            )
        }
    }
}

/// The global context merged with one call's labels.
pub open spec fn spec_parse_labels(
    tags: Seq<(Seq<char>, Seq<char>)>,
    fields: Seq<(Seq<char>, MetricDataView)>,
    labels: Seq<(Seq<char>, Seq<char>)>,
) -> (Seq<(Seq<char>, Seq<char>)>, Seq<(Seq<char>, MetricDataView)>) {
    spec_parse_labels_from(tags, tags, fields, labels)
}

/// Merges global context and per-call labels into one point's tags and
/// fields: prefixed labels override the global context; an unprefixed
/// label yields to a global tag of the same key.
pub fn parse_labels(
    global_tags: &Vec<(String, String)>,
    global_fields: &Vec<(String, MetricData)>,
    labels: &Vec<(String, String)>,
) -> (r: (Vec<(String, String)>, Vec<(String, MetricData)>))
    ensures
        r.0.deep_view() == spec_parse_labels(
            global_tags.deep_view(),
            global_fields.deep_view(),
            labels.deep_view(),
        ).0,
        r.1.deep_view() == spec_parse_labels(
            global_tags.deep_view(),
            global_fields.deep_view(),
            labels.deep_view(),
        ).1,
{
    let mut tags = clone_tags(global_tags);
    let mut fields = crate::data::clone_fields(global_fields);
    let ghost gt0 = global_tags.deep_view();
    let ghost gf0 = global_fields.deep_view();
    let ghost ld = labels.deep_view();
    let n = labels.len();
    let mut i: usize = 0;
    proof {
        assert(ld.skip(0) =~= ld);
    }
    while i < n
        invariant
            i <= n,
            n == labels@.len(),
            ld == labels.deep_view(),
            gt0 == global_tags.deep_view(),
            spec_parse_labels_from(gt0, gt0, gf0, ld) == spec_parse_labels_from(
                gt0,
                tags.deep_view(),
                fields.deep_view(),
                ld.skip(i as int),
            ),
        decreases n - i,
    {
        let k = &labels[i].0;
        let v = labels[i].1.clone();
        let ghost tags_pre = tags.deep_view();
        let ghost fields_pre = fields.deep_view();
        proof {
            reveal_strlit("field:");
            reveal_strlit("tag:");
            assert(("field:")@ =~= field_prefix());
            assert(("tag:")@ =~= tag_prefix());
            assert(ld.skip(i as int)[0] == ld[i as int]);
            assert(ld[i as int] == (labels@[i as int].0@, labels@[i as int].1@));
            assert(ld.skip(i as int).drop_first() =~= ld.skip(i + 1 as int));
        }
        if str_starts_with(k.as_str(), "field:") {
            let stripped = str_suffix_from(k.as_str(), 6);
            assoc_set(&mut fields, stripped, MetricData::String(v));
            proof {
                assert(fields.deep_view() == spec_assoc_set(
                    fields_pre,
                    ld[i as int].0.skip(6),
                    MetricDataView::Str(ld[i as int].1),
                ));
            }
        } else if str_starts_with(k.as_str(), "tag:") {
            let stripped = str_suffix_from(k.as_str(), 4);
            assoc_set(&mut tags, stripped, v);
        } else if !crate::text::assoc_has(global_tags, k.as_str()) {
            let kc = k.clone();
            assoc_set(&mut tags, kc, v);
        }
        i = i + 1;
    }
    proof {
        assert(ld.skip(n as int) =~= Seq::<(Seq<char>, Seq<char>)>::empty());
    }
    (tags, fields)
}

/// The line of one counter, gauge or zero-registration point: the
/// key's labels merged into the global context, the value under the
/// synthetic `value` field, at the given timestamp.
pub open spec fn spec_entry_line(
    k: MetricKeyView,
    v: MetricDataView,
    gt: Seq<(Seq<char>, Seq<char>)>,
    gf: Seq<(Seq<char>, MetricDataView)>,
    ts: int,
) -> Seq<char> {
    let parsed = spec_parse_labels(gt, gf, k.labels);
    spec_metric_line(k.name, parsed.0, spec_assoc_set(parsed.1, value_key(), v), ts)
}

/// Builds and encodes one counter, gauge or zero-registration point.
pub fn entry_line(
    key: &MetricKey,
    value: MetricData,
    global_tags: &Vec<(String, String)>,
    global_fields: &Vec<(String, MetricData)>,
    ts: i64,
) -> (line: String)
    ensures
        line@ == spec_entry_line(
            key@,
            value@,
            global_tags.deep_view(),
            global_fields.deep_view(),
            ts as int,
        ),
{
    let ghost vv = value@;
    let (tags, mut fields) = parse_labels(global_tags, global_fields, &key.labels);
    let value_name = String::from_str("value");
    proof {
        reveal_strlit("value");
        assert(("value")@ =~= value_key());
    }
    assoc_set(&mut fields, value_name, value);
    let metric = InfluxMetric { name: key.name.clone(), timestamp: ts, fields, tags };
    metric.encode()
}


/// The key of the sum field of distribution points.
pub open spec fn sum_key() -> Seq<char> {
    seq!['s', 'u', 'm']
}

/// The key of the count field of distribution points.
pub open spec fn count_key() -> Seq<char> {
    seq!['c', 'o', 'u', 'n', 't']
}

/// Adds one field per bucket boundary, from `i` on: the boundary to
/// two decimal places as the key, the count of samples at or below it
/// as the value.
pub open spec fn spec_bound_fields(
    f: Seq<(Seq<char>, MetricDataView)>,
    bounds: Seq<Decimal>,
    samples: Seq<(Decimal, i64)>,
    i: int,
) -> Seq<(Seq<char>, MetricDataView)>
    decreases bounds.len() - i,
{
    if i < 0 || i >= bounds.len() {
        f
    } else {
        spec_bound_fields(
            spec_assoc_set(
                f,
                spec_two_places_chars(bounds[i].units as int),
                MetricDataView::UInteger(spec_count_le(samples, bounds[i].units as int) as int),
            ),
            bounds,
            samples,
            i + 1,
        )
    }
}

/// The line of one histogram point: merged context, then the sum, the
/// count and one cumulative count per boundary, at the given time.
pub open spec fn spec_hist_line(
    k: MetricKeyView,
    bounds: Seq<Decimal>,
    samples: Seq<(Decimal, i64)>,
    gt: Seq<(Seq<char>, Seq<char>)>,
    gf: Seq<(Seq<char>, MetricDataView)>,
    now: int,
) -> Seq<char> {
    let parsed = spec_parse_labels(gt, gf, k.labels);
    let f1 = spec_assoc_set(parsed.1, sum_key(), MetricDataView::Float(spec_sum_sat(samples, 0)));
    let f2 = spec_assoc_set(f1, count_key(), MetricDataView::UInteger(samples.len() as int));
    let f3 = spec_bound_fields(f2, bounds, samples, 0);
    spec_metric_line(k.name, parsed.0, f3, now)
}

/// Builds and encodes one histogram point from a filled histogram.
fn hist_line(
    key: &MetricKey,
    h: &Histogram,
    Ghost(samples): Ghost<Seq<(Decimal, i64)>>,
    global_tags: &Vec<(String, String)>,
    global_fields: &Vec<(String, MetricData)>,
    now: i64,
) -> (line: String)
    requires
        h.wf(),
        h.count == samples.len(),
        h.sum_units == spec_sum_sat(samples, 0),
        forall|i: int|
            0 <= i < h.counts@.len() ==> (#[trigger] h.counts@[i]) == spec_count_le(
                samples,
                h.bounds@[i].units as int,
            ),
    ensures
        line@ == spec_hist_line(
            key@,
            h.bounds@,
            samples,
            global_tags.deep_view(),
            global_fields.deep_view(),
            now as int,
        ),
{
    let (tags, mut fields) = parse_labels(global_tags, global_fields, &key.labels);
    proof {
        reveal_strlit("sum");
        reveal_strlit("count");
        assert(("sum")@ =~= sum_key());
        assert(("count")@ =~= count_key());
    }
    let sum_name = String::from_str("sum");
    assoc_set(&mut fields, sum_name, MetricData::Float(Decimal { units: h.sum_units }));
    let count_name = String::from_str("count");
    assoc_set(&mut fields, count_name, MetricData::UInteger(h.count));
    let ghost f2 = fields.deep_view();
    let nb = h.bounds.len();
    let mut i: usize = 0;
    while i < nb
        invariant
            i <= nb,
            nb == h.bounds@.len(),
            h.counts@.len() == nb,
            forall|j: int|
                0 <= j < nb ==> (#[trigger] h.counts@[j]) == spec_count_le(
                    samples,
                    h.bounds@[j].units as int,
                ),
            spec_bound_fields(f2, h.bounds@, samples, 0) == spec_bound_fields(
                fields.deep_view(),
                h.bounds@,
                samples,
                i as int,
            ),
        decreases nb - i,
    {
        let bname = crate::text::chars_to_string(&h.bounds[i].two_places_chars());
        let cnt = h.counts[i];
        assoc_set(&mut fields, bname, MetricData::UInteger(cnt));
        i = i + 1;
    }
    let metric = InfluxMetric { name: key.name.clone(), timestamp: now, fields, tags };
    metric.encode()
}

/// The estimate for quantile `j` of window `row`: the supplied text,
/// or `0` where the estimator answered nothing.
pub open spec fn spec_estimate_text(row: Seq<Option<Seq<char>>>, j: int) -> Seq<char> {
    if 0 <= j < row.len() {
        match row[j] {
            Some(t) => t,
            None => seq!['0'],
        }
    } else {
        seq!['0']
    }
}

/// Adds one field per configured quantile, from `i` on: the quantile's
/// label as the key, the estimator's reported text as the value.
pub open spec fn spec_quantile_fields(
    f: Seq<(Seq<char>, MetricDataView)>,
    quantiles: Seq<QuantileView>,
    row: Seq<Option<Seq<char>>>,
    i: int,
) -> Seq<(Seq<char>, MetricDataView)>
    decreases quantiles.len() - i,
{
    if i < 0 || i >= quantiles.len() {
        f
    } else {
        spec_quantile_fields(
            spec_assoc_set(
                f,
                quantiles[i].label,
                MetricDataView::Numeric(spec_estimate_text(row, i)),
            ),
            quantiles,
            row,
            i + 1,
        )
    }
}

/// The line of one summary point: merged context, then the sum, the
/// count, and one field per configured quantile carrying the supplied
/// estimate, at the given time. The estimates come from the outside
/// quantile estimator; a missing one defaults to zero.
pub open spec fn spec_summary_line(
    k: MetricKeyView,
    quantiles: Seq<QuantileView>,
    row: Seq<Option<Seq<char>>>,
    count: int,
    sum_units: int,
    gt: Seq<(Seq<char>, Seq<char>)>,
    gf: Seq<(Seq<char>, MetricDataView)>,
    now: int,
) -> Seq<char> {
    let parsed = spec_parse_labels(gt, gf, k.labels);
    let f1 = spec_assoc_set(parsed.1, sum_key(), MetricDataView::Float(sum_units));
    let f2 = spec_assoc_set(f1, count_key(), MetricDataView::UInteger(count));
    let f3 = spec_quantile_fields(f2, quantiles, row, 0);
    spec_metric_line(k.name, parsed.0, f3, now)
}

/// Builds and encodes one summary point from a drained window's count
/// and sum and the estimator's reported quantile values.
fn summary_line(
    key: &MetricKey,
    count: u64,
    sum_units: i64,
    quantiles: &Vec<Quantile>,
    row: &Vec<Option<String>>,
    global_tags: &Vec<(String, String)>,
    global_fields: &Vec<(String, MetricData)>,
    now: i64,
) -> (line: String)
    ensures
        line@ == spec_summary_line(
            key@,
            quantiles.deep_view(),
            row.deep_view(),
            count as int,
            sum_units as int,
            global_tags.deep_view(),
            global_fields.deep_view(),
            now as int,
        ),
{
    let ghost qv = quantiles.deep_view();
    let ghost rv = row.deep_view();
    let (tags, mut fields) = parse_labels(global_tags, global_fields, &key.labels);
    proof {
        reveal_strlit("sum");
        reveal_strlit("count");
        reveal_strlit("0");
        assert(("sum")@ =~= sum_key());
        assert(("count")@ =~= count_key());
        assert(("0")@ =~= seq!['0']);
    }
    let sum_name = String::from_str("sum");
    assoc_set(&mut fields, sum_name, MetricData::Float(Decimal { units: sum_units }));
    let count_name = String::from_str("count");
    assoc_set(&mut fields, count_name, MetricData::UInteger(count));
    let ghost f2 = fields.deep_view();
    let nq = quantiles.len();
    let mut i: usize = 0;
    while i < nq
        invariant
            i <= nq,
            nq == quantiles@.len(),
            qv == quantiles.deep_view(),
            rv == row.deep_view(),
            spec_quantile_fields(f2, qv, rv, 0) == spec_quantile_fields(
                fields.deep_view(),
                qv,
                rv,
                i as int,
            ),
        decreases nq - i,
    {
        let q = &quantiles[i];
        let label = q.label.clone();
        let value = if i < row.len() {
            match &row[i] {
                Some(t) => MetricData::Numeric(t.clone()),
                None => MetricData::Numeric(String::from_str("0")),
            }
        } else {
            MetricData::Numeric(String::from_str("0"))
        };
        proof {
            reveal_strlit("0");
            assert(("0")@ =~= seq!['0']);
            assert(qv[i as int] == quantiles@[i as int]@);
            if i < row@.len() {
                assert(rv[i as int] == (match row@[i as int] {
                    Some(t) => Some(t@),
                    None => None::<Seq<char>>,
                }));
            }
            assert(value@ == MetricDataView::Numeric(spec_estimate_text(rv, i as int)));
        }
        assoc_set(&mut fields, label, value);
        i = i + 1;
    }
    let metric = InfluxMetric { name: key.name.clone(), timestamp: now, fields, tags };
    metric.encode()
}


/// The (key, value) entries as mathematical pairs.
pub open spec fn entries_model(s: Seq<(MetricKey, MetricData)>) -> Seq<
    (MetricKeyView, MetricDataView),
> {
    s.map_values(|p: (MetricKey, MetricData)| (p.0@, p.1@))
}

/// The counter, gauge and zero-registration entries of one render, in
/// read order: gauges, then fresh registrations at zero, then counters.
pub open spec fn spec_render_entries(
    g: Seq<(MetricKeyView, int)>,
    r: Seq<MetricKeyView>,
    c: Seq<(MetricKeyView, int)>,
) -> Seq<(MetricKeyView, MetricDataView)> {
    g.map_values(|p: (MetricKeyView, int)| (p.0, MetricDataView::Float(p.1)))
        + r.map_values(|k: MetricKeyView| (k, MetricDataView::Integer(0)))
        + c.map_values(|p: (MetricKeyView, int)| (p.0, MetricDataView::UInteger(p.1)))
}

/// How many entries from `j` on carry the key `k`.
pub open spec fn spec_count_key_from(
    entries: Seq<(MetricKeyView, MetricDataView)>,
    k: MetricKeyView,
    j: int,
) -> int
    decreases entries.len() - j,
{
    if j < 0 || j >= entries.len() {
        0
    } else {
        (if entries[j].0 == k {
            1int
        } else {
            0int
        }) + spec_count_key_from(entries, k, j + 1)
    }
}

/// The timestamp `dups` milliseconds before `now`, clamped at the
/// lowest representable time.
pub open spec fn spec_backdate(now: int, dups: int) -> int {
    let t = now - dups * 1_000_000;
    if t < i64::MIN {
        i64::MIN as int
    } else {
        t
    }
}

/// Backdates `now` by one millisecond per duplicate.
fn backdate(now: i64, dups: usize) -> (ts: i64)
    ensures
        ts as int == spec_backdate(now as int, dups as int),
{
    let delta: i128 = (dups as i128) * 1_000_000;
    let wide: i128 = (now as i128) - delta;
    if wide < i64::MIN as i128 {
        i64::MIN
    } else {
        wide as i64
    }
}

/// Counts the later entries sharing the key of entry `i`.
fn count_dups_after(entries: &Vec<(MetricKey, MetricData)>, i: usize) -> (c: usize)
    requires
        i < entries@.len(),
    ensures
        c == spec_count_key_from(
            entries_model(entries@),
            entries_model(entries@)[i as int].0,
            i + 1,
        ),
{
    let ghost em = entries_model(entries@);
    let n = entries.len();
    let mut c: usize = 0;
    let mut j: usize = i + 1;
    proof {
        assert(em[i as int] == (entries@[i as int].0@, entries@[i as int].1@));
    }
    while j < n
        invariant
            i < j <= n,
            n == entries@.len(),
            em == entries_model(entries@),
            c <= j - i - 1,
            em[i as int].0 == entries@[i as int].0@,
            spec_count_key_from(em, em[i as int].0, i + 1) == c + spec_count_key_from(
                em,
                em[i as int].0,
                j as int,
            ),
        decreases n - j,
    {
        proof {
            assert(em[j as int] == (entries@[j as int].0@, entries@[j as int].1@));
        }
        let eq = entries[j].0.eq_key(&entries[i].0);
        if eq {
            c = c + 1;
        }
        j = j + 1;
    }
    c
}

/// The lines of the counter, gauge and zero-registration points: each
/// entry under the synthetic value field, backdated one millisecond
/// per later entry with the same key, so duplicates stay distinct.
pub open spec fn spec_entry_lines(
    entries: Seq<(MetricKeyView, MetricDataView)>,
    gt: Seq<(Seq<char>, Seq<char>)>,
    gf: Seq<(Seq<char>, MetricDataView)>,
    now: int,
) -> Seq<Seq<char>> {
    Seq::new(
        entries.len(),
        |i: int|
            spec_entry_line(
                entries[i].0,
                entries[i].1,
                gt,
                gf,
                spec_backdate(now, spec_count_key_from(entries, entries[i].0, i + 1)),
            ),
    )
}

/// The lines of the histogram-mode points, one cell at a time: a cell
/// whose name has configured boundaries yields a histogram point; a
/// summary-mode cell yields no line here — its window goes to the
/// outside quantile estimator first.
pub open spec fn spec_hist_mode_lines(
    h: Seq<(MetricKeyView, Seq<(Decimal, i64)>)>,
    b: DistributionBuilder,
    gt: Seq<(Seq<char>, Seq<char>)>,
    gf: Seq<(Seq<char>, MetricDataView)>,
    now: int,
) -> Seq<Seq<char>>
    decreases h.len(),
{
    if h.len() == 0 {
        Seq::empty()
    } else {
        let rest = spec_hist_mode_lines(h.drop_first(), b, gt, gf, now);
        match b.spec_decide(h[0].0.name) {
            Some(bounds) => seq![spec_hist_line(h[0].0, bounds, h[0].1, gt, gf, now)] + rest,
            None => rest,
        }
    }
}

/// The summary windows of one render, in cell order: for each
/// summary-mode cell with a non-empty window, its key, its sample
/// values, and their saturating sum. An empty window yields no entry,
/// which suppresses its point for the cycle.
pub open spec fn spec_summary_windows(
    h: Seq<(MetricKeyView, Seq<(Decimal, i64)>)>,
    b: DistributionBuilder,
) -> Seq<(MetricKeyView, Seq<Decimal>, int)>
    decreases h.len(),
{
    if h.len() == 0 {
        Seq::empty()
    } else {
        let rest = spec_summary_windows(h.drop_first(), b);
        match b.spec_decide(h[0].0.name) {
            Some(_) => rest,
            None => if h[0].1.len() == 0 {
                rest
            } else {
                seq![
                    (h[0].0, h[0].1.map_values(|p: (Decimal, i64)| p.0), spec_sum_sat(h[0].1, 0)),
                ] + rest
            },
        }
    }
}

/// Every line one render produces before summary estimation: the
/// counter, gauge and zero-registration points, then the
/// histogram-mode points.
pub open spec fn spec_nonsummary_lines(
    g: Seq<(MetricKeyView, int)>,
    r: Seq<MetricKeyView>,
    c: Seq<(MetricKeyView, int)>,
    h: Seq<(MetricKeyView, Seq<(Decimal, i64)>)>,
    b: DistributionBuilder,
    gt: Seq<(Seq<char>, Seq<char>)>,
    gf: Seq<(Seq<char>, MetricDataView)>,
    now: int,
) -> Seq<Seq<char>> {
    spec_entry_lines(spec_render_entries(g, r, c), gt, gf, now) + spec_hist_mode_lines(
        h,
        b,
        gt,
        gf,
        now,
    )
}

/// One summary-mode cell drained by a render, awaiting its quantile
/// estimates from the configured estimator.
#[derive(Debug)]
pub struct SummaryWindow {
    /// The cell's key.
    pub key: MetricKey,
    /// The window's sample values, count and saturating sum.
    pub summary: Summary,
}

/// The drained windows as mathematical triples: key, sample values,
/// saturating sum.
pub open spec fn windows_model(s: Seq<SummaryWindow>) -> Seq<(MetricKeyView, Seq<Decimal>, int)> {
    s.map_values(|w: SummaryWindow| (w.key@, w.summary.samples@, w.summary.sum_units as int))
}

/// One render read-pass, paused before summary estimation: every
/// non-summary line, the drained summary windows, and the render time.
#[derive(Debug)]
pub struct RenderJob {
    /// The encoded counter, gauge, zero-registration and
    /// histogram-mode lines, in read order.
    pub lines: Vec<String>,
    /// The drained summary windows, in cell order.
    pub windows: Vec<SummaryWindow>,
    /// The render time, in nanoseconds since the epoch.
    pub now: i64,
}

/// The registry together with the global context and the per-name
/// aggregation policy: everything one render reads.
#[derive(Debug)]
pub struct InfluxHandle {
    /// The metric cells.
    pub registry: Registry,
    /// Tags applied to every point.
    pub global_tags: Vec<(String, String)>,
    /// Fields applied to every point.
    pub global_fields: Vec<(String, MetricData)>,
    /// The per-name aggregation policy.
    pub distribution_builder: DistributionBuilder,
}

impl InfluxHandle {
    /// The read-pass of one render at time `now`: counters, gauges,
    /// zero registrations and histogram-mode cells come back already
    /// encoded; summary-mode windows come back drained, for the
    /// outside quantile estimator. Counter and gauge values survive;
    /// histogram windows drain and the registration set empties.
    pub fn begin_render(&mut self, now: i64) -> (job: RenderJob)
        requires
            old(self).distribution_builder.wf(),
        ensures
            final(self).registry.counters@ == old(self).registry.counters@,
            final(self).registry.gauges@ == old(self).registry.gauges@,
            hists_model(final(self).registry.histograms@) == hists_model(
                old(self).registry.histograms@,
            ).map_values(|p: (MetricKeyView, Seq<(Decimal, i64)>)| (p.0, Seq::<(Decimal, i64)>::empty())),
            final(self).registry.counter_registrations@.len() == 0,
            final(self).global_tags == old(self).global_tags,
            final(self).global_fields == old(self).global_fields,
            final(self).distribution_builder.wf(),
            final(self).distribution_builder.quantiles == old(self).distribution_builder.quantiles,
            final(self).distribution_builder.buckets == old(self).distribution_builder.buckets,
            final(self).distribution_builder.bucket_overrides == old(
                self,
            ).distribution_builder.bucket_overrides,
            job.now == now,
            job.lines.deep_view() == spec_nonsummary_lines(
                gauges_model(old(self).registry.gauges@),
                regs_model(old(self).registry.counter_registrations@),
                counters_model(old(self).registry.counters@),
                hists_model(old(self).registry.histograms@),
                old(self).distribution_builder,
                old(self).global_tags.deep_view(),
                old(self).global_fields.deep_view(),
                now as int,
            ),
            windows_model(job.windows@) == spec_summary_windows(
                hists_model(old(self).registry.histograms@),
                old(self).distribution_builder,
            ),
            forall|i: int|
                0 <= i < job.windows@.len() ==> (#[trigger] job.windows@[i]).summary.count
                    == job.windows@[i].summary.samples@.len(),
    {
        let ghost gm = gauges_model(self.registry.gauges@);
        let ghost rm = regs_model(self.registry.counter_registrations@);
        let ghost cm = counters_model(self.registry.counters@);
        let ghost hm = hists_model(self.registry.histograms@);
        let ghost b0 = self.distribution_builder;
        let ghost gt = self.global_tags.deep_view();
        let ghost gf = self.global_fields.deep_view();
        let ghost gmapped = gm.map_values(
            |p: (MetricKeyView, int)| (p.0, MetricDataView::Float(p.1)),
        );
        let ghost rmapped = rm.map_values(|k: MetricKeyView| (k, MetricDataView::Integer(0)));
        let ghost cmapped = cm.map_values(
            |p: (MetricKeyView, int)| (p.0, MetricDataView::UInteger(p.1)),
        );

        // counter, gauge and zero-registration entries, in read order
        let mut entries: Vec<(MetricKey, MetricData)> = Vec::new();
        let ng = self.registry.gauges.len();
        let mut i: usize = 0;
        while i < ng
            invariant
                i <= ng,
                ng == self.registry.gauges@.len(),
                gm == gauges_model(self.registry.gauges@),
                gmapped == gm.map_values(
                    |p: (MetricKeyView, int)| (p.0, MetricDataView::Float(p.1)),
                ),
                entries@.len() == i,
                entries_model(entries@) == gmapped.take(i as int),
            decreases ng - i,
        {
            let key = self.registry.gauges[i].0.clone_key();
            let value = self.registry.gauges[i].1;
            entries.push((key, MetricData::Float(value)));
            proof {
                assert(gm[i as int] == (self.registry.gauges@[i as int].0@, self.registry.gauges@[i as int].1.units as int));
                assert(entries_model(entries@) =~~= gmapped.take(i + 1 as int));
            }
            i = i + 1;
        }
        let mut regs: Vec<MetricKey> = Vec::new();
        core::mem::swap(&mut regs, &mut self.registry.counter_registrations);
        let nr = regs.len();
        let mut i: usize = 0;
        proof {
            assert(gmapped.take(ng as int) =~= gmapped);
        }
        while i < nr
            invariant
                i <= nr,
                nr == regs@.len(),
                rm == regs_model(regs@),
                rmapped == rm.map_values(|k: MetricKeyView| (k, MetricDataView::Integer(0))),
                entries@.len() == gmapped.len() + i,
                entries_model(entries@) == gmapped + rmapped.take(i as int),
            decreases nr - i,
        {
            let key = regs[i].clone_key();
            let ghost kv = key@;
            let ghost em_pre = entries_model(entries@);
            entries.push((key, MetricData::Integer(0)));
            proof {
                assert(rm[i as int] == regs@[i as int]@);
                assert(rmapped[i as int] == (rm[i as int], MetricDataView::Integer(0)));
                assert(entries_model(entries@) =~~= em_pre.push((kv, MetricDataView::Integer(0))));
                assert(rmapped.take(i + 1 as int) =~= rmapped.take(i as int).push(rmapped[i as int]));
                assert((gmapped + rmapped.take(i as int)).push(rmapped[i as int]) =~= gmapped
                    + rmapped.take(i as int).push(rmapped[i as int]));
                assert(entries_model(entries@) =~= gmapped + rmapped.take(i + 1 as int));
            }
            i = i + 1;
        }
        let nc = self.registry.counters.len();
        let mut i: usize = 0;
        proof {
            assert(rmapped.take(nr as int) =~= rmapped);
        }
        while i < nc
            invariant
                i <= nc,
                nc == self.registry.counters@.len(),
                cm == counters_model(self.registry.counters@),
                cmapped == cm.map_values(
                    |p: (MetricKeyView, int)| (p.0, MetricDataView::UInteger(p.1)),
                ),
                entries@.len() == gmapped.len() + rmapped.len() + i,
                entries_model(entries@) == gmapped + rmapped + cmapped.take(i as int),
            decreases nc - i,
        {
            let key = self.registry.counters[i].0.clone_key();
            let value = self.registry.counters[i].1;
            let ghost kv = key@;
            let ghost em_pre = entries_model(entries@);
            entries.push((key, MetricData::UInteger(value)));
            proof {
                assert(cm[i as int] == (self.registry.counters@[i as int].0@, self.registry.counters@[i as int].1 as int));
                assert(cmapped[i as int] == (cm[i as int].0, MetricDataView::UInteger(cm[i as int].1)));
                assert(entries_model(entries@) =~~= em_pre.push(
                    (kv, MetricDataView::UInteger(value as int)),
                ));
                assert(cmapped.take(i + 1 as int) =~= cmapped.take(i as int).push(cmapped[i as int]));
                assert((gmapped + rmapped + cmapped.take(i as int)).push(cmapped[i as int]) =~= gmapped
                    + rmapped + cmapped.take(i as int).push(cmapped[i as int]));
                assert(entries_model(entries@) =~= gmapped + rmapped + cmapped.take(i + 1 as int));
            }
            i = i + 1;
        }
        let ghost em = spec_render_entries(gm, rm, cm);
        proof {
            assert(cmapped.take(nc as int) =~= cmapped);
            assert(entries_model(entries@) =~= em);
        }

        // one line per entry, duplicates backdated
        let ghost elines = spec_entry_lines(em, gt, gf, now as int);
        let mut lines: Vec<String> = Vec::new();
        let ne = entries.len();
        let mut i: usize = 0;
        while i < ne
            invariant
                i <= ne,
                ne == entries@.len(),
                em == entries_model(entries@),
                elines == spec_entry_lines(em, gt, gf, now as int),
                gt == self.global_tags.deep_view(),
                gf == self.global_fields.deep_view(),
                lines@.len() == i,
                lines.deep_view() == elines.take(i as int),
            decreases ne - i,
        {
            let dups = count_dups_after(&entries, i);
            let ts = backdate(now, dups);
            let value = clone_data(&entries[i].1);
            let line = entry_line(
                &entries[i].0,
                value,
                &self.global_tags,
                &self.global_fields,
                ts,
            );
            let ghost lv = line@;
            lines.push(line);
            proof {
                assert(em[i as int] == (entries@[i as int].0@, entries@[i as int].1@));
                assert(lv == elines[i as int]);
                assert(lines.deep_view() =~~= elines.take(i + 1 as int));
            }
            i = i + 1;
        }
        proof {
            assert(elines.take(ne as int) =~= elines);
        }

        // histogram and summary points, draining the windows
        let mut hists: Vec<(MetricKey, Vec<(Decimal, i64)>)> = Vec::new();
        core::mem::swap(&mut hists, &mut self.registry.histograms);
        let ghost drained = hm.map_values(
            |p: (MetricKeyView, Seq<(Decimal, i64)>)| (p.0, Seq::<(Decimal, i64)>::empty()),
        );
        let mut windows: Vec<SummaryWindow> = Vec::new();
        let ghost hlines = spec_hist_mode_lines(hm, b0, gt, gf, now as int);
        let ghost swindows = spec_summary_windows(hm, b0);
        let ghost mut acc: Seq<Seq<char>> = Seq::empty();
        let ghost mut wacc: Seq<(MetricKeyView, Seq<Decimal>, int)> = Seq::empty();
        proof {
            assert(hists_model(hists@) =~= hm);
            assert(hists_model(hists@) =~= drained.take(0) + hm.skip(0));
            assert(lines.deep_view() =~= elines + acc);
            assert(hlines =~= acc + spec_hist_mode_lines(hm.skip(0), b0, gt, gf, now as int));
            assert(windows_model(windows@) =~= wacc);
            assert(swindows =~= wacc + spec_summary_windows(hm.skip(0), b0));
        }
        let nh = hists.len();
        let mut i: usize = 0;
        while i < nh
            invariant
                i <= nh,
                nh == hists@.len(),
                hm.len() == nh,
                drained == hm.map_values(
                    |p: (MetricKeyView, Seq<(Decimal, i64)>)| (
                        p.0,
                        Seq::<(Decimal, i64)>::empty(),
                    ),
                ),
                hlines == spec_hist_mode_lines(hm, b0, gt, gf, now as int),
                swindows == spec_summary_windows(hm, b0),
                b0.wf(),
                self.registry.counters@ == old(self).registry.counters@,
                self.registry.gauges@ == old(self).registry.gauges@,
                self.registry.counter_registrations@.len() == 0,
                self.global_tags == old(self).global_tags,
                self.global_fields == old(self).global_fields,
                gt == self.global_tags.deep_view(),
                gf == self.global_fields.deep_view(),
                self.distribution_builder.wf(),
                self.distribution_builder.quantiles == b0.quantiles,
                self.distribution_builder.buckets == b0.buckets,
                self.distribution_builder.bucket_overrides == b0.bucket_overrides,
                hists_model(hists@) == drained.take(i as int) + hm.skip(i as int),
                lines.deep_view() == elines + acc,
                hlines == acc + spec_hist_mode_lines(hm.skip(i as int), b0, gt, gf, now as int),
                windows_model(windows@) == wacc,
                swindows == wacc + spec_summary_windows(hm.skip(i as int), b0),
                forall|j: int|
                    0 <= j < windows@.len() ==> (#[trigger] windows@[j]).summary.count
                        == windows@[j].summary.samples@.len(),
            decreases nh - i,
        {
            let ghost cell = hm[i as int];
            proof {
                assert(hists_model(hists@)[i as int] == hm.skip(i as int)[0]);
                assert(hists_model(hists@)[i as int] == (hists@[i as int].0@, hists@[i as int].1@));
                assert(hm.skip(i as int)[0] == cell);
                assert(hm.skip(i as int).drop_first() =~= hm.skip(i + 1 as int));
            }
            let ghost hists_pre = hists@;
            let mut pair = hists.remove(i);
            let mut samples: Vec<(Decimal, i64)> = Vec::new();
            core::mem::swap(&mut samples, &mut pair.1);
            let key = pair.0;
            let ghost samplesv = samples@;
            hists.insert(i, (key.clone_key(), pair.1));
            proof {
                assert(key@ == cell.0);
                assert(samplesv == cell.1);
                assert(hists@ =~= hists_pre.update(i as int, hists@[i as int]));
                assert(hists@[i as int].0@ == cell.0);
                assert(hists@[i as int].1@ =~= Seq::<(Decimal, i64)>::empty());
                assert(drained[i as int] == (cell.0, Seq::<(Decimal, i64)>::empty()));
                assert forall|j: int| 0 <= j < hists@.len() implies hists_model(hists@)[j] == (
                drained.take(i + 1 as int) + hm.skip(i + 1 as int))[j] by {
                    assert(hists_model(hists@)[j] == (hists@[j].0@, hists@[j].1@));
                    if j < i {
                        assert(hists_pre[j] == hists@[j]);
                        assert(hists_model(hists_pre)[j] == (drained.take(i as int) + hm.skip(
                            i as int,
                        ))[j]);
                    } else if j > i {
                        assert(hists_pre[j] == hists@[j]);
                        assert(hists_model(hists_pre)[j] == (drained.take(i as int) + hm.skip(
                            i as int,
                        ))[j]);
                    }
                }
                assert(hists_model(hists@) =~= drained.take(i + 1 as int) + hm.skip(i + 1 as int));
            }
            let ghost builder_pre = self.distribution_builder;
            let dist = self.distribution_builder.get_distribution(key.name.as_str());
            proof {
                assert(builder_pre.spec_decide(cell.0.name) == b0.spec_decide(cell.0.name));
            }
            match dist {
                Distribution::Histogram(mut h) => {
                    let slen = samples.len();
                    proof {
                        assert(samples@.len() == slen);
                        assert(h.count + samples@.len() <= u64::MAX);
                    }
                    let ghost h0 = h;
                    h.record_samples(&samples);
                    proof {
                        assert forall|j: int| 0 <= j < h.counts@.len() implies (
                        #[trigger] h.counts@[j]) == spec_count_le(
                            samplesv,
                            h.bounds@[j].units as int,
                        ) by {
                            assert(h0.counts@[j] == 0);
                        }
                    }
                    let line = hist_line(
                        &key,
                        &h,
                        Ghost(samplesv),
                        &self.global_tags,
                        &self.global_fields,
                        now,
                    );
                    let ghost lv = line@;
                    lines.push(line);
                    proof {
                        assert(b0.spec_decide(cell.0.name) == Some(h.bounds@));
                        assert(spec_hist_mode_lines(hm.skip(i as int), b0, gt, gf, now as int)
                            =~= seq![spec_hist_line(cell.0, h.bounds@, cell.1, gt, gf, now as int)]
                            + spec_hist_mode_lines(hm.skip(i + 1 as int), b0, gt, gf, now as int));
                        assert(lv == spec_hist_line(cell.0, h.bounds@, cell.1, gt, gf, now as int));
                        let acc_old = acc;
                        acc = acc.push(lv);
                        assert(lines.deep_view() =~~= (elines + acc_old).push(lv));
                        assert((elines + acc_old).push(lv) =~= elines + acc_old.push(lv));
                        assert(lines.deep_view() =~= elines + acc);
                        assert(hlines =~= acc + spec_hist_mode_lines(
                            hm.skip(i + 1 as int),
                            b0,
                            gt,
                            gf,
                            now as int,
                        ));
                        assert(spec_summary_windows(hm.skip(i as int), b0)
                            =~= spec_summary_windows(hm.skip(i + 1 as int), b0));
                    }
                },
                Distribution::Summary(mut s, _quantiles) => {
                    let slen = samples.len();
                    proof {
                        assert(samples@.len() == slen);
                        assert(s.count + samples@.len() <= u64::MAX);
                    }
                    s.record_samples(&samples);
                    proof {
                        assert(s.samples@ =~= samplesv.map_values(|p: (Decimal, i64)| p.0));
                        assert(b0.spec_decide(cell.0.name) is None);
                    }
                    let empty = s.is_empty();
                    if !empty {
                        let ghost kv = key@;
                        let ghost wv = (cell.0, cell.1.map_values(|p: (Decimal, i64)| p.0),
                            spec_sum_sat(cell.1, 0));
                        let ghost windows_pre = windows_model(windows@);
                        windows.push(SummaryWindow { key, summary: s });
                        proof {
                            assert(cell.1.len() != 0);
                            assert(cell.1.map_values(|p: (Decimal, i64)| p.0).len()
                                == cell.1.len());
                            assert(windows_model(windows@) =~~= windows_pre.push(wv));
                            assert(spec_summary_windows(hm.skip(i as int), b0) =~= seq![wv]
                                + spec_summary_windows(hm.skip(i + 1 as int), b0));
                            let wacc_old = wacc;
                            wacc = wacc.push(wv);
                            assert(windows_model(windows@) =~= wacc);
                            assert((wacc_old + (seq![wv]
                                + spec_summary_windows(hm.skip(i + 1 as int), b0))) =~= wacc
                                + spec_summary_windows(hm.skip(i + 1 as int), b0));
                            assert(swindows =~= wacc + spec_summary_windows(
                                hm.skip(i + 1 as int),
                                b0,
                            ));
                            assert(spec_hist_mode_lines(hm.skip(i as int), b0, gt, gf, now as int)
                                =~= spec_hist_mode_lines(
                                hm.skip(i + 1 as int),
                                b0,
                                gt,
                                gf,
                                now as int,
                            ));
                        }
                    } else {
                        proof {
                            assert(samplesv.map_values(|p: (Decimal, i64)| p.0).len()
                                == samplesv.len());
                            assert(cell.1.len() == 0);
                            assert(spec_hist_mode_lines(hm.skip(i as int), b0, gt, gf, now as int)
                                =~= spec_hist_mode_lines(
                                hm.skip(i + 1 as int),
                                b0,
                                gt,
                                gf,
                                now as int,
                            ));
                            assert(spec_summary_windows(hm.skip(i as int), b0)
                                =~= spec_summary_windows(hm.skip(i + 1 as int), b0));
                        }
                    }
                },
            }
            i = i + 1;
        }
        self.registry.histograms = hists;
        proof {
            assert(drained.take(nh as int) =~= drained);
            assert(hm.skip(nh as int) =~= Seq::<(MetricKeyView, Seq<(Decimal, i64)>)>::empty());
            assert(spec_hist_mode_lines(
                Seq::<(MetricKeyView, Seq<(Decimal, i64)>)>::empty(),
                b0,
                gt,
                gf,
                now as int,
            ) =~= Seq::<Seq<char>>::empty());
            assert(spec_summary_windows(
                Seq::<(MetricKeyView, Seq<(Decimal, i64)>)>::empty(),
                b0,
            ) =~= Seq::<(MetricKeyView, Seq<Decimal>, int)>::empty());
            assert(hists_model(self.registry.histograms@) =~= drained);
            assert(lines.deep_view() =~= elines + hlines);
            assert(windows_model(windows@) =~= swindows);
            assert(elines + hlines =~= spec_nonsummary_lines(
                gm,
                rm,
                cm,
                hm,
                b0,
                gt,
                gf,
                now as int,
            ));
        }
        RenderJob { lines, windows, now }
    }
}


/// Relies on chrono's conversion from the system clock and on
/// `DateTime::timestamp_nanos_opt`: the current time in nanoseconds
/// since the epoch, where it is representable. The conversion path
/// handles a clock reading before the epoch without panicking.
#[verifier::external_body]
fn now_nanos() -> (r: Option<i64>)
{
    chrono::DateTime::<chrono::Utc>::from(std::time::SystemTime::now()).timestamp_nanos_opt()
}

impl InfluxHandle {
    /// Builds a handle with an empty registry.
    pub fn new(
        global_tags: Vec<(String, String)>,
        global_fields: Vec<(String, MetricData)>,
        distribution_builder: DistributionBuilder,
    ) -> (r: InfluxHandle)
        requires
            distribution_builder.wf(),
        ensures
            r.registry.counters@.len() == 0,
            r.registry.gauges@.len() == 0,
            r.registry.histograms@.len() == 0,
            r.registry.counter_registrations@.len() == 0,
            r.global_tags == global_tags,
            r.global_fields == global_fields,
            r.distribution_builder == distribution_builder,
    {
        InfluxHandle { registry: Registry::new(), global_tags, global_fields, distribution_builder }
    }

    /// Ensures a counter cell exists under `key`; a fresh key joins
    /// the registration set, so the next render emits its zero point.
    pub fn register_counter(&mut self, key: &MetricKey)
        ensures
            counters_model(final(self).registry.counters@) == crate::registry::spec_model_register(
                counters_model(old(self).registry.counters@),
                key@,
                0int,
            ),
            final(self).registry.gauges@ == old(self).registry.gauges@,
            final(self).registry.histograms@ == old(self).registry.histograms@,
            regs_model(final(self).registry.counter_registrations@) == (
            if crate::registry::model_find(
                counters_model(old(self).registry.counters@),
                key@,
            ) is Some || crate::registry::keys_contain(
                regs_model(old(self).registry.counter_registrations@),
                key@,
            ) {
                regs_model(old(self).registry.counter_registrations@)
            } else {
                regs_model(old(self).registry.counter_registrations@).push(key@)
            }),
            final(self).global_tags == old(self).global_tags,
            final(self).global_fields == old(self).global_fields,
            final(self).distribution_builder == old(self).distribution_builder,
    {
        self.registry.register_counter(key);
    }

    /// Ensures a gauge cell exists under `key`, holding zero until it
    /// is first set.
    pub fn register_gauge(&mut self, key: &MetricKey)
        ensures
            gauges_model(final(self).registry.gauges@) == crate::registry::spec_model_register(
                gauges_model(old(self).registry.gauges@),
                key@,
                0int,
            ),
            final(self).registry.counters@ == old(self).registry.counters@,
            final(self).registry.histograms@ == old(self).registry.histograms@,
            final(self).registry.counter_registrations@ == old(
                self,
            ).registry.counter_registrations@,
            final(self).global_tags == old(self).global_tags,
            final(self).global_fields == old(self).global_fields,
            final(self).distribution_builder == old(self).distribution_builder,
    {
        self.registry.register_gauge(key);
    }

    /// Ensures a histogram cell exists under `key`, with an empty
    /// window until samples arrive.
    pub fn register_histogram(&mut self, key: &MetricKey)
        ensures
            hists_model(final(self).registry.histograms@) == crate::registry::spec_model_register(
                hists_model(old(self).registry.histograms@),
                key@,
                Seq::<(Decimal, i64)>::empty(),
            ),
            final(self).registry.counters@ == old(self).registry.counters@,
            final(self).registry.gauges@ == old(self).registry.gauges@,
            final(self).registry.counter_registrations@ == old(
                self,
            ).registry.counter_registrations@,
            final(self).global_tags == old(self).global_tags,
            final(self).global_fields == old(self).global_fields,
            final(self).distribution_builder == old(self).distribution_builder,
    {
        self.registry.register_histogram(key);
    }

    /// Adds `amount` to the counter under `key`, creating and
    /// registering the cell on first use.
    pub fn increment_counter(&mut self, key: &MetricKey, amount: u64)
        ensures
            counters_model(final(self).registry.counters@) == crate::registry::spec_bump(
                counters_model(old(self).registry.counters@),
                key@,
                amount as int,
            ),
            final(self).registry.gauges@ == old(self).registry.gauges@,
            final(self).registry.histograms@ == old(self).registry.histograms@,
            regs_model(final(self).registry.counter_registrations@) == (
            if crate::registry::model_find(
                counters_model(old(self).registry.counters@),
                key@,
            ) is Some || crate::registry::keys_contain(
                regs_model(old(self).registry.counter_registrations@),
                key@,
            ) {
                regs_model(old(self).registry.counter_registrations@)
            } else {
                regs_model(old(self).registry.counter_registrations@).push(key@)
            }),
            final(self).global_tags == old(self).global_tags,
            final(self).global_fields == old(self).global_fields,
            final(self).distribution_builder == old(self).distribution_builder,
    {
        self.registry.increment_counter(key, amount);
    }

    /// Raises the counter under `key` to at least `value`, creating
    /// and registering the cell on first use.
    pub fn absolute_counter(&mut self, key: &MetricKey, value: u64)
        ensures
            counters_model(final(self).registry.counters@)
                == crate::registry::spec_counter_absolute(
                counters_model(old(self).registry.counters@),
                key@,
                value as int,
            ),
            final(self).registry.gauges@ == old(self).registry.gauges@,
            final(self).registry.histograms@ == old(self).registry.histograms@,
            regs_model(final(self).registry.counter_registrations@) == (
            if crate::registry::model_find(
                counters_model(old(self).registry.counters@),
                key@,
            ) is Some || crate::registry::keys_contain(
                regs_model(old(self).registry.counter_registrations@),
                key@,
            ) {
                regs_model(old(self).registry.counter_registrations@)
            } else {
                regs_model(old(self).registry.counter_registrations@).push(key@)
            }),
            final(self).global_tags == old(self).global_tags,
            final(self).global_fields == old(self).global_fields,
            final(self).distribution_builder == old(self).distribution_builder,
    {
        self.registry.absolute_counter(key, value);
    }

    /// Sets the gauge under `key`, creating the cell on first use.
    pub fn set_gauge(&mut self, key: &MetricKey, value: Decimal)
        ensures
            gauges_model(final(self).registry.gauges@) == crate::registry::spec_gauge_set(
                gauges_model(old(self).registry.gauges@),
                key@,
                value.units as int,
            ),
            final(self).registry.counters@ == old(self).registry.counters@,
            final(self).registry.histograms@ == old(self).registry.histograms@,
            final(self).registry.counter_registrations@ == old(
                self,
            ).registry.counter_registrations@,
            final(self).global_tags == old(self).global_tags,
            final(self).global_fields == old(self).global_fields,
            final(self).distribution_builder == old(self).distribution_builder,
    {
        self.registry.set_gauge(key, value);
    }

    /// Adds `delta` to the gauge under `key`, saturating at the ends
    /// of the range; a cell not seen before starts from zero.
    pub fn increment_gauge(&mut self, key: &MetricKey, delta: Decimal)
        ensures
            gauges_model(final(self).registry.gauges@) == crate::registry::spec_gauge_adjust(
                gauges_model(old(self).registry.gauges@),
                key@,
                delta.units as int,
            ),
            final(self).registry.counters@ == old(self).registry.counters@,
            final(self).registry.histograms@ == old(self).registry.histograms@,
            final(self).registry.counter_registrations@ == old(
                self,
            ).registry.counter_registrations@,
            final(self).global_tags == old(self).global_tags,
            final(self).global_fields == old(self).global_fields,
            final(self).distribution_builder == old(self).distribution_builder,
    {
        self.registry.increment_gauge(key, delta);
    }

    /// Subtracts `delta` from the gauge under `key`, saturating at the
    /// ends of the range; a cell not seen before starts from zero.
    pub fn decrement_gauge(&mut self, key: &MetricKey, delta: Decimal)
        ensures
            gauges_model(final(self).registry.gauges@) == crate::registry::spec_gauge_adjust(
                gauges_model(old(self).registry.gauges@),
                key@,
                -(delta.units as int),
            ),
            final(self).registry.counters@ == old(self).registry.counters@,
            final(self).registry.histograms@ == old(self).registry.histograms@,
            final(self).registry.counter_registrations@ == old(
                self,
            ).registry.counter_registrations@,
            final(self).global_tags == old(self).global_tags,
            final(self).global_fields == old(self).global_fields,
            final(self).distribution_builder == old(self).distribution_builder,
    {
        self.registry.decrement_gauge(key, delta);
    }

    /// Appends one histogram sample under `key`, creating the cell on
    /// first use.
    pub fn record_histogram(&mut self, key: &MetricKey, value: Decimal, time_ns: i64)
        ensures
            hists_model(final(self).registry.histograms@) == crate::registry::spec_hist_append(
                hists_model(old(self).registry.histograms@),
                key@,
                (value, time_ns),
            ),
            final(self).registry.counters@ == old(self).registry.counters@,
            final(self).registry.gauges@ == old(self).registry.gauges@,
            final(self).registry.counter_registrations@ == old(
                self,
            ).registry.counter_registrations@,
            final(self).global_tags == old(self).global_tags,
            final(self).global_fields == old(self).global_fields,
            final(self).distribution_builder == old(self).distribution_builder,
    {
        self.registry.record_histogram(key, value, time_ns);
    }

    /// Drops every cell; the registration set and configuration stay.
    pub fn clear(&mut self)
        ensures
            final(self).registry.counters@.len() == 0,
            final(self).registry.gauges@.len() == 0,
            final(self).registry.histograms@.len() == 0,
            final(self).registry.counter_registrations@ == old(
                self,
            ).registry.counter_registrations@,
            final(self).global_tags == old(self).global_tags,
            final(self).global_fields == old(self).global_fields,
            final(self).distribution_builder == old(self).distribution_builder,
    {
        self.registry.clear();
    }

    /// The lines of the summary points, one per drained window: the
    /// window's key and context, its count and sum, and one field per
    /// configured quantile carrying the estimate supplied for it.
    pub open spec fn spec_summary_lines(
        &self,
        wm: Seq<(MetricKeyView, Seq<Decimal>, int)>,
        estimates: Seq<Seq<Option<Seq<char>>>>,
        now: int,
    ) -> Seq<Seq<char>> {
        Seq::new(
            wm.len(),
            |i: int|
                spec_summary_line(
                    wm[i].0,
                    self.distribution_builder.quantiles.deep_view(),
                    if 0 <= i < estimates.len() {
                        estimates[i]
                    } else {
                        Seq::empty()
                    },
                    wm[i].1.len() as int,
                    wm[i].2,
                    self.global_tags.deep_view(),
                    self.global_fields.deep_view(),
                    now,
                ),
        )
    }

    /// Completes a render: each drained window becomes one summary
    /// point carrying the estimator's reported quantile values
    /// (missing ones default to zero), the lines are sorted and joined,
    /// and the point count comes back with the text. `estimates` is
    /// read by window index, then by quantile index.
    pub fn finish_render(
        &self,
        job: RenderJob,
        estimates: &Vec<Vec<Option<String>>>,
    ) -> (r: (usize, String))
        ensures
            r.0 == job.lines@.len() + job.windows@.len(),
            r.1@ == spec_join_with(
                spec_sort_lines(
                    job.lines.deep_view() + self.spec_summary_lines(
                        windows_model(job.windows@),
                        estimates.deep_view(),
                        job.now as int,
                    ),
                ),
                '\n',
            ),
    {
        let ghost wm = windows_model(job.windows@);
        let ghost ev = estimates.deep_view();
        let ghost slines = self.spec_summary_lines(wm, ev, job.now as int);
        let mut lines = job.lines;
        let ghost base = lines.deep_view();
        let nw = job.windows.len();
        let empty_row: Vec<Option<String>> = Vec::new();
        let mut i: usize = 0;
        proof {
            assert(lines.deep_view() =~= base + slines.take(0));
        }
        while i < nw
            invariant
                i <= nw,
                nw == job.windows@.len(),
                wm == windows_model(job.windows@),
                ev == estimates.deep_view(),
                slines == self.spec_summary_lines(wm, ev, job.now as int),
                empty_row@.len() == 0,
                lines.deep_view() == base + slines.take(i as int),
            decreases nw - i,
        {
            let w = &job.windows[i];
            let row: &Vec<Option<String>> = if i < estimates.len() {
                &estimates[i]
            } else {
                &empty_row
            };
            proof {
                assert(wm[i as int] == (w.key@, w.summary.samples@, w.summary.sum_units as int));
                if i < estimates@.len() {
                    assert(row.deep_view() == ev[i as int]);
                } else {
                    assert(row.deep_view() =~= Seq::<Option<Seq<char>>>::empty());
                }
            }
            let count = w.summary.samples.len() as u64;
            let line = summary_line(
                &w.key,
                count,
                w.summary.sum_units,
                &self.distribution_builder.quantiles,
                row,
                &self.global_tags,
                &self.global_fields,
                job.now,
            );
            let ghost lv = line@;
            lines.push(line);
            proof {
                assert(lv == slines[i as int]);
                assert(slines.take(i + 1 as int) =~= slines.take(i as int).push(lv));
                assert(lines.deep_view() =~~= (base + slines.take(i as int)).push(lv));
                assert((base + slines.take(i as int)).push(lv) =~= base + slines.take(
                    i as int,
                ).push(lv));
                assert(lines.deep_view() =~= base + slines.take(i + 1 as int));
            }
            i = i + 1;
        }
        proof {
            assert(slines.take(nw as int) =~= slines);
        }
        let count = lines.len();
        let sorted = crate::text::sort_lines(lines);
        let text = crate::text::join_lines(&sorted);
        (count, text)
    }

    /// The read-pass of one render at the clock time: the effects and
    /// the job are those of `begin_render` at some time `t`.
    pub fn render(&mut self) -> (job: RenderJob)
        requires
            old(self).distribution_builder.wf(),
        ensures
            final(self).registry.counters@ == old(self).registry.counters@,
            final(self).registry.gauges@ == old(self).registry.gauges@,
            hists_model(final(self).registry.histograms@) == hists_model(
                old(self).registry.histograms@,
            ).map_values(|p: (MetricKeyView, Seq<(Decimal, i64)>)| (p.0, Seq::<(Decimal, i64)>::empty())),
            final(self).registry.counter_registrations@.len() == 0,
            final(self).global_tags == old(self).global_tags,
            final(self).global_fields == old(self).global_fields,
            final(self).distribution_builder.wf(),
            final(self).distribution_builder.quantiles == old(self).distribution_builder.quantiles,
            final(self).distribution_builder.buckets == old(self).distribution_builder.buckets,
            final(self).distribution_builder.bucket_overrides == old(
                self,
            ).distribution_builder.bucket_overrides,
            job.lines.deep_view() == spec_nonsummary_lines(
                gauges_model(old(self).registry.gauges@),
                regs_model(old(self).registry.counter_registrations@),
                counters_model(old(self).registry.counters@),
                hists_model(old(self).registry.histograms@),
                old(self).distribution_builder,
                old(self).global_tags.deep_view(),
                old(self).global_fields.deep_view(),
                job.now as int,
            ),
            windows_model(job.windows@) == spec_summary_windows(
                hists_model(old(self).registry.histograms@),
                old(self).distribution_builder,
            ),
            forall|i: int|
                0 <= i < job.windows@.len() ==> (#[trigger] job.windows@[i]).summary.count
                    == job.windows@[i].summary.samples@.len(),
    {
        let now = match now_nanos() {
            Some(n) => n,
            None => 0,
        };
        self.begin_render(now)
    }
}

/// Counts are never negative.
proof fn lemma_count_key_nonneg(
    entries: Seq<(MetricKeyView, MetricDataView)>,
    k: MetricKeyView,
    a: int,
)
    ensures
        spec_count_key_from(entries, k, a) >= 0,
    decreases entries.len() - a,
{
    if 0 <= a && a < entries.len() {
        lemma_count_key_nonneg(entries, k, a + 1);
    }
}

/// From any index on, the count of a key never rises as the start
/// moves right.
proof fn lemma_count_key_monotone(
    entries: Seq<(MetricKeyView, MetricDataView)>,
    k: MetricKeyView,
    a: int,
    b: int,
)
    requires
        0 <= a <= b,
    ensures
        spec_count_key_from(entries, k, a) >= spec_count_key_from(entries, k, b),
    decreases b - a,
{
    if a < b {
        if a >= entries.len() {
            assert(spec_count_key_from(entries, k, a) == 0);
            assert(spec_count_key_from(entries, k, b) == 0);
        } else {
            lemma_count_key_monotone(entries, k, a + 1, b);
        }
    }
}

/// Within one render, two counter, gauge or zero-registration points
/// that share a key never share a timestamp: the earlier entry counts
/// strictly more later duplicates, so it is backdated strictly
/// further, as long as the backdating stays on the clock.
pub proof fn lemma_distinct_timestamps(
    entries: Seq<(MetricKeyView, MetricDataView)>,
    now: int,
    i: int,
    j: int,
)
    requires
        0 <= i < j < entries.len(),
        entries[i].0 == entries[j].0,
        now - spec_count_key_from(entries, entries[i].0, i + 1) * 1_000_000 >= i64::MIN,
    ensures
        spec_backdate(now, spec_count_key_from(entries, entries[i].0, i + 1)) < spec_backdate(
            now,
            spec_count_key_from(entries, entries[j].0, j + 1),
        ),
{
    let k = entries[i].0;
    lemma_count_key_monotone(entries, k, i + 1, j);
    assert(spec_count_key_from(entries, k, j) == 1 + spec_count_key_from(entries, k, j + 1));
    lemma_count_key_nonneg(entries, k, j + 1);
    let ci = spec_count_key_from(entries, k, i + 1);
    let cj = spec_count_key_from(entries, k, j + 1);
    assert(ci > cj);
    assert(ci * 1_000_000 >= (cj + 1) * 1_000_000) by (nonlinear_arith)
        requires
            ci >= cj + 1,
    ;
}


/// An empty registry renders nothing: no lines, no summary windows,
/// no bytes to write, so a write on it is a no-op and no request need
/// be made.
pub proof fn lemma_render_empty(
    b: DistributionBuilder,
    gt: Seq<(Seq<char>, Seq<char>)>,
    gf: Seq<(Seq<char>, MetricDataView)>,
    now: int,
)
    ensures
        spec_nonsummary_lines(
            Seq::<(MetricKeyView, int)>::empty(),
            Seq::<MetricKeyView>::empty(),
            Seq::<(MetricKeyView, int)>::empty(),
            Seq::<(MetricKeyView, Seq<(Decimal, i64)>)>::empty(),
            b,
            gt,
            gf,
            now,
        ).len() == 0,
        spec_summary_windows(Seq::<(MetricKeyView, Seq<(Decimal, i64)>)>::empty(), b).len() == 0,
{
    let entries = spec_render_entries(
        Seq::<(MetricKeyView, int)>::empty(),
        Seq::<MetricKeyView>::empty(),
        Seq::<(MetricKeyView, int)>::empty(),
    );
    assert(entries.len() == 0);
    assert(spec_entry_lines(entries, gt, gf, now).len() == 0);
    assert(spec_hist_mode_lines(
        Seq::<(MetricKeyView, Seq<(Decimal, i64)>)>::empty(),
        b,
        gt,
        gf,
        now,
    ).len() == 0);
}

} // verus!

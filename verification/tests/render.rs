use metrics_exporter_influx::recorder::SummaryWindow;
use metrics_exporter_influx::{Decimal, InfluxBuilder, InfluxHandle, Matcher, MetricData, MetricKey, Quantile};

fn bare_key(name: &str) -> MetricKey {
    MetricKey::new(name.to_string(), vec![])
}

const NOW: i64 = 1_000_000_000;

/// Renders in two phases with no summary estimates, for registries
/// without summary-mode data.
fn render_plain(handle: &mut InfluxHandle, now: i64) -> (usize, String) {
    let job = handle.begin_render(now);
    handle.finish_render(job, &vec![])
}

/// Runs each drained window through the decaying quantile estimator
/// and hands its reported values back, formatted as the estimator's
/// own decimal text.
fn estimate_windows(windows: &[SummaryWindow], quantiles: &[Quantile]) -> Vec<Vec<Option<String>>> {
    windows
        .iter()
        .map(|w| {
            let mut sketch = metrics_util::Summary::with_defaults();
            for d in &w.summary.samples {
                sketch.add(d.units as f64 / 1_000_000_000.0);
            }
            quantiles
                .iter()
                .map(|q| {
                    sketch
                        .quantile(q.value as f64 / 10_000.0)
                        .map(|v| format!("{}", v))
                })
                .collect()
        })
        .collect()
}

/// Renders in two phases, estimating summary quantiles with the
/// decaying estimator, as the export loop does.
fn render_estimated(handle: &mut InfluxHandle, now: i64) -> (usize, String) {
    let job = handle.begin_render(now);
    let quantiles: Vec<Quantile> = handle
        .distribution_builder
        .quantiles
        .iter()
        .map(|q| Quantile::new(q.value))
        .collect();
    let estimates = estimate_windows(&job.windows, &quantiles);
    handle.finish_render(job, &estimates)
}

#[test]
fn idempotent_registration() {
    let mut rec = InfluxBuilder::new().build_recorder();
    let first = bare_key("counter");
    let second = bare_key("counter");
    rec.handle.increment_counter(&first, 2);
    rec.handle.increment_counter(&second, 3);
    let (count, text) = render_plain(&mut rec.handle, NOW);
    // one cell: the zero-registration point plus the accumulated total
    assert_eq!(count, 2);
    let lines: Vec<&str> = text.lines().collect();
    assert_eq!(lines, vec!["counter value=0i 999000000", "counter value=5i 1000000000"]);
}

#[test]
fn zero_registration_window() {
    let mut rec = InfluxBuilder::new().build_recorder();
    let key = bare_key("counter");
    rec.handle.increment_counter(&key, 2);
    let (count, text) = render_plain(&mut rec.handle, NOW);
    assert_eq!(count, 2);
    assert_eq!(
        text,
        "counter value=0i 999000000\ncounter value=2i 1000000000"
    );
    // the next window has no new registration: only the running total
    let (count2, text2) = render_estimated(&mut rec.handle, NOW + 1);
    assert_eq!(count2, 1);
    assert_eq!(text2, "counter value=2i 1000000001");
}

#[test]
fn labels_merge_into_tags_and_fields() {
    let mut rec = InfluxBuilder::new()
        .add_global_tag("tag0".to_string(), "value0".to_string())
        .add_global_field("field0".to_string(), MetricData::Boolean(false))
        .build_recorder();
    let key = MetricKey::new(
        "counter".to_string(),
        vec![
            ("tag1".to_string(), "value1".to_string()),
            ("tag2".to_string(), "value2".to_string()),
            ("tag:tag3".to_string(), "value3".to_string()),
            ("field:field1".to_string(), "0".to_string()),
        ],
    );
    rec.handle.increment_counter(&key, 2);
    rec.handle.set_gauge(&bare_key("gauge"), Decimal::from_int(-1000));
    let (count, text) = render_plain(&mut rec.handle, NOW);
    assert_eq!(count, 3);
    let lines: Vec<&str> = text.lines().collect();
    assert_eq!(
        lines,
        vec![
            "counter,tag0=value0,tag1=value1,tag2=value2,tag3=value3 field0=false,field1=\"0\",value=0i 999000000",
            "counter,tag0=value0,tag1=value1,tag2=value2,tag3=value3 field0=false,field1=\"0\",value=2i 1000000000",
            "gauge,tag0=value0 field0=false,value=-1000 1000000000",
        ]
    );
}

#[test]
fn summary_window() {
    let mut rec = InfluxBuilder::new().build_recorder();
    let key = bare_key("histogram");
    for i in 0..100 {
        rec.handle.record_histogram(&key, Decimal::from_int(i), NOW);
    }
    let (count, text) = render_estimated(&mut rec.handle, NOW);
    assert_eq!(count, 1);
    // the quantile fields are the decaying estimator's deterministic
    // output for this one-shot sample set
    assert_eq!(
        text,
        "histogram count=100i,max=99,min=0,p50=49.00390593892515,p90=89.00566416071958,p95=94.00049142147152,p99=97.99338832106014,p999=97.99338832106014,sum=4950 1000000000"
    );
}

#[test]
fn empty_summary_window_suppresses_point() {
    let mut rec = InfluxBuilder::new().build_recorder();
    let key = bare_key("histogram");
    rec.handle.record_histogram(&key, Decimal::from_int(1), NOW);
    let (count1, _) = render_estimated(&mut rec.handle, NOW);
    assert_eq!(count1, 1);
    // the cell stays but its window is empty: no point this time
    let (count2, text2) = render_estimated(&mut rec.handle, NOW + 1);
    assert_eq!(count2, 0);
    assert_eq!(text2, "");
}

#[test]
fn matcher_precedence() {
    let mut rec = InfluxBuilder::new()
        .with_buckets(&vec![Decimal::from_int(1), Decimal::from_int(2)])
        .unwrap()
        .add_buckets_for_metric(
            Matcher::Prefix("lat".to_string()),
            &vec![Decimal::from_int(5)],
        )
        .unwrap()
        .build_recorder();
    let sample = Decimal::from_units(1_500_000_000);
    rec.handle.record_histogram(&bare_key("latency_ms"), sample, NOW);
    rec.handle.record_histogram(&bare_key("other_ms"), sample, NOW);
    let (count, text) = render_plain(&mut rec.handle, NOW);
    assert_eq!(count, 2);
    let lines: Vec<&str> = text.lines().collect();
    assert_eq!(
        lines,
        vec![
            "latency_ms 5.00=1i,count=1i,sum=1.5 1000000000",
            "other_ms 1.00=0i,2.00=1i,count=1i,sum=1.5 1000000000",
        ]
    );
}

#[test]
fn histogram_counts_are_cumulative() {
    let mut rec = InfluxBuilder::new()
        .with_buckets(&vec![
            Decimal::from_int(10),
            Decimal::from_int(50),
            Decimal::from_int(200),
        ])
        .unwrap()
        .build_recorder();
    let key = bare_key("histogram");
    for i in 0..100 {
        rec.handle.record_histogram(&key, Decimal::from_int(i), NOW);
    }
    let (count, text) = render_plain(&mut rec.handle, NOW);
    assert_eq!(count, 1);
    // eleven samples at or below 10, fifty-one at or below 50, all below 200
    assert_eq!(
        text,
        "histogram 10.00=11i,200.00=100i,50.00=51i,count=100i,sum=4950 1000000000"
    );
}

#[test]
fn clock_render_counts_points() {
    let mut rec = InfluxBuilder::new().build_recorder();
    rec.handle.increment_counter(&bare_key("counter"), 7);
    let job = rec.handle.render();
    let (count, text) = rec.handle.finish_render(job, &vec![]);
    assert_eq!(count, 2);
    assert!(text.contains("value=0i"));
    assert!(text.contains("value=7i"));
}

#[test]
fn clear_resets_counters_and_retriggers_registration() {
    let mut rec = InfluxBuilder::new().build_recorder();
    let key = bare_key("counter");
    rec.handle.increment_counter(&key, 2);
    let _ = render_plain(&mut rec.handle, NOW);
    rec.handle.clear();
    rec.handle.increment_counter(&key, 4);
    let (count, text) = render_plain(&mut rec.handle, NOW);
    assert_eq!(count, 2);
    assert_eq!(
        text,
        "counter value=0i 999000000\ncounter value=4i 1000000000"
    );
}

#[test]
fn register_is_idempotent() {
    let mut rec = InfluxBuilder::new().build_recorder();
    let key = bare_key("counter");
    rec.handle.register_counter(&key);
    rec.handle.register_counter(&bare_key("counter"));
    rec.handle.register_gauge(&bare_key("gauge"));
    rec.handle.register_gauge(&bare_key("gauge"));
    let (count, text) = render_plain(&mut rec.handle, NOW);
    // one counter cell (current value and its zero point) and one gauge cell
    assert_eq!(count, 3);
    let lines: Vec<&str> = text.lines().collect();
    assert_eq!(
        lines,
        vec![
            "counter value=0i 1000000000",
            "counter value=0i 999000000",
            "gauge value=0 1000000000",
        ]
    );
}

#[test]
fn absolute_counter_never_lowers() {
    let mut rec = InfluxBuilder::new().build_recorder();
    let key = bare_key("counter");
    rec.handle.absolute_counter(&key, 10);
    rec.handle.absolute_counter(&key, 4);
    rec.handle.increment_counter(&key, 1);
    let (count, text) = render_plain(&mut rec.handle, NOW);
    assert_eq!(count, 2);
    assert_eq!(
        text,
        "counter value=0i 999000000\ncounter value=11i 1000000000"
    );
}

#[test]
fn global_tag_outranks_unprefixed_label() {
    let mut rec = InfluxBuilder::new()
        .add_global_tag("env".to_string(), "prod".to_string())
        .build_recorder();
    let key = MetricKey::new(
        "counter".to_string(),
        vec![
            ("env".to_string(), "dev".to_string()),
            ("tag:region".to_string(), "west".to_string()),
        ],
    );
    rec.handle.increment_counter(&key, 1);
    let (_, text) = render_plain(&mut rec.handle, NOW);
    let lines: Vec<&str> = text.lines().collect();
    // the global tag wins over the unprefixed label; the prefixed label stands
    assert_eq!(
        lines,
        vec![
            "counter,env=prod,region=west value=0i 999000000",
            "counter,env=prod,region=west value=1i 1000000000",
        ]
    );
}

#[test]
fn prefixed_label_outranks_global_tag() {
    let mut rec = InfluxBuilder::new()
        .add_global_tag("env".to_string(), "prod".to_string())
        .build_recorder();
    let key = MetricKey::new(
        "counter".to_string(),
        vec![("tag:env".to_string(), "dev".to_string())],
    );
    rec.handle.increment_counter(&key, 1);
    let (_, text) = render_plain(&mut rec.handle, NOW);
    let lines: Vec<&str> = text.lines().collect();
    assert_eq!(
        lines,
        vec![
            "counter,env=dev value=0i 999000000",
            "counter,env=dev value=1i 1000000000",
        ]
    );
}

#[test]
fn gauge_adjustments_accumulate_in_one_cell() {
    let mut rec = InfluxBuilder::new().build_recorder();
    let key = bare_key("gauge");
    rec.handle.increment_gauge(&key, Decimal::from_int(5));
    rec.handle.increment_gauge(&bare_key("gauge"), Decimal::from_int(3));
    rec.handle.decrement_gauge(&bare_key("gauge"), Decimal::from_int(10));
    let (count, text) = render_plain(&mut rec.handle, NOW);
    assert_eq!(count, 1);
    assert_eq!(text, "gauge value=-2 1000000000");
}

#[test]
fn missing_estimates_default_to_zero() {
    let mut rec = InfluxBuilder::new().build_recorder();
    rec.handle.record_histogram(&bare_key("histogram"), Decimal::from_int(7), NOW);
    let job = rec.handle.begin_render(NOW);
    assert_eq!(job.windows.len(), 1);
    let (count, text) = rec.handle.finish_render(job, &vec![]);
    assert_eq!(count, 1);
    assert_eq!(
        text,
        "histogram count=1i,max=0,min=0,p50=0,p90=0,p95=0,p99=0,p999=0,sum=7 1000000000"
    );
}

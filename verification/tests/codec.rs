use metrics_exporter_influx::decimal::decimal_chars_i128;
use metrics_exporter_influx::text::chars_to_string;
use metrics_exporter_influx::data::escape_string;
use metrics_exporter_influx::{Decimal, InfluxMetric, Matcher, MetricData, Quantile};

fn decimal_text(units: i64) -> String {
    chars_to_string(&decimal_chars_i128(units as i128))
}

#[test]
fn format() {
    let now: i64 = 1_577_840_461_000_000_000;
    let metric = InfluxMetric {
        name: "test =metric".to_string(),
        timestamp: 0,
        fields: vec![
            ("float".to_string(), MetricData::Float(Decimal::from_units(1_110_000_000))),
            ("\"int\"".to_string(), MetricData::Integer(-100)),
            ("uint".to_string(), MetricData::UInteger(100)),
            (
                "string".to_string(),
                MetricData::String("\"metric\", \u{1F680}".to_string()),
            ),
            ("bool".to_string(), MetricData::Boolean(false)),
            ("t".to_string(), MetricData::Timestamp(now)),
        ],
        tags: vec![
            ("tag Key1".to_string(), "tag Value1".to_string()),
            ("key".to_string(), "value".to_string()),
        ],
    };

    assert_eq!(
        metric.encode(),
        "test\\ \\=metric,key=value,tag\\ Key1=tag\\ Value1 \"int\"=-100i,bool=false,float=1.11,string=\"\\\"metric\\\", \u{1F680}\",t=1577840461000000000,uint=100i 0"
    );
}

#[test]
fn format_no_tags_no_fields() {
    let metric = InfluxMetric {
        name: "bare".to_string(),
        timestamp: 7,
        fields: vec![],
        tags: vec![],
    };
    assert_eq!(metric.encode(), "bare 7");
}

#[test]
fn escape_special_characters() {
    assert_eq!(escape_string("a b,c=d"), "a\\ b\\,c\\=d");
    assert_eq!(escape_string("plain"), "plain");
    assert_eq!(escape_string(""), "");
}

#[test]
fn decimal_rendering() {
    assert_eq!(decimal_text(1_110_000_000), "1.11");
    assert_eq!(decimal_text(-1_000_000_000_000), "-1000");
    assert_eq!(decimal_text(0), "0");
    assert_eq!(decimal_text(500_000_000), "0.5");
    assert_eq!(decimal_text(-1_500_000), "-0.0015");
    assert_eq!(decimal_text(4_950_000_000_000), "4950");
}

#[test]
fn decimal_two_places() {
    let d = Decimal::from_units(1_115_000_000);
    assert_eq!(chars_to_string(&d.two_places_chars()), "1.12");
    let d = Decimal::from_int(10);
    assert_eq!(chars_to_string(&d.two_places_chars()), "10.00");
    let d = Decimal::from_units(500_000_000);
    assert_eq!(chars_to_string(&d.two_places_chars()), "0.50");
}

#[test]
fn quantile_labels() {
    assert_eq!(Quantile::new(0).label, "min");
    assert_eq!(Quantile::new(10000).label, "max");
    assert_eq!(Quantile::new(5000).label, "p50");
    assert_eq!(Quantile::new(9000).label, "p90");
    assert_eq!(Quantile::new(9500).label, "p95");
    assert_eq!(Quantile::new(9900).label, "p99");
    assert_eq!(Quantile::new(9990).label, "p999");
    assert_eq!(Quantile::new(20000).label, "max");
}

#[test]
fn matcher_matches() {
    assert!(Matcher::Full("latency_ms".to_string()).matches("latency_ms"));
    assert!(!Matcher::Full("latency".to_string()).matches("latency_ms"));
    assert!(Matcher::Prefix("lat".to_string()).matches("latency_ms"));
    assert!(!Matcher::Prefix("lat".to_string()).matches("other_ms"));
    assert!(Matcher::Suffix("_ms".to_string()).matches("latency_ms"));
    assert!(!Matcher::Suffix("_s".to_string()).matches("latency_ms"));
}

#[test]
fn field_value_rendering() {
    let metric = InfluxMetric {
        name: "m".to_string(),
        timestamp: 1,
        fields: vec![
            ("b".to_string(), MetricData::Boolean(true)),
            ("s".to_string(), MetricData::String("he said \"hi\"".to_string())),
        ],
        tags: vec![],
    };
    assert_eq!(metric.encode(), "m b=true,s=\"he said \\\"hi\\\"\" 1");
}

#[test]
fn numeric_field_value_passes_through() {
    let metric = InfluxMetric {
        name: "m".to_string(),
        timestamp: 1,
        fields: vec![
            ("p50".to_string(), MetricData::Numeric("49.00390593892515".to_string())),
        ],
        tags: vec![],
    };
    assert_eq!(metric.encode(), "m p50=49.00390593892515 1");
}

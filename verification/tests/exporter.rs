use metrics_exporter_influx::{
    APIVersion, BuildError, Decimal, DeliveryState, Exporter, HttpConfig, InfluxBuilder, Matcher,
    MetricKey,
};

fn bare_key(name: &str) -> MetricKey {
    MetricKey::new(name.to_string(), vec![])
}

const NOW: i64 = 1_000_000_000;

#[test]
fn empty_quantiles_rejected() {
    let r = InfluxBuilder::new().with_quantiles(&vec![]);
    assert!(matches!(r, Err(BuildError::EmptyBucketsOrQuantiles)));
}

#[test]
fn empty_buckets_rejected() {
    let r = InfluxBuilder::new().with_buckets(&vec![]);
    assert!(matches!(r, Err(BuildError::EmptyBucketsOrQuantiles)));
    let r = InfluxBuilder::new()
        .add_buckets_for_metric(Matcher::Prefix("lat".to_string()), &vec![]);
    assert!(matches!(r, Err(BuildError::EmptyBucketsOrQuantiles)));
}

#[test]
fn invalid_endpoint_rejected() {
    let r = InfluxBuilder::new().with_influx_api(
        "not a url",
        "db".to_string(),
        None,
        None,
        None,
    );
    match r {
        // the error carries the URL parser's own message
        Err(BuildError::InvalidEndpoint(s)) => assert_eq!(s, "relative URL without a base"),
        _ => panic!("expected an invalid endpoint error"),
    }
    let ok = InfluxBuilder::new().with_influx_api(
        "http://localhost:8086",
        "db".to_string(),
        None,
        None,
        None,
    );
    assert!(ok.is_ok());
}

#[test]
fn no_data_no_op_file() {
    let rec = InfluxBuilder::new().build_recorder();
    let mut exporter = match rec.exporter() {
        Exporter::File(f) => f,
        _ => panic!("expected the file sink"),
    };
    let job = exporter.begin_write(NOW);
    assert!(exporter.write_plan(job, &vec![]).is_none());
}

#[test]
fn no_data_no_op_http() {
    let rec = InfluxBuilder::new()
        .with_grafana_cloud_api("http://localhost:9090", None, None)
        .unwrap()
        .build_recorder();
    let mut exporter = match rec.exporter() {
        Exporter::Http(h) => h,
        _ => panic!("expected the http sink"),
    };
    let job = exporter.begin_write(NOW);
    assert!(exporter.open_session(job, &vec![]).is_none());
}

#[test]
fn file_write_appends_and_clears() {
    let mut rec = InfluxBuilder::new().build_recorder();
    rec.handle.increment_counter(&bare_key("counter"), 2);
    let mut exporter = match rec.exporter() {
        Exporter::File(f) => f,
        _ => panic!("expected the file sink"),
    };
    let job = exporter.begin_write(NOW);
    let body = exporter.write_plan(job, &vec![]).expect("a batch to write");
    assert_eq!(
        body,
        "counter value=0i 999000000\ncounter value=2i 1000000000"
    );
    exporter.commit_write();
    let job = exporter.begin_write(NOW);
    assert!(exporter.write_plan(job, &vec![]).is_none());
}

#[test]
fn http_retry_delivers_after_two_failures() {
    let mut rec = InfluxBuilder::new()
        .with_grafana_cloud_api("http://localhost:9090", None, None)
        .unwrap()
        .build_recorder();
    rec.handle.increment_counter(&bare_key("counter"), 2);
    let mut exporter = match rec.exporter() {
        Exporter::Http(h) => h,
        _ => panic!("expected the http sink"),
    };
    let job = exporter.begin_write(NOW);
    let mut session = exporter.open_session(job, &vec![]).expect("a batch to deliver");
    let mut attempts = 0;
    let mut delivered_bodies = 0;
    let outcomes = [false, false, true];
    while session.should_send() {
        let success = outcomes[attempts];
        attempts += 1;
        if success {
            delivered_bodies += 1;
        }
        let delay = session.on_response(success);
        if success {
            assert!(delay.is_none());
        } else {
            assert_eq!(delay, Some(500));
        }
    }
    assert_eq!(attempts, 3);
    assert_eq!(delivered_bodies, 1);
    assert_eq!(session.state(), DeliveryState::Delivered);
    exporter.finish_write(session.state());
    // exactly one clear: the next window is empty
    let job = exporter.begin_write(NOW);
    assert!(exporter.open_session(job, &vec![]).is_none());
}

#[test]
fn http_retry_exhaustion_never_clears() {
    let mut rec = InfluxBuilder::new()
        .with_grafana_cloud_api("http://localhost:9090", None, None)
        .unwrap()
        .build_recorder();
    rec.handle.increment_counter(&bare_key("counter"), 2);
    let mut exporter = match rec.exporter() {
        Exporter::Http(h) => h,
        _ => panic!("expected the http sink"),
    };
    let job = exporter.begin_write(NOW);
    let mut session = exporter.open_session(job, &vec![]).expect("a batch to deliver");
    let mut attempts = 0;
    let mut delays = Vec::new();
    while session.should_send() {
        attempts += 1;
        if let Some(d) = session.on_response(false) {
            delays.push(d);
        }
    }
    assert_eq!(attempts, 4);
    assert_eq!(delays, vec![500, 500, 1000]);
    assert_eq!(session.state(), DeliveryState::GivenUp);
    exporter.finish_write(session.state());
    // the registry was not cleared: the counter value is still there
    let job = exporter.begin_write(NOW);
    let next = exporter.open_session(job, &vec![]).expect("the data to survive");
    assert!(next.body.contains("value=2i"));
}

#[test]
fn request_plan_by_flavor() {
    let config = HttpConfig {
        api_version: APIVersion::Influx {
            bucket: "db/rp".to_string(),
            precision: Some("ns".to_string()),
            org: Some("org_id".to_string()),
        },
        gzip: false,
        endpoint: "http://localhost:8086".to_string(),
        username: Some("user".to_string()),
        password: Some("password".to_string()),
    };
    let plan = config.request_plan();
    assert_eq!(
        plan.query,
        vec![
            ("bucket".to_string(), "db/rp".to_string()),
            ("precision".to_string(), "ns".to_string()),
            ("org".to_string(), "org_id".to_string()),
        ]
    );
    assert_eq!(plan.auth_header, Some("Token user:password".to_string()));

    let config = HttpConfig {
        api_version: APIVersion::GrafanaCloud,
        gzip: false,
        endpoint: "http://localhost:9090".to_string(),
        username: Some("user".to_string()),
        password: Some("password".to_string()),
    };
    let plan = config.request_plan();
    assert!(plan.query.is_empty());
    assert_eq!(plan.auth_header, Some("Bearer user:password".to_string()));

    let config = HttpConfig {
        api_version: APIVersion::GrafanaCloud,
        gzip: false,
        endpoint: "http://localhost:9090".to_string(),
        username: None,
        password: None,
    };
    assert_eq!(config.request_plan().auth_header, None);
}

#[test]
fn build_error_messages() {
    assert_eq!(
        BuildError::EmptyBucketsOrQuantiles.message(),
        "empty buckets or quantiles"
    );
    assert_eq!(
        BuildError::InvalidEndpoint("x".to_string()).message(),
        "invalid endpoint x"
    );
}

#[test]
fn gauge_survives_render_until_clear() {
    let mut rec = InfluxBuilder::new().build_recorder();
    rec.handle.set_gauge(&bare_key("gauge"), Decimal::from_int(-1000));
    let job = rec.handle.begin_render(NOW);
    let (_, text1) = rec.handle.finish_render(job, &vec![]);
    assert_eq!(text1, "gauge value=-1000 1000000000");
    let job = rec.handle.begin_render(NOW);
    let (_, text2) = rec.handle.finish_render(job, &vec![]);
    assert_eq!(text2, "gauge value=-1000 1000000000");
}

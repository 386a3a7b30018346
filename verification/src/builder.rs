//! The configuration surface: validated options folded into a recorder.

use vstd::prelude::*;
use vstd::string::StringExecFns;

use crate::data::MetricData;
use crate::decimal::Decimal;
use crate::distribution::{copy_decimals, parse_quantiles, DistributionBuilder, Quantile};
use crate::exporter::{InfluxFileExporter, InfluxHttpExporter};
use crate::http::{check_url, url_error, url_parses, APIVersion, HttpConfig};
use crate::matcher::Matcher;
use crate::recorder::InfluxHandle;
use crate::text::{assoc_set, spec_assoc_set, str_chars, str_eq, chars_to_string};

verus! {

/// Why building or installing a recorder failed.
#[derive(Debug)]
pub enum BuildError {
    /// An invalid URL was supplied.
    InvalidEndpoint(String),
    /// The background execution context could not be created.
    FailedToCreateRuntime(String),
    /// Installing the recorder as the process default did not succeed.
    FailedToSetGlobalRecorder(String),
    /// An empty bucket or quantile list was supplied.
    EmptyBucketsOrQuantiles,
}

/// Which sink a recorder exports to.
#[derive(Debug)]
pub enum ExporterConfig {
    /// Deliver over HTTP with the given configuration.
    Http(HttpConfig),
    /// Append to a byte destination the caller supplies.
    File,
}

impl ExporterConfig {
    /// Names the sink kind.
    pub fn as_type_str(&self) -> (r: &'static str)
        ensures
            self is Http ==> r@ == seq!['h', 't', 't', 'p'],
            self is File ==> r@ == seq!['f', 'i', 'l', 'e'],
    {
        proof {
            reveal_strlit("http");
            reveal_strlit("file");
            assert(("http")@ =~= seq!['h', 't', 't', 'p']);
            assert(("file")@ =~= seq!['f', 'i', 'l', 'e']);
        }
        match self {
            ExporterConfig::Http(_) => "http",
            ExporterConfig::File => "file",
        }
    }
}

/// The aggregation state bound to its configured sink.
#[derive(Debug)]
pub struct InfluxRecorder {
    /// The aggregation state.
    pub handle: InfluxHandle,
    /// The sink this recorder exports to.
    pub exporter_config: ExporterConfig,
}

/// A recorder's sink, ready to write.
#[derive(Debug)]
pub enum Exporter {
    /// The file-sink exporter.
    File(InfluxFileExporter),
    /// The HTTP-sink exporter.
    Http(InfluxHttpExporter),
}

impl InfluxRecorder {
    /// Binds aggregation state to a sink choice.
    pub fn new(handle: InfluxHandle, exporter_config: ExporterConfig) -> (r: InfluxRecorder)
        ensures
            r.handle == handle,
            r.exporter_config == exporter_config,
    {
        InfluxRecorder { handle, exporter_config }
    }

    /// A view of the aggregation state.
    pub fn handle(&self) -> (r: &InfluxHandle)
        ensures
            r == &self.handle,
    {
        &self.handle
    }

    /// Turns the recorder into its configured exporter.
    pub fn exporter(self) -> (r: Exporter)
        ensures
            match r {
                Exporter::File(f) => self.exporter_config is File && f.handle == self.handle,
                Exporter::Http(h) => self.exporter_config is Http && h.handle == self.handle
                    && self.exporter_config == ExporterConfig::Http(h.config),
            },
    {
        match self.exporter_config {
            ExporterConfig::File => Exporter::File(InfluxFileExporter::new(self.handle)),
            ExporterConfig::Http(config) => Exporter::Http(
                InfluxHttpExporter::new(self.handle, config),
            ),
        }
    }
}

/// Whether two matchers are the same rule on the same text.
pub open spec fn spec_matcher_eq(a: &Matcher, b: &Matcher) -> bool {
    match (a, b) {
        (Matcher::Full(x), Matcher::Full(y)) => x@ == y@,
        (Matcher::Prefix(x), Matcher::Prefix(y)) => x@ == y@,
        (Matcher::Suffix(x), Matcher::Suffix(y)) => x@ == y@,
        _ => false,
    }
}

fn matcher_eq(a: &Matcher, b: &Matcher) -> (r: bool)
    ensures
        r == spec_matcher_eq(a, b),
{
    match (a, b) {
        (Matcher::Full(x), Matcher::Full(y)) => str_eq(x.as_str(), y.as_str()),
        (Matcher::Prefix(x), Matcher::Prefix(y)) => str_eq(x.as_str(), y.as_str()),
        (Matcher::Suffix(x), Matcher::Suffix(y)) => str_eq(x.as_str(), y.as_str()),
        _ => false,
    }
}

/// Whether an override for the same rule is already registered.
pub open spec fn spec_has_matcher(ov: Seq<(Matcher, Vec<Decimal>)>, m: &Matcher) -> bool
    decreases ov.len(),
{
    if ov.len() == 0 {
        false
    } else if spec_matcher_eq(&ov[0].0, m) {
        true
    } else {
        spec_has_matcher(ov.drop_first(), m)
    }
}

/// Collects the recorder's options: the sink, the flush period, the
/// global context, and the quantile and bucket policies.
#[derive(Debug)]
pub struct InfluxBuilder {
    /// The sink to export to.
    pub exporter_config: ExporterConfig,
    /// The flush period in milliseconds, where set.
    pub duration_ms: Option<u64>,
    /// Tags applied to every point, where set.
    pub global_tags: Option<Vec<(String, String)>>,
    /// Fields applied to every point, where set.
    pub global_fields: Option<Vec<(String, MetricData)>>,
    /// The quantiles a summary reports.
    pub quantiles: Vec<Quantile>,
    /// The default bucket boundaries; their absence means summary mode.
    pub buckets: Option<Vec<Decimal>>,
    /// Per-matcher boundary overrides, in registration order.
    pub bucket_overrides: Option<Vec<(Matcher, Vec<Decimal>)>>,
}

impl InfluxBuilder {
    /// Every configured quantile labels itself.
    pub open spec fn wf(&self) -> bool {
        forall|i: int| 0 <= i < self.quantiles@.len() ==> (#[trigger] self.quantiles@[i]).wf()
    }

    /// Starts from the defaults: a file sink, the standard quantile
    /// set, no buckets, no global context.
    pub fn new() -> (r: InfluxBuilder)
        ensures
            r.wf(),
            r.exporter_config is File,
            r.duration_ms is None,
            r.global_tags is None,
            r.global_fields is None,
            r.quantiles@.len() == 7,
            r.quantiles@[0].value == 0,
            r.quantiles@[1].value == 5000,
            r.quantiles@[2].value == 9000,
            r.quantiles@[3].value == 9500,
            r.quantiles@[4].value == 9900,
            r.quantiles@[5].value == 9990,
            r.quantiles@[6].value == 10000,
            r.buckets is None,
            r.bucket_overrides is None,
    {
        let mut qs: Vec<u64> = Vec::new();
        qs.push(0);
        qs.push(5000);
        qs.push(9000);
        qs.push(9500);
        qs.push(9900);
        qs.push(9990);
        qs.push(10000);
        let quantiles = parse_quantiles(&qs);
        InfluxBuilder {
            exporter_config: ExporterConfig::File,
            duration_ms: None,
            global_tags: None,
            global_fields: None,
            quantiles,
            buckets: None,
            bucket_overrides: None,
        }
    }

    /// Replaces the quantile set; an empty set is rejected at
    /// configuration time.
    pub fn with_quantiles(self, quantiles: &Vec<u64>) -> (r: Result<InfluxBuilder, BuildError>)
        requires
            self.wf(),
        ensures
            quantiles@.len() == 0 <==> r matches Err(BuildError::EmptyBucketsOrQuantiles),
            match r {
                Ok(b) => {
                    &&& b.wf()
                    &&& b.quantiles@.len() == quantiles@.len()
                    &&& forall|i: int|
                        0 <= i < b.quantiles@.len() ==> (#[trigger] b.quantiles@[i]).value == (
                        if quantiles@[i] > 10000 {
                            10000int
                        } else {
                            quantiles@[i] as int
                        })
                    &&& b.exporter_config == self.exporter_config
                    &&& b.duration_ms == self.duration_ms
                    &&& b.global_tags == self.global_tags
                    &&& b.global_fields == self.global_fields
                    &&& b.buckets == self.buckets
                    &&& b.bucket_overrides == self.bucket_overrides
                },
                Err(e) => e is EmptyBucketsOrQuantiles,
            },
    {
        if quantiles.len() == 0 {
            Err(BuildError::EmptyBucketsOrQuantiles)
        } else {
            let parsed = parse_quantiles(quantiles);
            Ok(InfluxBuilder { quantiles: parsed, ..self })
        }
    }

    /// Replaces the default bucket boundaries, turning unmatched names
    /// to histogram mode; an empty list is rejected at configuration
    /// time.
    pub fn with_buckets(self, values: &Vec<Decimal>) -> (r: Result<InfluxBuilder, BuildError>)
        requires
            self.wf(),
        ensures
            values@.len() == 0 <==> r matches Err(BuildError::EmptyBucketsOrQuantiles),
            match r {
                Ok(b) => {
                    &&& b.wf()
                    &&& b.buckets matches Some(v) && v@ == values@
                    &&& b.exporter_config == self.exporter_config
                    &&& b.duration_ms == self.duration_ms
                    &&& b.global_tags == self.global_tags
                    &&& b.global_fields == self.global_fields
                    &&& b.quantiles == self.quantiles
                    &&& b.bucket_overrides == self.bucket_overrides
                },
                Err(e) => e is EmptyBucketsOrQuantiles,
            },
    {
        if values.len() == 0 {
            Err(BuildError::EmptyBucketsOrQuantiles)
        } else {
            Ok(InfluxBuilder { buckets: Some(copy_decimals(values)), ..self })
        }
    }

    /// Registers a per-matcher boundary override; the first
    /// registration for a rule wins, and an empty list is rejected at
    /// configuration time.
    pub fn add_buckets_for_metric(self, matcher: Matcher, values: &Vec<Decimal>) -> (r: Result<
        InfluxBuilder,
        BuildError,
    >)
        requires
            self.wf(),
        ensures
            values@.len() == 0 <==> r matches Err(BuildError::EmptyBucketsOrQuantiles),
            match r {
                Ok(b) => {
                    &&& b.wf()
                    &&& (match (b.bucket_overrides, self.bucket_overrides) {
                        (Some(newov), Some(oldov)) => if spec_has_matcher(oldov@, &matcher) {
                            newov@ == oldov@
                        } else {
                            newov@.len() == oldov@.len() + 1 && newov@.take(oldov@.len() as int)
                                == oldov@ && spec_matcher_eq(
                                &newov@.last().0,
                                &matcher,
                            ) && newov@.last().1@ == values@
                        },
                        (Some(newov), None) => newov@.len() == 1 && spec_matcher_eq(
                            &newov@[0].0,
                            &matcher,
                        ) && newov@[0].1@ == values@,
                        _ => false,
                    })
                    &&& b.exporter_config == self.exporter_config
                    &&& b.duration_ms == self.duration_ms
                    &&& b.global_tags == self.global_tags
                    &&& b.global_fields == self.global_fields
                    &&& b.quantiles == self.quantiles
                    &&& b.buckets == self.buckets
                },
                Err(e) => e is EmptyBucketsOrQuantiles,
            },
    {
        if values.len() == 0 {
            return Err(BuildError::EmptyBucketsOrQuantiles);
        }
        let mut overrides: Vec<(Matcher, Vec<Decimal>)> = match self.bucket_overrides {
            Some(v) => v,
            None => Vec::new(),
        };
        let ghost ov0 = overrides@;
        let n = overrides.len();
        let mut i: usize = 0;
        let mut found: bool = false;
        proof {
            assert(ov0.skip(0) =~= ov0);
        }
        while i < n
            invariant_except_break
                i <= n,
                !found,
                n == overrides@.len(),
                overrides@ == ov0,
                spec_has_matcher(ov0, &matcher) == spec_has_matcher(ov0.skip(i as int), &matcher),
            ensures
                overrides@ == ov0,
                found == spec_has_matcher(ov0, &matcher),
            decreases n - i,
        {
            proof {
                assert(ov0.skip(i as int)[0] == ov0[i as int]);
            }
            if matcher_eq(&overrides[i].0, &matcher) {
                found = true;
                break;
            }
            proof {
                assert(ov0.skip(i as int).drop_first() =~= ov0.skip(i + 1 as int));
            }
            i = i + 1;
        }
        proof {
            if i >= n && !found {
                assert(ov0.skip(n as int) =~= Seq::<(Matcher, Vec<Decimal>)>::empty());
            }
        }
        if !found {
            overrides.push((matcher, copy_decimals(values)));
            proof {
                assert(overrides@.take(ov0.len() as int) =~= ov0);
            }
        }
        Ok(InfluxBuilder { bucket_overrides: Some(overrides), ..self })
    }

    /// Adds one global tag, overriding an earlier one under the same
    /// key.
    pub fn add_global_tag(self, key: String, value: String) -> (r: InfluxBuilder)
        requires
            self.wf(),
        ensures
            r.wf(),
            (match (r.global_tags, self.global_tags) {
                (Some(newt), Some(oldt)) => newt.deep_view() == spec_assoc_set(
                    oldt.deep_view(),
                    key@,
                    value@,
                ),
                (Some(newt), None) => newt.deep_view() == spec_assoc_set(
                    Seq::<(Seq<char>, Seq<char>)>::empty(),
                    key@,
                    value@,
                ),
                _ => false,
            }),
            r.exporter_config == self.exporter_config,
            r.duration_ms == self.duration_ms,
            r.global_fields == self.global_fields,
            r.quantiles == self.quantiles,
            r.buckets == self.buckets,
            r.bucket_overrides == self.bucket_overrides,
    {
        let mut tags: Vec<(String, String)> = match self.global_tags {
            Some(t) => t,
            None => Vec::new(),
        };
        proof {
            assert(tags.deep_view() == tags.deep_view());
        }
        assoc_set(&mut tags, key, value);
        InfluxBuilder { global_tags: Some(tags), ..self }
    }

    /// Adds one global field, overriding an earlier one under the same
    /// key.
    pub fn add_global_field(self, key: String, value: MetricData) -> (r: InfluxBuilder)
        requires
            self.wf(),
        ensures
            r.wf(),
            (match (r.global_fields, self.global_fields) {
                (Some(newf), Some(oldf)) => newf.deep_view() == spec_assoc_set(
                    oldf.deep_view(),
                    key@,
                    value@,
                ),
                (Some(newf), None) => newf.deep_view() == spec_assoc_set(
                    Seq::<(Seq<char>, crate::data::MetricDataView)>::empty(),
                    key@,
                    value@,
                ),
                _ => false,
            }),
            r.exporter_config == self.exporter_config,
            r.duration_ms == self.duration_ms,
            r.global_tags == self.global_tags,
            r.quantiles == self.quantiles,
            r.buckets == self.buckets,
            r.bucket_overrides == self.bucket_overrides,
    {
        let mut fields: Vec<(String, MetricData)> = match self.global_fields {
            Some(f) => f,
            None => Vec::new(),
        };
        assoc_set(&mut fields, key, value);
        InfluxBuilder { global_fields: Some(fields), ..self }
    }

    /// Sets the flush period, in milliseconds.
    pub fn with_duration(self, duration_ms: u64) -> (r: InfluxBuilder)
        requires
            self.wf(),
        ensures
            r.wf(),
            r.duration_ms == Some(duration_ms),
            r.exporter_config == self.exporter_config,
            r.global_tags == self.global_tags,
            r.global_fields == self.global_fields,
            r.quantiles == self.quantiles,
            r.buckets == self.buckets,
            r.bucket_overrides == self.bucket_overrides,
    {
        InfluxBuilder { duration_ms: Some(duration_ms), ..self }
    }

    /// Points the recorder at a token-authenticated endpoint with
    /// bucket, precision and organisation query parameters; an
    /// endpoint that is not a well-formed URL is rejected here, before
    /// anything runs.
    pub fn with_influx_api(
        self,
        endpoint: &str,
        bucket: String,
        username: Option<String>,
        password: Option<String>,
        org: Option<String>,
    ) -> (r: Result<InfluxBuilder, BuildError>)
        requires
            self.wf(),
        ensures
            url_parses(endpoint@) <==> !(r matches Err(BuildError::InvalidEndpoint(_))),
            match r {
                Ok(b) => {
                    &&& b.wf()
                    &&& (b.exporter_config matches ExporterConfig::Http(c) && {
                        &&& c.endpoint@ == endpoint@
                        &&& c.gzip == true
                        &&& (c.api_version matches APIVersion::Influx {
                            bucket: cb,
                            precision,
                            org: co,
                        } && cb@ == bucket@ && (precision matches Some(p) && p@ == seq![
                            'n',
                            's',
                        ]) && co == org)
                        &&& c.username == username
                        &&& c.password == password
                    })
                    &&& b.duration_ms == self.duration_ms
                    &&& b.global_tags == self.global_tags
                    &&& b.global_fields == self.global_fields
                    &&& b.quantiles == self.quantiles
                    &&& b.buckets == self.buckets
                    &&& b.bucket_overrides == self.bucket_overrides
                },
                Err(e) => e matches BuildError::InvalidEndpoint(s) && url_error(endpoint@)
                    == Some(s@),
            },
    {
        match check_url(endpoint) {
            Some(message) => {
                return Err(BuildError::InvalidEndpoint(message));
            },
            None => {},
        }
        let precision = String::from_str("ns");
        proof {
            reveal_strlit("ns");
            assert(("ns")@ =~= seq!['n', 's']);
        }
        let config = HttpConfig {
            api_version: APIVersion::Influx { bucket, precision: Some(precision), org },
            gzip: true,
            endpoint: chars_to_string(&str_chars(endpoint)),
            username,
            password,
        };
        Ok(InfluxBuilder { exporter_config: ExporterConfig::Http(config), ..self })
    }

    /// Points the recorder at a bearer-authenticated endpoint with no
    /// query parameters; an endpoint that is not a well-formed URL is
    /// rejected here, before anything runs.
    pub fn with_grafana_cloud_api(
        self,
        endpoint: &str,
        username: Option<String>,
        password: Option<String>,
    ) -> (r: Result<InfluxBuilder, BuildError>)
        requires
            self.wf(),
        ensures
            url_parses(endpoint@) <==> !(r matches Err(BuildError::InvalidEndpoint(_))),
            match r {
                Ok(b) => {
                    &&& b.wf()
                    &&& (b.exporter_config matches ExporterConfig::Http(c) && {
                        &&& c.endpoint@ == endpoint@
                        &&& c.gzip == true
                        &&& c.api_version is GrafanaCloud
                        &&& c.username == username
                        &&& c.password == password
                    })
                    &&& b.duration_ms == self.duration_ms
                    &&& b.global_tags == self.global_tags
                    &&& b.global_fields == self.global_fields
                    &&& b.quantiles == self.quantiles
                    &&& b.buckets == self.buckets
                    &&& b.bucket_overrides == self.bucket_overrides
                },
                Err(e) => e matches BuildError::InvalidEndpoint(s) && url_error(endpoint@)
                    == Some(s@),
            },
    {
        match check_url(endpoint) {
            Some(message) => {
                return Err(BuildError::InvalidEndpoint(message));
            },
            None => {},
        }
        let config = HttpConfig {
            api_version: APIVersion::GrafanaCloud,
            gzip: true,
            endpoint: chars_to_string(&str_chars(endpoint)),
            username,
            password,
        };
        Ok(InfluxBuilder { exporter_config: ExporterConfig::Http(config), ..self })
    }

    /// Switches body compression on or off for an HTTP sink; a file
    /// sink is left as it is.
    pub fn with_gzip(self, gzip: bool) -> (r: InfluxBuilder)
        requires
            self.wf(),
        ensures
            r.wf(),
            (match self.exporter_config {
                ExporterConfig::Http(c) => r.exporter_config == ExporterConfig::Http(
                    HttpConfig {
                        api_version: c.api_version,
                        gzip,
                        endpoint: c.endpoint,
                        username: c.username,
                        password: c.password,
                    },
                ),
                ExporterConfig::File => r.exporter_config is File,
            }),
            r.duration_ms == self.duration_ms,
            r.global_tags == self.global_tags,
            r.global_fields == self.global_fields,
            r.quantiles == self.quantiles,
            r.buckets == self.buckets,
            r.bucket_overrides == self.bucket_overrides,
    {
        let exporter_config = match self.exporter_config {
            ExporterConfig::Http(c) => ExporterConfig::Http(
                HttpConfig {
                    api_version: c.api_version,
                    gzip,
                    endpoint: c.endpoint,
                    username: c.username,
                    password: c.password,
                },
            ),
            ExporterConfig::File => ExporterConfig::File,
        };
        InfluxBuilder { exporter_config, ..self }
    }

    /// Selects the file sink; the caller supplies the byte destination
    /// at write time.
    pub fn with_file_sink(self) -> (r: InfluxBuilder)
        requires
            self.wf(),
        ensures
            r.wf(),
            r.exporter_config is File,
            r.duration_ms == self.duration_ms,
            r.global_tags == self.global_tags,
            r.global_fields == self.global_fields,
            r.quantiles == self.quantiles,
            r.buckets == self.buckets,
            r.bucket_overrides == self.bucket_overrides,
    {
        InfluxBuilder { exporter_config: ExporterConfig::File, ..self }
    }

    /// Folds the collected options into a recorder with an empty
    /// registry.
    pub fn build_recorder(self) -> (r: InfluxRecorder)
        requires
            self.wf(),
        ensures
            r.handle.registry.counters@.len() == 0,
            r.handle.registry.gauges@.len() == 0,
            r.handle.registry.histograms@.len() == 0,
            r.handle.registry.counter_registrations@.len() == 0,
            (match self.global_tags {
                Some(t) => r.handle.global_tags == t,
                None => r.handle.global_tags@.len() == 0,
            }),
            (match self.global_fields {
                Some(f) => r.handle.global_fields == f,
                None => r.handle.global_fields@.len() == 0,
            }),
            r.handle.distribution_builder.wf(),
            r.handle.distribution_builder.quantiles == self.quantiles,
            r.handle.distribution_builder.buckets == self.buckets,
            (match self.bucket_overrides {
                Some(ov) => r.handle.distribution_builder.bucket_overrides == ov,
                None => r.handle.distribution_builder.bucket_overrides@.len() == 0,
            }),
            r.handle.distribution_builder.cache@.len() == 0,
            r.exporter_config == self.exporter_config,
    {
        let global_tags: Vec<(String, String)> = match self.global_tags {
            Some(t) => t,
            None => Vec::new(),
        };
        let global_fields: Vec<(String, MetricData)> = match self.global_fields {
            Some(f) => f,
            None => Vec::new(),
        };
        let bucket_overrides: Vec<(Matcher, Vec<Decimal>)> = match self.bucket_overrides {
            Some(ov) => ov,
            None => Vec::new(),
        };
        let distribution_builder = DistributionBuilder::new(
            self.quantiles,
            self.buckets,
            bucket_overrides,
        );
        let handle = InfluxHandle::new(global_tags, global_fields, distribution_builder);
        InfluxRecorder::new(handle, self.exporter_config)
    }
}


impl Default for InfluxBuilder {
    /// The same defaults as `InfluxBuilder::new`.
    fn default() -> (r: InfluxBuilder)
        ensures
            r.wf(),
            r.exporter_config is File,
            r.duration_ms is None,
            r.global_tags is None,
            r.global_fields is None,
            r.buckets is None,
            r.bucket_overrides is None,
    {
        InfluxBuilder::new()
    }
}

impl BuildError {
    /// A short description of the failure.
    pub fn message(&self) -> (r: String)
        ensures
            match self {
                BuildError::EmptyBucketsOrQuantiles => r@ == seq![
                    'e', 'm', 'p', 't', 'y', ' ', 'b', 'u', 'c', 'k', 'e', 't', 's', ' ', 'o',
                    'r', ' ', 'q', 'u', 'a', 'n', 't', 'i', 'l', 'e', 's',
                ],
                BuildError::InvalidEndpoint(s) => r@ == seq![
                    'i', 'n', 'v', 'a', 'l', 'i', 'd', ' ', 'e', 'n', 'd', 'p', 'o', 'i', 'n',
                    't', ' ',
                ] + s@,
                BuildError::FailedToCreateRuntime(s) => r@ == seq![
                    'f', 'a', 'i', 'l', 'e', 'd', ' ', 't', 'o', ' ', 'c', 'r', 'e', 'a', 't',
                    'e', ' ', 'r', 'u', 'n', 't', 'i', 'm', 'e', ':', ' ',
                ] + s@,
                BuildError::FailedToSetGlobalRecorder(s) => r@ == seq![
                    'f', 'a', 'i', 'l', 'e', 'd', ' ', 't', 'o', ' ', 'i', 'n', 's', 't', 'a',
                    'l', 'l', ' ', 'r', 'e', 'c', 'o', 'r', 'd', 'e', 'r', ':', ' ',
                ] + s@,
            },
    {
        proof {
            reveal_strlit("empty buckets or quantiles");
            reveal_strlit("invalid endpoint ");
            reveal_strlit("failed to create runtime: ");
            reveal_strlit("failed to install recorder: ");
            assert(("empty buckets or quantiles")@ =~= seq![
                'e', 'm', 'p', 't', 'y', ' ', 'b', 'u', 'c', 'k', 'e', 't', 's', ' ', 'o', 'r',
                ' ', 'q', 'u', 'a', 'n', 't', 'i', 'l', 'e', 's',
            ]);
            assert(("invalid endpoint ")@ =~= seq![
                'i', 'n', 'v', 'a', 'l', 'i', 'd', ' ', 'e', 'n', 'd', 'p', 'o', 'i', 'n', 't',
                ' ',
            ]);
            assert(("failed to create runtime: ")@ =~= seq![
                'f', 'a', 'i', 'l', 'e', 'd', ' ', 't', 'o', ' ', 'c', 'r', 'e', 'a', 't', 'e',
                ' ', 'r', 'u', 'n', 't', 'i', 'm', 'e', ':', ' ',
            ]);
            assert(("failed to install recorder: ")@ =~= seq![
                'f', 'a', 'i', 'l', 'e', 'd', ' ', 't', 'o', ' ', 'i', 'n', 's', 't', 'a', 'l',
                'l', ' ', 'r', 'e', 'c', 'o', 'r', 'd', 'e', 'r', ':', ' ',
            ]);
        }
        match self {
            BuildError::EmptyBucketsOrQuantiles => String::from_str("empty buckets or quantiles"),
            BuildError::InvalidEndpoint(s) => {
                let mut m = String::from_str("invalid endpoint ");
                m.append(s.as_str());
                m
            },
            BuildError::FailedToCreateRuntime(s) => {
                let mut m = String::from_str("failed to create runtime: ");
                m.append(s.as_str());
                m
            },
            BuildError::FailedToSetGlobalRecorder(s) => {
                let mut m = String::from_str("failed to install recorder: ");
                m.append(s.as_str());
                m
            },
        }
    }
}

} // verus!

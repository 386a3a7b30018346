//! In-process metrics aggregation with InfluxDB line-protocol export.
//!
//! Counters, gauges and histogram samples are aggregated in a registry,
//! rendered as sorted line-protocol text, and handed to a file or HTTP
//! sink; the HTTP sink retries failed deliveries with a bounded backoff.

use vstd::prelude::*;

pub mod builder;
pub mod data;
pub mod decimal;
pub mod distribution;
pub mod exporter;
pub mod http;
pub mod matcher;
pub mod numfmt;
pub mod recorder;
pub mod registry;
pub mod text;

pub use builder::{BuildError, Exporter, ExporterConfig, InfluxBuilder, InfluxRecorder};
pub use data::{InfluxMetric, MetricData};
pub use decimal::Decimal;
pub use distribution::{Distribution, DistributionBuilder, Histogram, Quantile, Summary};
pub use exporter::{InfluxFileExporter, InfluxHttpExporter};
pub use http::{APIVersion, DeliveryState, HttpConfig, HttpWriteSession, RequestPlan};
pub use matcher::Matcher;
pub use recorder::{InfluxHandle, RenderJob, SummaryWindow};
pub use registry::{MetricKey, Registry};

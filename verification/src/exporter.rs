//! Sink-side write logic: render a batch, hand it out, clear on success.

use vstd::prelude::*;

use crate::decimal::Decimal;
use crate::http::{DeliveryState, HttpConfig, HttpWriteSession};
use crate::recorder::{spec_nonsummary_lines, spec_summary_windows, windows_model, InfluxHandle, RenderJob};
use crate::registry::{counters_model, gauges_model, hists_model, regs_model, MetricKeyView};
use crate::text::{spec_join_with, spec_sort_lines};

verus! {

/// The file-sink exporter: each write appends one rendered batch to a
/// byte destination the caller owns.
#[derive(Debug)]
pub struct InfluxFileExporter {
    /// The aggregation state this exporter renders.
    pub handle: InfluxHandle,
}

impl InfluxFileExporter {
    /// Builds a file exporter over the given handle.
    pub fn new(handle: InfluxHandle) -> (r: InfluxFileExporter)
        ensures
            r.handle == handle,
    {
        InfluxFileExporter { handle }
    }

    /// The read-pass of one write at `now`: everything but summary
    /// estimation. The caller runs the returned windows through the
    /// quantile estimator, then asks for the plan.
    pub fn begin_write(&mut self, now: i64) -> (job: RenderJob)
        requires
            old(self).handle.distribution_builder.wf(),
        ensures
            final(self).handle.registry.counters@ == old(self).handle.registry.counters@,
            final(self).handle.registry.gauges@ == old(self).handle.registry.gauges@,
            hists_model(final(self).handle.registry.histograms@) == hists_model(
                old(self).handle.registry.histograms@,
            ).map_values(|p: (MetricKeyView, Seq<(Decimal, i64)>)| (p.0, Seq::<(Decimal, i64)>::empty())),
            final(self).handle.registry.counter_registrations@.len() == 0,
            final(self).handle.global_tags == old(self).handle.global_tags,
            final(self).handle.global_fields == old(self).handle.global_fields,
            final(self).handle.distribution_builder.wf(),
            job.now == now,
            job.lines.deep_view() == spec_nonsummary_lines(
                gauges_model(old(self).handle.registry.gauges@),
                regs_model(old(self).handle.registry.counter_registrations@),
                counters_model(old(self).handle.registry.counters@),
                hists_model(old(self).handle.registry.histograms@),
                old(self).handle.distribution_builder,
                old(self).handle.global_tags.deep_view(),
                old(self).handle.global_fields.deep_view(),
                now as int,
            ),
            windows_model(job.windows@) == spec_summary_windows(
                hists_model(old(self).handle.registry.histograms@),
                old(self).handle.distribution_builder,
            ),
            forall|i: int|
                0 <= i < job.windows@.len() ==> (#[trigger] job.windows@[i]).summary.count
                    == job.windows@[i].summary.samples@.len(),
    {
        self.handle.begin_render(now)
    }

    /// Completes the write plan: with nothing rendered, no text is
    /// handed out and nothing need be written; otherwise the finished
    /// batch comes back. The caller appends the bytes and, only on
    /// success, commits the write.
    pub fn write_plan(
        &self,
        job: RenderJob,
        estimates: &Vec<Vec<Option<String>>>,
    ) -> (o: Option<String>)
        ensures
            match o {
                Some(text) => job.lines@.len() + job.windows@.len() > 0 && text@
                    == spec_join_with(
                    spec_sort_lines(
                        job.lines.deep_view() + self.handle.spec_summary_lines(
                            windows_model(job.windows@),
                            estimates.deep_view(),
                            job.now as int,
                        ),
                    ),
                    '\n',
                ),
                None => job.lines@.len() + job.windows@.len() == 0,
            },
    {
        if job.lines.len() == 0 && job.windows.len() == 0 {
            None
        } else {
            let (_count, text) = self.handle.finish_render(job, estimates);
            Some(text)
        }
    }

    /// Commits a successful write: every cell is dropped, so the next
    /// window starts fresh.
    pub fn commit_write(&mut self)
        ensures
            final(self).handle.registry.counters@.len() == 0,
            final(self).handle.registry.gauges@.len() == 0,
            final(self).handle.registry.histograms@.len() == 0,
            final(self).handle.registry.counter_registrations@ == old(
                self,
            ).handle.registry.counter_registrations@,
            final(self).handle.global_tags == old(self).handle.global_tags,
            final(self).handle.global_fields == old(self).handle.global_fields,
            final(self).handle.distribution_builder == old(self).handle.distribution_builder,
    {
        self.handle.clear();
    }
}

/// The HTTP-sink exporter: each write renders one batch and delivers
/// it with bounded, sequential retries.
#[derive(Debug)]
pub struct InfluxHttpExporter {
    /// The aggregation state this exporter renders.
    pub handle: InfluxHandle,
    /// The endpoint, flavor and credentials.
    pub config: HttpConfig,
}

impl InfluxHttpExporter {
    /// Builds an HTTP exporter over the given handle and configuration.
    pub fn new(handle: InfluxHandle, config: HttpConfig) -> (r: InfluxHttpExporter)
        ensures
            r.handle == handle,
            r.config == config,
    {
        InfluxHttpExporter { handle, config }
    }

    /// The read-pass of one write at `now`: everything but summary
    /// estimation. The caller runs the returned windows through the
    /// quantile estimator, then opens the delivery.
    pub fn begin_write(&mut self, now: i64) -> (job: RenderJob)
        requires
            old(self).handle.distribution_builder.wf(),
        ensures
            final(self).handle.registry.counters@ == old(self).handle.registry.counters@,
            final(self).handle.registry.gauges@ == old(self).handle.registry.gauges@,
            hists_model(final(self).handle.registry.histograms@) == hists_model(
                old(self).handle.registry.histograms@,
            ).map_values(|p: (MetricKeyView, Seq<(Decimal, i64)>)| (p.0, Seq::<(Decimal, i64)>::empty())),
            final(self).handle.registry.counter_registrations@.len() == 0,
            final(self).handle.global_tags == old(self).handle.global_tags,
            final(self).handle.global_fields == old(self).handle.global_fields,
            final(self).handle.distribution_builder.wf(),
            final(self).config == old(self).config,
            job.now == now,
            job.lines.deep_view() == spec_nonsummary_lines(
                gauges_model(old(self).handle.registry.gauges@),
                regs_model(old(self).handle.registry.counter_registrations@),
                counters_model(old(self).handle.registry.counters@),
                hists_model(old(self).handle.registry.histograms@),
                old(self).handle.distribution_builder,
                old(self).handle.global_tags.deep_view(),
                old(self).handle.global_fields.deep_view(),
                now as int,
            ),
            windows_model(job.windows@) == spec_summary_windows(
                hists_model(old(self).handle.registry.histograms@),
                old(self).handle.distribution_builder,
            ),
            forall|i: int|
                0 <= i < job.windows@.len() ==> (#[trigger] job.windows@[i]).summary.count
                    == job.windows@[i].summary.samples@.len(),
    {
        self.handle.begin_render(now)
    }

    /// Opens the delivery of the finished batch; with nothing
    /// rendered, no session is opened and no request is made.
    pub fn open_session(
        &self,
        job: RenderJob,
        estimates: &Vec<Vec<Option<String>>>,
    ) -> (o: Option<HttpWriteSession>)
        ensures
            match o {
                Some(session) => {
                    &&& job.lines@.len() + job.windows@.len() > 0
                    &&& session.wf()
                    &&& session.state is Pending
                    &&& session.attempts == 0
                    &&& session.max_attempts == 4
                    &&& session.delay_ms == 500
                    &&& session.next_delay_ms == 500
                    &&& session.body@ == spec_join_with(
                        spec_sort_lines(
                            job.lines.deep_view() + self.handle.spec_summary_lines(
                                windows_model(job.windows@),
                                estimates.deep_view(),
                                job.now as int,
                            ),
                        ),
                        '\n',
                    )
                },
                None => job.lines@.len() + job.windows@.len() == 0,
            },
    {
        if job.lines.len() == 0 && job.windows.len() == 0 {
            None
        } else {
            let (_count, text) = self.handle.finish_render(job, estimates);
            Some(HttpWriteSession::new(text))
        }
    }

    /// Closes one delivery: a delivered batch clears the registry so
    /// the next window starts fresh; a dropped batch leaves every cell
    /// as it was, accepting the loss without double counting.
    pub fn finish_write(&mut self, outcome: DeliveryState)
        ensures
            outcome is Delivered ==> {
                &&& final(self).handle.registry.counters@.len() == 0
                &&& final(self).handle.registry.gauges@.len() == 0
                &&& final(self).handle.registry.histograms@.len() == 0
                &&& final(self).handle.registry.counter_registrations@ == old(
                    self,
                ).handle.registry.counter_registrations@
            },
            !(outcome is Delivered) ==> final(self).handle == old(self).handle,
            final(self).handle.global_tags == old(self).handle.global_tags,
            final(self).handle.global_fields == old(self).handle.global_fields,
            final(self).handle.distribution_builder == old(self).handle.distribution_builder,
            final(self).config == old(self).config,
    {
        match outcome {
            DeliveryState::Delivered => {
                self.handle.clear();
            },
            _ => {},
        }
    }
}

} // verus!

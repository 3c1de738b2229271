//! Metric names, the metric value type, and publication through a
//! metrics sink. The sink is abstract so that the orchestrators can be
//! verified against the exact sequence of emissions they perform.

use vstd::prelude::*;

verus! {

/// The counter titles shared by both invocation paths.
#[derive(Debug, Clone, Copy, PartialEq, Eq, Structural)]
pub enum MetricName {
    Total,
    Updated,
    AlreadyHasRetention,
    AlreadyTaggedWithRetention,
    Errored,
}

impl MetricName {
    /// The counter title as it is reported to the metrics backend.
    pub open spec fn title_spec(&self) -> Seq<char> {
        match self {
            MetricName::Total => "Total"@,
            MetricName::Updated => "Updated"@,
            MetricName::AlreadyHasRetention => "AlreadyHasRetention"@,
            MetricName::AlreadyTaggedWithRetention => "AlreadyTaggedWithRetention"@,
            MetricName::Errored => "Errored"@,
        }
    }

    /// Renders the counter title.
    pub fn title(&self) -> (r: &'static str)
        ensures
            r@ == self.title_spec(),
    {
        match self {
            MetricName::Total => "Total",
            MetricName::Updated => "Updated",
            MetricName::AlreadyHasRetention => "AlreadyHasRetention",
            MetricName::AlreadyTaggedWithRetention => "AlreadyTaggedWithRetention",
            MetricName::Errored => "Errored",
        }
    }
}

/// One named counter observation.
#[derive(Debug, Clone, Copy, PartialEq, Eq, Structural)]
pub struct Metric {
    pub name: MetricName,
    pub value: u64,
}

impl Metric {
    pub fn new(name: MetricName, value: u64) -> (r: Self)
        ensures
            r == (Metric { name, value }),
    {
        Self { name, value }
    }
}

/// A sink for metric emissions. `emitted` is the sequence of batches the
/// sink has received, each with the namespace it was addressed to.
///
/// Emission is fire-and-forget: a conforming implementation reports
/// transport failures out of band (for instance by logging them) and never
/// propagates them, so that metrics loss cannot fail a business operation.
/// Implementations outside this crate are trusted to log each batch they
/// receive, as stated in `put_metric_data`'s contract.
pub trait PutMetricData {
    /// Every batch received so far, oldest first. The default stands for a
    /// sink that records nothing; an implementation verified against
    /// `put_metric_data`'s contract overrides it.
    open spec fn emitted(&self) -> Seq<(Seq<char>, Seq<Metric>)> {
        Seq::empty()
    }

    fn put_metric_data(&mut self, namespace: &str, metric_data: Vec<Metric>)
        ensures
            final(self).emitted() == old(self).emitted().push((namespace@, metric_data@)),
    ;
}

/// Emits a batch of counters to the sink as one call.
pub fn publish_metrics<M: PutMetricData>(sink: &mut M, namespace: &str, metrics: Vec<Metric>)
    ensures
        final(sink).emitted() == old(sink).emitted().push((namespace@, metrics@)),
{
    sink.put_metric_data(namespace, metrics);
}

/// Emits a single counter to the sink.
pub fn publish_metric<M: PutMetricData>(sink: &mut M, namespace: &str, metric: Metric)
    ensures
        final(sink).emitted() == old(sink).emitted().push((namespace@, seq![metric])),
{
    let mut batch: Vec<Metric> = Vec::new();
    batch.push(metric);
    assert(batch@ =~= seq![metric]);
    sink.put_metric_data(namespace, batch);
}

} // verus!

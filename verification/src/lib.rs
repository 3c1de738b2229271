//! Enforces a default log-retention policy across an account's log groups:
//! a reactive path that fixes one group when a creation notification
//! arrives, and a sweep path that walks every group, both built on one
//! verified reconciliation engine. The log-service client and the metrics
//! sink are trait parameters, so the decision logic is proved against their
//! recorded call logs and exercised with the scripted fakes.

mod cloudwatch_logs_traits;
mod config;
mod error;
mod event;
mod event_handler;
mod fakes;
mod global_retention_setter;
mod metric_publisher;
mod retention_setter;
mod text;

pub use cloudwatch_logs_traits::{
    ClientCall, CloudWatchLogsHistory, DescribeLogGroups, ListTagsForResource, LogGroupPage,
    LogGroupPageView, LogGroupState, LogGroupStateView, PutRetentionPolicy, TagResource,
    page_result_view, tags_result_view, unit_result_view,
};
pub use config::{
    DEFAULT_RETENTION_DAYS, RetentionConfig, all_dec_digits, dec_digit_value, digits_value,
    is_dec_digit, pairs_match_map, parse_i32, parse_log_group_tags, parse_retention_days,
    parsed_i32, retention_days_of, tags_of_json,
};
pub use error::{Error, Severity};
pub use event::{
    CloudTrailEvent, CloudTrailEventDetail, CloudTrailEventRequestParameters,
    CloudTrailEventUserIdentity, event_of_json,
};
pub use event_handler::{
    event_log_group_arn, event_post, parse_event, parse_failure_error, process_error,
    process_event,
};
pub use fakes::{CallRecord, FakeCloudWatchLogs, FakeMetrics, scripted_tags};
pub use global_retention_setter::{
    BatchResult, SweepSummary, UpdateResult, batch_metrics, count_already_has_retention,
    count_already_tagged, count_errored, count_updated, counted_total, errors_of,
    lemma_errors_of_membership, lemma_override_precedence,
    lemma_reconcile_arn_normalized, lemma_reconcile_idempotent, lemma_sweep_aggregate_invariant,
    override_tag_key, process_all_log_groups, process_log_group, reconcile_post,
    reconcile_trace, sweep_calls, sweep_counters, sweep_post, sweep_post_with, sweep_progress,
};
pub use metric_publisher::{Metric, MetricName, PutMetricData, publish_metric, publish_metrics};
pub use retention_setter::{found_group_retention, get_existing_retention};
pub use text::{
    dec_digit_char, dec_digits_text, i32_text, i32_to_string, normalized_arn, pairs_contain_key,
    pairs_first_value, strip_wildcard_suffix, tags_lookup, text_contains,
};

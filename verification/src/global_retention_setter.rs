//! The single-group reconciler and the whole-account sweep.
//!
//! The reconciler decides, for one log group, the minimal action: leave it
//! alone because it already has retention, leave it alone because a human
//! tagged it with the override key, or set the default retention and attach
//! the provenance tags. The sweep walks the paginated listing, reconciles
//! every group, aggregates the outcomes, and emits one metrics batch.

use vstd::prelude::*;

use crate::cloudwatch_logs_traits::{
    ClientCall, DescribeLogGroups, ListTagsForResource, LogGroupPageView, LogGroupState,
    LogGroupStateView, PutRetentionPolicy, TagResource,
};
use crate::config::RetentionConfig;
use crate::error::{Error, Severity};
use crate::metric_publisher::{Metric, MetricName, PutMetricData, publish_metrics};
use crate::text::{normalized_arn, pairs_contain_key, strip_wildcard_suffix, tags_lookup, text_contains,
    lemma_contains_append_left, lemma_contains_append_right};

verus! {

/// The key whose mere presence as a tag exempts a group from automatic
/// retention management.
pub open spec fn override_tag_key() -> Seq<char> {
    "retention"@
}

/// The outcome of reconciling one log group.
#[derive(Debug, Clone, Copy, PartialEq, Eq, Structural)]
pub enum UpdateResult {
    AlreadyHasRetention,
    AlreadyTaggedWithRetention,
    Updated,
}

/// Exactly which client calls one reconciliation makes, and how their
/// results determine its outcome. `delta` is the slice of the client's
/// call log that the reconciliation appended.
///
/// In order, short-circuiting: a group with retention makes no calls; the
/// tags of the group's normalized ARN are read; a group tagged with the
/// override key is left alone; the default retention is set; when
/// provenance tags are configured they are attached to the normalized ARN.
/// Every transport failure stops the sequence and is reported at `Error`
/// severity with the failure's own message.
pub open spec fn reconcile_post(
    group: LogGroupStateView,
    config: RetentionConfig,
    delta: Seq<ClientCall>,
    r: Result<UpdateResult, Error>,
) -> bool {
    if group.retention_in_days != 0 {
        &&& delta == Seq::<ClientCall>::empty()
        &&& r == Ok::<UpdateResult, Error>(UpdateResult::AlreadyHasRetention)
    } else {
        &&& delta.len() >= 1
        &&& delta[0] matches ClientCall::ListTagsForResource { resource_arn, result }
        &&& resource_arn == normalized_arn(group.arn)
        &&& match result {
            Err(e) => {
                &&& delta.len() == 1
                &&& r matches Err(err)
                &&& err.severity == Severity::Error
                &&& err.message@ == e
            },
            Ok(tags) => {
                if pairs_contain_key(tags, override_tag_key()) {
                    &&& delta.len() == 1
                    &&& r == Ok::<UpdateResult, Error>(UpdateResult::AlreadyTaggedWithRetention)
                } else {
                    &&& delta.len() >= 2
                    &&& delta[1] matches ClientCall::PutRetentionPolicy {
                        log_group_name,
                        retention_in_days,
                        result,
                    }
                    &&& log_group_name == group.log_group_name
                    &&& retention_in_days == config.retention_days as int
                    &&& match result {
                        Err(e) => {
                            &&& delta.len() == 2
                            &&& r matches Err(err)
                            &&& err.severity == Severity::Error
                            &&& err.message@ == e
                        },
                        Ok(u) => {
                            if config.log_group_tags.deep_view().len() == 0 {
                                &&& delta.len() == 2
                                &&& r == Ok::<UpdateResult, Error>(UpdateResult::Updated)
                            } else {
                                &&& delta.len() == 3
                                &&& delta[2] matches ClientCall::TagResource {
                                    log_group_arn,
                                    tags,
                                    result,
                                }
                                &&& log_group_arn == normalized_arn(group.arn)
                                &&& tags == config.log_group_tags.deep_view()
                                &&& match result {
                                    Err(e) => {
                                        &&& r matches Err(err)
                                        &&& err.severity == Severity::Error
                                        &&& err.message@ == e
                                    },
                                    Ok(u2) => r == Ok::<UpdateResult, Error>(UpdateResult::Updated),
                                }
                            }
                        },
                    }
                }
            },
        }
    }
}

/// Reconciles one log group against the configured policy, as
/// [`reconcile_post`] describes call by call.
pub fn process_log_group<C: ListTagsForResource + PutRetentionPolicy + TagResource>(
    log_group: &LogGroupState,
    config: &RetentionConfig,
    client: &mut C,
) -> (r: Result<UpdateResult, Error>)
    ensures
        final(client).pages_remaining() == old(client).pages_remaining(),
        old(client).calls().is_prefix_of(final(client).calls()),
        reconcile_post(
            log_group@,
            *config,
            final(client).calls().skip(old(client).calls().len() as int),
            r,
        ),
{
    let ghost n = old(client).calls().len() as int;
    if log_group.retention_in_days != 0 {
        assert(client.calls().skip(n) =~= Seq::<ClientCall>::empty());
        return Ok(UpdateResult::AlreadyHasRetention);
    }

    let log_group_arn = strip_wildcard_suffix(log_group.arn.as_str());
    let tags = match client.list_tags_for_resource(&log_group_arn) {
        Err(e) => {
            assert(client.calls().skip(n) =~= client.calls().subrange(n, n + 1));
            return Err(Error::from_client(e));
        },
        Ok(tags) => tags,
    };
    let override_key = String::from_str("retention");
    if tags_lookup(&tags, &override_key).is_some() {
        assert(client.calls().skip(n) =~= client.calls().subrange(n, n + 1));
        return Ok(UpdateResult::AlreadyTaggedWithRetention);
    }

    match client.put_retention_policy(&log_group.log_group_name, config.retention_days) {
        Err(e) => {
            assert(client.calls().skip(n) =~= client.calls().subrange(n, n + 2));
            return Err(Error::from_client(e));
        },
        Ok(u) => {},
    }

    if config.log_group_tags.len() > 0 {
        match client.tag_resource(&log_group_arn, &config.log_group_tags) {
            Err(e) => {
                assert(client.calls().skip(n) =~= client.calls().subrange(n, n + 3));
                return Err(Error::from_client(e));
            },
            Ok(u) => {},
        }
        assert(client.calls().skip(n) =~= client.calls().subrange(n, n + 3));
    } else {
        assert(client.calls().skip(n) =~= client.calls().subrange(n, n + 2));
    }
    Ok(UpdateResult::Updated)
}

/// Idempotence: when one reconciliation updated a group, a second
/// reconciliation of the same group — now observing the retention the first
/// one set — returns `AlreadyHasRetention` and makes zero client calls.
pub proof fn lemma_reconcile_idempotent(
    group: LogGroupStateView,
    config: RetentionConfig,
    first_delta: Seq<ClientCall>,
    first_outcome: Result<UpdateResult, Error>,
    second_group: LogGroupStateView,
    second_delta: Seq<ClientCall>,
    second_outcome: Result<UpdateResult, Error>,
)
    requires
        config.wf(),
        reconcile_post(group, config, first_delta, first_outcome),
        first_outcome == Ok::<UpdateResult, Error>(UpdateResult::Updated),
        second_group.log_group_name == group.log_group_name,
        second_group.arn == group.arn,
        second_group.retention_in_days == config.retention_days as int,
        reconcile_post(second_group, config, second_delta, second_outcome),
    ensures
        second_outcome == Ok::<UpdateResult, Error>(UpdateResult::AlreadyHasRetention),
        second_delta == Seq::<ClientCall>::empty(),
{
}

/// Override precedence: a group without retention whose tags carry the
/// override key is exempt — the outcome is `AlreadyTaggedWithRetention`
/// and no mutation occurs, only the one tag-read call — whatever default
/// retention is configured.
pub proof fn lemma_override_precedence(
    group: LogGroupStateView,
    config: RetentionConfig,
    delta: Seq<ClientCall>,
    outcome: Result<UpdateResult, Error>,
    tags: Seq<(Seq<char>, Seq<char>)>,
)
    requires
        group.retention_in_days == 0,
        reconcile_post(group, config, delta, outcome),
        delta[0] matches ClientCall::ListTagsForResource { resource_arn, result } && result == Ok::<
            Seq<(Seq<char>, Seq<char>)>,
            Seq<char>,
        >(tags),
        pairs_contain_key(tags, override_tag_key()),
    ensures
        outcome == Ok::<UpdateResult, Error>(UpdateResult::AlreadyTaggedWithRetention),
        delta.len() == 1,
        forall|i: int|
            0 <= i < delta.len() ==> !((#[trigger] delta[i]) is PutRetentionPolicy) && !(delta[i]
                is TagResource),
{
}

/// ARN normalization: every tag-read and tag-write call a reconciliation
/// makes addresses the group's ARN with its trailing wildcard suffix
/// stripped.
pub proof fn lemma_reconcile_arn_normalized(
    group: LogGroupStateView,
    config: RetentionConfig,
    delta: Seq<ClientCall>,
    outcome: Result<UpdateResult, Error>,
)
    requires
        reconcile_post(group, config, delta, outcome),
    ensures
        forall|i: int|
            0 <= i < delta.len() ==> ((#[trigger] delta[i]) matches
                ClientCall::ListTagsForResource { resource_arn, result } ==> resource_arn
                == normalized_arn(group.arn)),
        forall|i: int|
            0 <= i < delta.len() ==> ((#[trigger] delta[i]) matches ClientCall::TagResource {
                log_group_arn,
                tags,
                result,
            } ==> log_group_arn == normalized_arn(group.arn)),
{
    assert forall|i: int| 0 <= i < delta.len() implies ((#[trigger] delta[i]) matches
        ClientCall::ListTagsForResource { resource_arn, result } ==> resource_arn == normalized_arn(
        group.arn,
    )) && (delta[i] matches ClientCall::TagResource { log_group_arn, tags, result }
        ==> log_group_arn == normalized_arn(group.arn)) by {
        if group.retention_in_days != 0 {
        } else {
            assert(i == 0 || i == 1 || i == 2);
        }
    }
}

/// The running aggregate of a sweep: one count per outcome kind, the total,
/// and the errors in the order they were encountered.
///
/// Counting saturates once `total` reaches its maximum: from then on an
/// outcome leaves the aggregate unchanged, so the invariant that the total
/// equals the sum of the four outcome counts can never be broken.
#[derive(Debug)]
pub struct BatchResult {
    pub total: u64,
    pub updated: u64,
    pub already_has_retention: u64,
    pub already_tagged_with_retention: u64,
    pub errored: u64,
    pub errors: Vec<Error>,
}

impl BatchResult {
    /// The aggregate invariant: every processed group fell in exactly one
    /// bucket, and the error count matches the collected errors.
    pub open spec fn wf(&self) -> bool {
        &&& self.total as int == self.updated as int + self.already_has_retention as int
            + self.already_tagged_with_retention as int + self.errored as int
        &&& self.errored as int == self.errors@.len() as int
    }

    /// The empty aggregate.
    pub fn new() -> (r: BatchResult)
        ensures
            r.wf(),
            r.total == 0,
            r.updated == 0,
            r.already_has_retention == 0,
            r.already_tagged_with_retention == 0,
            r.errored == 0,
            r.errors@ == Seq::<Error>::empty(),
    {
        BatchResult {
            total: 0,
            updated: 0,
            already_has_retention: 0,
            already_tagged_with_retention: 0,
            errored: 0,
            errors: Vec::new(),
        }
    }

    /// Folds one group's outcome into the aggregate.
    pub fn record(&mut self, outcome: Result<UpdateResult, Error>)
        requires
            old(self).wf(),
        ensures
            final(self).wf(),
            old(self).total == u64::MAX ==> final(self).total == old(self).total
                && final(self).updated == old(self).updated && final(self).already_has_retention
                == old(self).already_has_retention && final(self).already_tagged_with_retention
                == old(self).already_tagged_with_retention && final(self).errors@ == old(
                self,
            ).errors@,
            old(self).total < u64::MAX ==> {
                &&& final(self).total == old(self).total + 1
                &&& final(self).updated == old(self).updated + (
                if outcome == Ok::<UpdateResult, Error>(UpdateResult::Updated) {
                    1int
                } else {
                    0int
                })
                &&& final(self).already_has_retention == old(self).already_has_retention + (
                if outcome == Ok::<UpdateResult, Error>(UpdateResult::AlreadyHasRetention) {
                    1int
                } else {
                    0int
                })
                &&& final(self).already_tagged_with_retention == old(
                    self,
                ).already_tagged_with_retention + (
                if outcome == Ok::<UpdateResult, Error>(UpdateResult::AlreadyTaggedWithRetention) {
                    1int
                } else {
                    0int
                })
                &&& final(self).errors@ == match outcome {
                    Ok(u) => old(self).errors@,
                    Err(e) => old(self).errors@.push(e),
                }
            },
    {
        if self.total == u64::MAX {
            return ;
        }
        self.total = self.total + 1;
        match outcome {
            Ok(UpdateResult::AlreadyHasRetention) => {
                self.already_has_retention = self.already_has_retention + 1;
            },
            Ok(UpdateResult::AlreadyTaggedWithRetention) => {
                self.already_tagged_with_retention = self.already_tagged_with_retention + 1;
            },
            Ok(UpdateResult::Updated) => {
                self.updated = self.updated + 1;
            },
            Err(e) => {
                self.errored = self.errored + 1;
                self.errors.push(e);
            },
        }
    }
}

/// How many outcomes in a sequence are `Updated`.
pub open spec fn count_updated(outcomes: Seq<Result<UpdateResult, Error>>) -> int
    decreases outcomes.len(),
{
    if outcomes.len() == 0 {
        0
    } else {
        count_updated(outcomes.drop_last()) + match outcomes.last() {
            Ok(UpdateResult::Updated) => 1int,
            _ => 0int,
        }
    }
}

/// How many outcomes in a sequence are `AlreadyHasRetention`.
pub open spec fn count_already_has_retention(outcomes: Seq<Result<UpdateResult, Error>>) -> int
    decreases outcomes.len(),
{
    if outcomes.len() == 0 {
        0
    } else {
        count_already_has_retention(outcomes.drop_last()) + match outcomes.last() {
            Ok(UpdateResult::AlreadyHasRetention) => 1int,
            _ => 0int,
        }
    }
}

/// How many outcomes in a sequence are `AlreadyTaggedWithRetention`.
pub open spec fn count_already_tagged(outcomes: Seq<Result<UpdateResult, Error>>) -> int
    decreases outcomes.len(),
{
    if outcomes.len() == 0 {
        0
    } else {
        count_already_tagged(outcomes.drop_last()) + match outcomes.last() {
            Ok(UpdateResult::AlreadyTaggedWithRetention) => 1int,
            _ => 0int,
        }
    }
}

/// How many outcomes in a sequence are errors.
pub open spec fn count_errored(outcomes: Seq<Result<UpdateResult, Error>>) -> int
    decreases outcomes.len(),
{
    if outcomes.len() == 0 {
        0
    } else {
        count_errored(outcomes.drop_last()) + match outcomes.last() {
            Err(e) => 1int,
            _ => 0int,
        }
    }
}

/// The sweep aggregate invariant: for any sequence of per-group outcomes,
/// the total equals the updated, already-has-retention,
/// already-tagged-for-exemption and errored counts added together.
pub proof fn lemma_sweep_aggregate_invariant(outcomes: Seq<Result<UpdateResult, Error>>)
    ensures
        outcomes.len() == count_updated(outcomes) + count_already_has_retention(outcomes)
            + count_already_tagged(outcomes) + count_errored(outcomes),
    decreases outcomes.len(),
{
    if outcomes.len() > 0 {
        lemma_sweep_aggregate_invariant(outcomes.drop_last());
    }
}

/// A count capped at what a 64-bit counter can hold.
pub open spec fn counted_total(listed: int) -> int {
    if listed <= u64::MAX as int {
        listed
    } else {
        u64::MAX as int
    }
}

/// The errors among a sequence of outcomes, in the order they occurred.
pub open spec fn errors_of(outcomes: Seq<Result<UpdateResult, Error>>) -> Seq<Error>
    decreases outcomes.len(),
{
    if outcomes.len() == 0 {
        Seq::empty()
    } else {
        errors_of(outcomes.drop_last()) + match outcomes.last() {
            Err(e) => seq![e],
            Ok(u) => Seq::<Error>::empty(),
        }
    }
}

/// How one more outcome moves each counter and the error list.
proof fn lemma_counts_push(
    outcomes: Seq<Result<UpdateResult, Error>>,
    outcome: Result<UpdateResult, Error>,
)
    ensures
        count_updated(outcomes.push(outcome)) == count_updated(outcomes) + (
        if outcome == Ok::<UpdateResult, Error>(UpdateResult::Updated) {
            1int
        } else {
            0int
        }),
        count_already_has_retention(outcomes.push(outcome)) == count_already_has_retention(
            outcomes,
        ) + (
        if outcome == Ok::<UpdateResult, Error>(UpdateResult::AlreadyHasRetention) {
            1int
        } else {
            0int
        }),
        count_already_tagged(outcomes.push(outcome)) == count_already_tagged(outcomes) + (
        if outcome == Ok::<UpdateResult, Error>(UpdateResult::AlreadyTaggedWithRetention) {
            1int
        } else {
            0int
        }),
        count_errored(outcomes.push(outcome)) == count_errored(outcomes) + (
        if outcome is Err {
            1int
        } else {
            0int
        }),
        errors_of(outcomes.push(outcome)) == errors_of(outcomes) + (match outcome {
            Err(e) => seq![e],
            Ok(u) => Seq::<Error>::empty(),
        }),
{
    assert(outcomes.push(outcome).drop_last() =~= outcomes);
    assert(outcomes.push(outcome).last() == outcome);
}

/// The error count is the error list's length.
proof fn lemma_errors_of_len(outcomes: Seq<Result<UpdateResult, Error>>)
    ensures
        errors_of(outcomes).len() == count_errored(outcomes),
    decreases outcomes.len(),
{
    if outcomes.len() > 0 {
        lemma_errors_of_len(outcomes.drop_last());
    }
}

/// Every erring outcome's error appears in the error list.
pub proof fn lemma_errors_of_membership(
    outcomes: Seq<Result<UpdateResult, Error>>,
    i: int,
    e: Error,
)
    requires
        0 <= i < outcomes.len(),
        outcomes[i] == Err::<UpdateResult, Error>(e),
    ensures
        exists|j: int| 0 <= j < errors_of(outcomes).len() && (#[trigger] errors_of(outcomes)[j])
            == e,
    decreases outcomes.len(),
{
    if i == outcomes.len() - 1 {
        assert(outcomes.last() == outcomes[i]);
        assert(errors_of(outcomes)[errors_of(outcomes).len() - 1] == e);
    } else {
        assert(outcomes.drop_last()[i] == outcomes[i]);
        lemma_errors_of_membership(outcomes.drop_last(), i, e);
        let j = choose|j: int|
            0 <= j < errors_of(outcomes.drop_last()).len() && (#[trigger] errors_of(
                outcomes.drop_last(),
            )[j]) == e;
        assert(errors_of(outcomes)[j] == errors_of(outcomes.drop_last())[j]);
    }
}

/// `delta` consists of exactly one [`reconcile_post`]-satisfying slice of
/// client calls per group, in listing order, producing `outcomes`.
pub open spec fn reconcile_trace(
    groups: Seq<LogGroupStateView>,
    config: RetentionConfig,
    delta: Seq<ClientCall>,
    outcomes: Seq<Result<UpdateResult, Error>>,
) -> bool
    decreases groups.len(),
{
    if groups.len() == 0 {
        delta.len() == 0 && outcomes.len() == 0
    } else {
        &&& outcomes.len() >= 1
        &&& exists|k: int|
            {
                &&& 0 <= k <= delta.len()
                &&& reconcile_post(groups[0], config, #[trigger] delta.subrange(0, k), outcomes[0])
                &&& reconcile_trace(groups.skip(1), config, delta.skip(k), outcomes.skip(1))
            }
    }
}

/// Reconciling one more group extends a reconciliation trace.
proof fn lemma_reconcile_trace_append(
    groups: Seq<LogGroupStateView>,
    config: RetentionConfig,
    d1: Seq<ClientCall>,
    o1: Seq<Result<UpdateResult, Error>>,
    group: LogGroupStateView,
    d2: Seq<ClientCall>,
    outcome: Result<UpdateResult, Error>,
)
    requires
        reconcile_trace(groups, config, d1, o1),
        reconcile_post(group, config, d2, outcome),
    ensures
        reconcile_trace(groups.push(group), config, d1 + d2, o1.push(outcome)),
    decreases groups.len(),
{
    let all_delta = d1 + d2;
    let all_outcomes = o1.push(outcome);
    if groups.len() == 0 {
        assert(groups.push(group)[0] == group);
        assert(all_outcomes[0] == outcome);
        assert(all_delta.subrange(0, d2.len() as int) =~= d2);
        assert(groups.push(group).skip(1) =~= Seq::<LogGroupStateView>::empty());
        assert(all_delta.skip(d2.len() as int) =~= Seq::<ClientCall>::empty());
        assert(all_outcomes.skip(1) =~= Seq::<Result<UpdateResult, Error>>::empty());
        assert(reconcile_post(
            groups.push(group)[0],
            config,
            all_delta.subrange(0, d2.len() as int),
            all_outcomes[0],
        ));
        assert(reconcile_trace(
            groups.push(group).skip(1),
            config,
            all_delta.skip(d2.len() as int),
            all_outcomes.skip(1),
        ));
        assert(0 <= d2.len() as int <= all_delta.len());
    } else {
        let k = choose|k: int|
            {
                &&& 0 <= k <= d1.len()
                &&& reconcile_post(groups[0], config, #[trigger] d1.subrange(0, k), o1[0])
                &&& reconcile_trace(groups.skip(1), config, d1.skip(k), o1.skip(1))
            };
        lemma_reconcile_trace_append(
            groups.skip(1),
            config,
            d1.skip(k),
            o1.skip(1),
            group,
            d2,
            outcome,
        );
        assert(groups.skip(1).push(group) =~= groups.push(group).skip(1));
        assert(d1.skip(k) + d2 =~= all_delta.skip(k));
        assert(o1.skip(1).push(outcome) =~= all_outcomes.skip(1));
        assert(all_delta.subrange(0, k) =~= d1.subrange(0, k));
        assert(groups.push(group)[0] == groups[0]);
        assert(all_outcomes[0] == o1[0]);
        assert(reconcile_post(groups.push(group)[0], config, all_delta.subrange(0, k), all_outcomes[0]));
        assert(reconcile_trace(
            groups.push(group).skip(1),
            config,
            all_delta.skip(k),
            all_outcomes.skip(1),
        ));
        assert(0 <= k <= all_delta.len());
    }
}

/// An unfinished sweep: `delta` holds whole pages of listing-then-reconcile
/// work, `outcomes` their per-group outcomes in listing order, and `token`
/// is what the next listing call will carry — absent only before the first
/// call. Every listing call asks for all groups (no name filter) and
/// carries exactly the token the previous page returned.
pub open spec fn sweep_progress(
    config: RetentionConfig,
    delta: Seq<ClientCall>,
    outcomes: Seq<Result<UpdateResult, Error>>,
    token: Option<Seq<char>>,
) -> bool
    decreases delta.len(),
{
    if delta.len() == 0 {
        outcomes.len() == 0 && token is None
    } else {
        exists|k: int, j: int|
            #![trigger delta.subrange(0, k), outcomes.subrange(0, j)]
            {
                &&& 0 <= k < delta.len()
                &&& 0 <= j <= outcomes.len()
                &&& delta[k] matches ClientCall::DescribeLogGroups {
                    log_group_name_prefix,
                    next_token,
                    result,
                }
                &&& log_group_name_prefix is None
                &&& sweep_progress(config, delta.subrange(0, k), outcomes.subrange(0, j), next_token)
                &&& result matches Ok(page)
                &&& page.next_token == token
                &&& outcomes.len() - j == page.log_groups.len()
                &&& reconcile_trace(page.log_groups, config, delta.skip(k + 1), outcomes.skip(j))
            }
    }
}

/// A whole sweep's client calls: pages listed from the front (no name
/// filter, no token) and chained by the returned tokens; every listed group
/// reconciled exactly once, in order, yielding `outcomes`. The sweep ends
/// at the first page whose response carries no token, or — when
/// `listing_failure` holds a message — at a listing call that failed with
/// it, after which nothing more happens.
pub open spec fn sweep_calls(
    config: RetentionConfig,
    delta: Seq<ClientCall>,
    outcomes: Seq<Result<UpdateResult, Error>>,
    listing_failure: Option<Seq<char>>,
) -> bool {
    match listing_failure {
        Some(failure) => {
            &&& delta.len() >= 1
            &&& delta.last() matches ClientCall::DescribeLogGroups {
                log_group_name_prefix,
                next_token,
                result,
            }
            &&& log_group_name_prefix is None
            &&& sweep_progress(config, delta.drop_last(), outcomes, next_token)
            &&& result == Err::<LogGroupPageView, Seq<char>>(failure)
        },
        None => exists|k: int, j: int|
            #![trigger delta.subrange(0, k), outcomes.subrange(0, j)]
            {
                &&& 0 <= k < delta.len()
                &&& 0 <= j <= outcomes.len()
                &&& delta[k] matches ClientCall::DescribeLogGroups {
                    log_group_name_prefix,
                    next_token,
                    result,
                }
                &&& log_group_name_prefix is None
                &&& sweep_progress(config, delta.subrange(0, k), outcomes.subrange(0, j), next_token)
                &&& result matches Ok(page)
                &&& page.next_token is None
                &&& outcomes.len() - j == page.log_groups.len()
                &&& reconcile_trace(page.log_groups, config, delta.skip(k + 1), outcomes.skip(j))
            },
    }
}

/// The five counters a sweep over `outcomes` emits, in order.
pub open spec fn sweep_counters(outcomes: Seq<Result<UpdateResult, Error>>) -> Seq<Metric> {
    seq![
        (Metric { name: MetricName::Total, value: outcomes.len() as u64 }),
        (Metric { name: MetricName::Updated, value: count_updated(outcomes) as u64 }),
        (Metric {
            name: MetricName::AlreadyHasRetention,
            value: count_already_has_retention(outcomes) as u64,
        }),
        (Metric {
            name: MetricName::AlreadyTaggedWithRetention,
            value: count_already_tagged(outcomes) as u64,
        }),
        (Metric { name: MetricName::Errored, value: count_errored(outcomes) as u64 }),
    ]
}

/// What one sweep did, witnessed by its per-group outcomes: the client
/// calls form a [`sweep_calls`] trace of those outcomes; a listing failure
/// stops the sweep with that failure's own message and nothing emitted;
/// otherwise exactly one batch of the five counters is emitted, whose
/// `Total` is the number of groups listed (saturating at the counter's
/// maximum) and equals the other four added together. As long as the
/// counters did not saturate — fewer outcomes than `u64::MAX`, which every
/// real listing satisfies — the counters are exactly the outcome counts,
/// the sweep succeeds precisely when no group's reconciliation failed, and
/// a failing sweep's message carries every collected error.
pub open spec fn sweep_post_with(
    config: RetentionConfig,
    delta: Seq<ClientCall>,
    emitted: Seq<(Seq<char>, Seq<Metric>)>,
    r: Result<SweepSummary, Error>,
    outcomes: Seq<Result<UpdateResult, Error>>,
    listing_failure: Option<Seq<char>>,
) -> bool {
    &&& sweep_calls(config, delta, outcomes, listing_failure)
    &&& match listing_failure {
        Some(failure) => {
            &&& emitted == Seq::<(Seq<char>, Seq<Metric>)>::empty()
            &&& r matches Err(e)
            &&& e.severity == Severity::Error
            &&& e.message@ == failure
        },
        None => {
            &&& emitted.len() == 1
            &&& emitted[0].0 == config.metric_namespace@
            &&& emitted[0].1.len() == 5
            &&& emitted[0].1[0].name == MetricName::Total
            &&& emitted[0].1[1].name == MetricName::Updated
            &&& emitted[0].1[2].name == MetricName::AlreadyHasRetention
            &&& emitted[0].1[3].name == MetricName::AlreadyTaggedWithRetention
            &&& emitted[0].1[4].name == MetricName::Errored
            &&& emitted[0].1[0].value as int == counted_total(outcomes.len() as int)
            &&& emitted[0].1[0].value as int == emitted[0].1[1].value as int
                + emitted[0].1[2].value as int + emitted[0].1[3].value as int
                + emitted[0].1[4].value as int
            &&& (r matches Ok(summary) ==> {
                &&& summary.message@ == "Success"@
                &&& summary.total_groups == emitted[0].1[0].value
                &&& summary.updated == emitted[0].1[1].value
                &&& summary.already_has_retention == emitted[0].1[2].value
                &&& summary.already_tagged_with_retention == emitted[0].1[3].value
                &&& emitted[0].1[4].value == 0
            })
            &&& (r matches Err(e) ==> e.severity == Severity::Error)
            &&& (outcomes.len() <= u64::MAX as int ==> {
                &&& emitted[0].1 == sweep_counters(outcomes)
                &&& (r is Ok <==> count_errored(outcomes) == 0)
                &&& (r matches Err(e) ==> forall|i: int|
                    0 <= i < outcomes.len() ==> ((#[trigger] outcomes[i]) matches Err(pe)
                        ==> text_contains(e.message@, pe.message@)))
            })
        },
    }
}

/// There exist per-group outcomes witnessing [`sweep_post_with`].
pub open spec fn sweep_post(
    config: RetentionConfig,
    delta: Seq<ClientCall>,
    emitted: Seq<(Seq<char>, Seq<Metric>)>,
    r: Result<SweepSummary, Error>,
) -> bool {
    exists|outcomes: Seq<Result<UpdateResult, Error>>, listing_failure: Option<Seq<char>>|
        #[trigger] sweep_post_with(config, delta, emitted, r, outcomes, listing_failure)
}

/// Being a prefix carries across a longer sequence.
proof fn lemma_prefix_transitive<T>(a: Seq<T>, b: Seq<T>, c: Seq<T>)
    requires
        a.is_prefix_of(b),
        b.is_prefix_of(c),
    ensures
        a.is_prefix_of(c),
{
    assert(a =~= c.subrange(0, a.len() as int));
}

/// The five counters one sweep emits, in order.
pub open spec fn batch_metrics(b: BatchResult) -> Seq<Metric> {
    seq![
        (Metric { name: MetricName::Total, value: b.total }),
        (Metric { name: MetricName::Updated, value: b.updated }),
        (Metric { name: MetricName::AlreadyHasRetention, value: b.already_has_retention }),
        (Metric {
            name: MetricName::AlreadyTaggedWithRetention,
            value: b.already_tagged_with_retention,
        }),
        (Metric { name: MetricName::Errored, value: b.errored }),
    ]
}

/// The sweep's summary of a fully successful pass.
#[derive(Debug)]
pub struct SweepSummary {
    pub message: String,
    pub total_groups: u64,
    pub updated: u64,
    pub already_has_retention: u64,
    pub already_tagged_with_retention: u64,
}

/// Walks the whole paginated log-group listing, reconciles every group,
/// emits one batch of five counters, and summarises the pass.
///
/// Per-group failures do not stop the sweep: they are collected, and when
/// any occurred the whole invocation fails with an `Error`-severity failure
/// whose message carries every collected failure, so that the caller can
/// retry the whole sweep. A failure of the listing itself stops the sweep
/// before any metrics are emitted. [`sweep_post`] describes the pass call
/// by call: pagination from the front, per-group reconciliations in
/// listing order, the counters tied to the outcomes, and success exactly
/// when no group failed.
pub fn process_all_log_groups<
    C: DescribeLogGroups + ListTagsForResource + PutRetentionPolicy + TagResource,
    M: PutMetricData,
>(client: &mut C, config: &RetentionConfig, metrics: &mut M) -> (r: Result<SweepSummary, Error>)
    ensures
        old(client).calls().is_prefix_of(final(client).calls()),
        old(metrics).emitted().is_prefix_of(final(metrics).emitted()),
        sweep_post(
            *config,
            final(client).calls().skip(old(client).calls().len() as int),
            final(metrics).emitted().skip(old(metrics).emitted().len() as int),
            r,
        ),
{
    let ghost n = old(client).calls().len() as int;
    let ghost m0 = old(metrics).emitted().len() as int;
    let mut batch = BatchResult::new();
    let mut next_token: Option<String> = None;
    let ghost mut outcomes: Seq<Result<UpdateResult, Error>> = Seq::empty();
    proof {
        assert(client.calls().skip(n) =~= Seq::<ClientCall>::empty());
        assert(old(client).calls().is_prefix_of(client.calls())) by {
            assert(old(client).calls() =~= client.calls().subrange(0, n));
        }
    }

    loop
        invariant_except_break
            sweep_progress(*config, client.calls().skip(n), outcomes, next_token.deep_view()),
        invariant
            batch.wf(),
            0 <= n <= client.calls().len(),
            old(client).calls().is_prefix_of(client.calls()),
            old(client).calls().len() == n,
            old(metrics).emitted().len() == m0,
            metrics.emitted() == old(metrics).emitted(),
            batch.total as int == counted_total(outcomes.len() as int),
            outcomes.len() <= u64::MAX as int ==> {
                &&& batch.updated as int == count_updated(outcomes)
                &&& batch.already_has_retention as int == count_already_has_retention(outcomes)
                &&& batch.already_tagged_with_retention as int == count_already_tagged(outcomes)
                &&& batch.errored as int == count_errored(outcomes)
                &&& batch.errors@ == errors_of(outcomes)
            },
        ensures
            batch.wf(),
            0 <= n <= client.calls().len(),
            old(client).calls().is_prefix_of(client.calls()),
            sweep_calls(*config, client.calls().skip(n), outcomes, None::<Seq<char>>),
            batch.total as int == counted_total(outcomes.len() as int),
            outcomes.len() <= u64::MAX as int ==> {
                &&& batch.updated as int == count_updated(outcomes)
                &&& batch.already_has_retention as int == count_already_has_retention(outcomes)
                &&& batch.already_tagged_with_retention as int == count_already_tagged(outcomes)
                &&& batch.errored as int == count_errored(outcomes)
                &&& batch.errors@ == errors_of(outcomes)
            },
        decreases client.pages_remaining(),
    {
        let ghost calls_at_start = client.calls();
        let ghost token_sent = next_token.deep_view();
        let page = match client.describe_log_groups(None, next_token) {
            Err(e) => {
                let failure = Error::from_client(e);
                proof {
                    let delta = client.calls().skip(n);
                    assert(delta.drop_last() =~= calls_at_start.skip(n));
                    assert(delta.last() == client.calls().last());
                    assert(sweep_progress(*config, delta.drop_last(), outcomes, token_sent));
                    assert(sweep_calls(*config, delta, outcomes, Some(e@)));
                    assert(metrics.emitted().skip(m0) =~= Seq::<(Seq<char>, Seq<Metric>)>::empty());
                    assert(sweep_post_with(
                        *config,
                        delta,
                        metrics.emitted().skip(m0),
                        Err::<SweepSummary, Error>(failure),
                        outcomes,
                        Some(e@),
                    ));
                    assert(old(client).calls().is_prefix_of(client.calls())) by {
                        lemma_prefix_transitive(
                            old(client).calls(),
                            calls_at_start,
                            client.calls(),
                        );
                    }
                }
                return Err(failure);
            },
            Ok(page) => page,
        };
        let ghost page_view = page@;
        let ghost mid_calls = client.calls();
        let ghost out0 = outcomes;
        let ghost gv = page.log_groups.deep_view();
        proof {
            assert(page_view.log_groups == gv);
            assert(forall|i: int| 0 <= i < gv.len() ==> (#[trigger] gv[i]) == page.log_groups@[i]@);
            assert(gv.len() == page.log_groups@.len());
            assert(mid_calls == calls_at_start.push(mid_calls.last()));
            assert(old(client).calls().is_prefix_of(client.calls())) by {
                lemma_prefix_transitive(old(client).calls(), calls_at_start, client.calls());
            }
            assert(client.calls().skip(mid_calls.len() as int)
                =~= Seq::<ClientCall>::empty());
            assert(outcomes.skip(out0.len() as int)
                =~= Seq::<Result<UpdateResult, Error>>::empty());
            assert(gv.subrange(0, 0) =~= Seq::<LogGroupStateView>::empty());
        }

        let ghost pages_before = client.pages_remaining();
        let mut g: usize = 0;
        while g < page.log_groups.len()
            invariant
                batch.wf(),
                client.pages_remaining() == pages_before,
                0 <= n <= calls_at_start.len(),
                old(client).calls().len() == n,
                old(client).calls().is_prefix_of(client.calls()),
                mid_calls == calls_at_start.push(mid_calls.last()),
                mid_calls.is_prefix_of(client.calls()),
                sweep_progress(*config, calls_at_start.skip(n), out0, token_sent),
                mid_calls.last() == (ClientCall::DescribeLogGroups {
                    log_group_name_prefix: None::<Seq<char>>,
                    next_token: token_sent,
                    result: Ok::<LogGroupPageView, Seq<char>>(page_view),
                }),
                page_view == page@,
                page_view.log_groups == gv,
                g <= page.log_groups@.len(),
                gv == page.log_groups.deep_view(),
                gv.len() == page.log_groups@.len(),
                forall|i: int| 0 <= i < gv.len() ==> (#[trigger] gv[i]) == page.log_groups@[i]@,
                outcomes.len() == out0.len() + g,
                outcomes.subrange(0, out0.len() as int) == out0,
                reconcile_trace(
                    gv.subrange(0, g as int),
                    *config,
                    client.calls().skip(mid_calls.len() as int),
                    outcomes.skip(out0.len() as int),
                ),
                batch.total as int == counted_total(outcomes.len() as int),
                outcomes.len() <= u64::MAX as int ==> {
                    &&& batch.updated as int == count_updated(outcomes)
                    &&& batch.already_has_retention as int == count_already_has_retention(outcomes)
                    &&& batch.already_tagged_with_retention as int == count_already_tagged(
                        outcomes,
                    )
                    &&& batch.errored as int == count_errored(outcomes)
                    &&& batch.errors@ == errors_of(outcomes)
                },
            decreases page.log_groups@.len() - g,
        {
            let ghost calls_before = client.calls();
            let ghost outcomes_before = outcomes;
            let outcome = process_log_group(&page.log_groups[g], config, client);
            proof {
                let d1 = calls_before.skip(mid_calls.len() as int);
                let d2 = client.calls().skip(calls_before.len() as int);
                assert(gv[g as int] == page.log_groups@[g as int]@);
                lemma_reconcile_trace_append(
                    gv.subrange(0, g as int),
                    *config,
                    d1,
                    outcomes_before.skip(out0.len() as int),
                    gv[g as int],
                    d2,
                    outcome,
                );
                lemma_counts_push(outcomes_before, outcome);
                outcomes = outcomes_before.push(outcome);
                assert(gv.subrange(0, g + 1 as int) =~= gv.subrange(0, g as int).push(
                    gv[g as int],
                ));
                assert(client.calls().skip(mid_calls.len() as int) =~= d1 + d2);
                assert(outcomes.skip(out0.len() as int) =~= outcomes_before.skip(
                    out0.len() as int,
                ).push(outcome));
                assert(outcomes.subrange(0, out0.len() as int) =~= out0);
                lemma_prefix_transitive(mid_calls, calls_before, client.calls());
                lemma_prefix_transitive(old(client).calls(), calls_before, client.calls());
            }
            batch.record(outcome);
            g += 1;
        }

        proof {
            let delta = client.calls().skip(n);
            let k = calls_at_start.len() - n;
            let j = out0.len() as int;
            assert(mid_calls =~= client.calls().subrange(0, mid_calls.len() as int));
            assert forall|i: int| 0 <= i < k implies delta[i] == calls_at_start.skip(n)[i] by {
                assert(mid_calls[n + i] == client.calls()[n + i]);
                assert(calls_at_start[n + i] == mid_calls[n + i]);
            }
            assert(delta.subrange(0, k) =~= calls_at_start.skip(n));
            assert(delta[k] == mid_calls.last());
            assert(delta.skip(k + 1) =~= client.calls().skip(mid_calls.len() as int));
            assert(gv.subrange(0, page.log_groups@.len() as int) =~= gv);
            assert(sweep_progress(*config, delta.subrange(0, k), outcomes.subrange(0, j), token_sent));
        }

        match page.next_token {
            Some(token) => {
                proof {
                    assert(page_view.next_token == Some(token@));
                    let delta = client.calls().skip(n);
                    let k = calls_at_start.len() - n;
                    let j = out0.len() as int;
                    assert(0 <= k < delta.len());
                    assert(0 <= j <= outcomes.len());
                    assert(sweep_progress(*config, delta.subrange(0, k), outcomes.subrange(0, j), token_sent));
                    assert(delta[k] == mid_calls.last());
                    assert(delta[k] matches ClientCall::DescribeLogGroups {
                        log_group_name_prefix,
                        next_token,
                        result,
                    } && log_group_name_prefix is None && next_token == token_sent && (result
                        matches Ok(pg) && pg.next_token == Some(token@) && outcomes.len() - j
                        == pg.log_groups.len()));
                    assert(reconcile_trace(page_view.log_groups, *config, delta.skip(k + 1), outcomes.skip(j)));
                    assert(sweep_progress(*config, delta, outcomes, Some(token@)));
                }
                next_token = Some(token);
            },
            None => {
                proof {
                    assert(page_view.next_token is None);
                    assert(sweep_calls(
                        *config,
                        client.calls().skip(n),
                        outcomes,
                        None::<Seq<char>>,
                    ));
                }
                break ;
            },
        }
    }

    let mut counters: Vec<Metric> = Vec::new();
    counters.push(Metric::new(MetricName::Total, batch.total));
    counters.push(Metric::new(MetricName::Updated, batch.updated));
    counters.push(Metric::new(MetricName::AlreadyHasRetention, batch.already_has_retention));
    counters.push(
        Metric::new(MetricName::AlreadyTaggedWithRetention, batch.already_tagged_with_retention),
    );
    counters.push(Metric::new(MetricName::Errored, batch.errored));
    assert(counters@ =~= batch_metrics(batch));
    let ghost counters_view = counters@;
    publish_metrics(metrics, config.metric_namespace.as_str(), counters);
    proof {
        assert(metrics.emitted().skip(m0) =~= seq![(config.metric_namespace@, counters_view)]);
        lemma_errors_of_len(outcomes);
        if outcomes.len() <= u64::MAX as int {
            assert(counters_view =~= sweep_counters(outcomes));
        }
        assert(old(metrics).emitted().is_prefix_of(metrics.emitted())) by {
            assert(old(metrics).emitted() =~= metrics.emitted().subrange(0, m0));
        }
    }

    if batch.errors.len() == 0 {
        let summary = SweepSummary {
            message: String::from_str("Success"),
            total_groups: batch.total,
            updated: batch.updated,
            already_has_retention: batch.already_has_retention,
            already_tagged_with_retention: batch.already_tagged_with_retention,
        };
        proof {
            assert(sweep_post_with(
                *config,
                client.calls().skip(n),
                metrics.emitted().skip(m0),
                Ok::<SweepSummary, Error>(summary),
                outcomes,
                None::<Seq<char>>,
            ));
        }
        Ok(summary)
    } else {
        let mut message = String::from_str("Failed to update some log group retentions: ");
        let mut k: usize = 0;
        while k < batch.errors.len()
            invariant
                k <= batch.errors@.len(),
                forall|i: int|
                    0 <= i < k ==> text_contains(message@, (#[trigger] batch.errors@[i]).message@),
            decreases batch.errors@.len() - k,
        {
            let ghost before = message@;
            let ghost addition = batch.errors@[k as int].message@;
            message.append(batch.errors[k].message.as_str());
            proof {
                assert forall|i: int| 0 <= i < k + 1 implies text_contains(
                    message@,
                    (#[trigger] batch.errors@[i]).message@,
                ) by {
                    if i < k {
                        lemma_contains_append_right(before, addition, batch.errors@[i].message@);
                    } else {
                        crate::text::lemma_contains_self(addition);
                        lemma_contains_append_left(before, addition, addition);
                    }
                }
            }
            let ghost with_msg = message@;
            message.append("; ");
            proof {
                assert forall|i: int| 0 <= i < k + 1 implies text_contains(
                    message@,
                    (#[trigger] batch.errors@[i]).message@,
                ) by {
                    lemma_contains_append_right(with_msg, "; "@, batch.errors@[i].message@);
                }
            }
            k += 1;
        }
        let failure = Error { message, severity: Severity::Error };
        proof {
            if outcomes.len() <= u64::MAX as int {
                assert forall|i: int| 0 <= i < outcomes.len() implies ((#[trigger] outcomes[i])
                    matches Err(pe) ==> text_contains(failure.message@, pe.message@)) by {
                    match outcomes[i] {
                        Err(pe) => {
                            lemma_errors_of_membership(outcomes, i, pe);
                            let j = choose|j: int|
                                0 <= j < errors_of(outcomes).len() && (#[trigger] errors_of(
                                    outcomes,
                                )[j]) == pe;
                            assert(text_contains(failure.message@, batch.errors@[j].message@));
                        },
                        Ok(u) => {},
                    }
                }
            }
            assert(sweep_post_with(
                *config,
                client.calls().skip(n),
                metrics.emitted().skip(m0),
                Err::<SweepSummary, Error>(failure),
                outcomes,
                None::<Seq<char>>,
            ));
        }
        Err(failure)
    }
}

} // verus!

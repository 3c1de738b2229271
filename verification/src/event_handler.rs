//! The reactive path: handling one "log group created" notification, from
//! payload parsing through reconciling the single named group.

use vstd::prelude::*;

use crate::cloudwatch_logs_traits::{
    ClientCall, DescribeLogGroups, ListTagsForResource, PutRetentionPolicy, TagResource,
};
use crate::config::RetentionConfig;
use crate::error::{Error, Severity};
use crate::event::{CloudTrailEvent, event_of_json, extract_creation_event};
use crate::global_retention_setter::override_tag_key;
use crate::metric_publisher::{Metric, MetricName, PutMetricData, publish_metric};
use crate::retention_setter::{found_group_retention, get_existing_retention};
use crate::text::{i32_text, i32_to_string, lemma_contains_append_left, lemma_contains_append_right,
    lemma_contains_self, pairs_contain_key, pairs_first_value, tags_lookup, text_contains};

verus! {

/// Parses an inbound notification payload into a structured event.
///
/// Parse failure yields a `Warning`-severity error — malformed or unrelated
/// payloads are expected noise, not operational failures — whose message
/// carries the raw payload, the context description, and the parse
/// diagnostic, for observability.
pub fn parse_event(payload: &str, context: Option<&str>) -> (r: Result<CloudTrailEvent, Error>)
    ensures
        r matches Ok(e) ==> event_of_json(payload@) == Some(
            (
                e.detail.user_identity.account_id@,
                e.detail.aws_region@,
                e.detail.request_parameters.log_group_name@,
            ),
        ),
        r is Err <==> event_of_json(payload@) is None,
        r matches Err(err) ==> {
            &&& err.severity == Severity::Warning
            &&& text_contains(err.message@, payload@)
            &&& (context matches Some(c) ==> text_contains(err.message@, c@))
        },
{
    match extract_creation_event(payload) {
        Ok(event) => Ok(event),
        Err(diagnostic) => Err(parse_failure_error(payload, context, diagnostic.as_str())),
    }
}

/// Builds the warning reported when a payload fails to parse: the message
/// carries the raw payload, the context description, and the parse
/// diagnostic, for observability.
pub fn parse_failure_error(payload: &str, context: Option<&str>, diagnostic: &str) -> (r: Error)
    ensures
        r.severity == Severity::Warning,
        text_contains(r.message@, payload@),
        context matches Some(c) ==> text_contains(r.message@, c@),
        text_contains(r.message@, diagnostic@),
{
    let mut message = String::from_str("Error deserializing input payload. Payload: `");
    let ghost m1 = message@;
    message.append(payload);
    proof {
        lemma_contains_self(payload@);
        lemma_contains_append_left(m1, payload@, payload@);
    }
    let ghost m2 = message@;
    message.append("`. Context: `");
    proof {
        lemma_contains_append_right(m2, "`. Context: `"@, payload@);
    }
    let ghost m3 = message@;
    match context {
        Some(c) => {
            message.append(c);
            proof {
                lemma_contains_append_right(m3, c@, payload@);
                lemma_contains_self(c@);
                lemma_contains_append_left(m3, c@, c@);
            }
        },
        None => {
            message.append("None");
            proof {
                lemma_contains_append_right(m3, "None"@, payload@);
            }
        },
    }
    let ghost m4 = message@;
    message.append("`. Error: `");
    proof {
        lemma_contains_append_right(m4, "`. Error: `"@, payload@);
        match context {
            Some(c) => lemma_contains_append_right(m4, "`. Error: `"@, c@),
            None => (),
        }
    }
    let ghost m5 = message@;
    message.append(diagnostic);
    proof {
        lemma_contains_append_right(m5, diagnostic@, payload@);
        match context {
            Some(c) => lemma_contains_append_right(m5, diagnostic@, c@),
            None => (),
        }
        lemma_contains_self(diagnostic@);
        lemma_contains_append_left(m5, diagnostic@, diagnostic@);
    }
    let ghost m6 = message@;
    message.append("`.");
    proof {
        lemma_contains_append_right(m6, "`."@, payload@);
        match context {
            Some(c) => lemma_contains_append_right(m6, "`."@, c@),
            None => (),
        }
        lemma_contains_append_right(m6, "`."@, diagnostic@);
    }
    Error { message, severity: Severity::Warning }
}

/// Converts a `Warning` into a successful result carrying the warning's
/// message, so that benign conditions do not fail the invocation; a genuine
/// `Error` fails it unchanged.
pub fn process_error(error: Error) -> (r: Result<String, Error>)
    ensures
        error.severity == Severity::Warning ==> (r matches Ok(m) && m@ == error.message@),
        error.severity == Severity::Error ==> (r matches Err(e) && e.severity == Severity::Error
            && e.message@ == error.message@),
{
    match error.severity {
        Severity::Warning => Ok(error.message),
        Severity::Error => Err(error),
    }
}

/// The ARN of a log group reconstructed from partition, region, account and
/// name, as the notification does not carry one.
pub open spec fn event_log_group_arn(
    partition: Seq<char>,
    region: Seq<char>,
    account: Seq<char>,
    name: Seq<char>,
) -> Seq<char> {
    "arn:"@ + partition + ":logs:"@ + region + ":"@ + account + ":log-group:"@ + name
}

/// Exactly which client calls handling one creation event makes, which
/// single counter it emits, and how the results determine its outcome.
/// `delta` is the slice the handling appended to the client's call log,
/// `emitted` the slice it appended to the metrics sink.
///
/// The named group's current retention is looked up fresh; a group that
/// already has retention, or carries the override tag on its reconstructed
/// ARN, is left alone with one counter emitted; otherwise the default
/// retention is set, the `Updated` counter emitted, and any configured
/// provenance tags attached. A group missing from the listing is a
/// `Warning`; every transport failure is an `Error` with the failure's own
/// message.
pub open spec fn event_post(
    event: CloudTrailEvent,
    config: RetentionConfig,
    delta: Seq<ClientCall>,
    emitted: Seq<(Seq<char>, Seq<Metric>)>,
    r: Result<String, Error>,
) -> bool {
    let name = event.detail.request_parameters.log_group_name@;
    let arn = event_log_group_arn(
        config.aws_partition@,
        event.detail.aws_region@,
        event.detail.user_identity.account_id@,
        name,
    );
    let ns = config.metric_namespace@;
    &&& delta.len() >= 1
    &&& delta[0] matches ClientCall::DescribeLogGroups { log_group_name_prefix, next_token, result }
    &&& log_group_name_prefix == Some(name)
    &&& next_token is None
    &&& match result {
        Err(e) => {
            &&& delta.len() == 1
            &&& emitted == Seq::<(Seq<char>, Seq<Metric>)>::empty()
            &&& r matches Err(err)
            &&& err.severity == Severity::Error
            &&& err.message@ == e
        },
        Ok(page) => match found_group_retention(page.log_groups, name) {
            None => {
                &&& delta.len() == 1
                &&& emitted == Seq::<(Seq<char>, Seq<Metric>)>::empty()
                &&& r matches Err(err)
                &&& err.severity == Severity::Warning
                &&& text_contains(err.message@, name)
            },
            Some(days) => if days != 0 {
                &&& delta.len() == 1
                &&& emitted == seq![
                    (ns, seq![(Metric { name: MetricName::AlreadyHasRetention, value: 1u64 })]),
                ]
                &&& r matches Ok(m)
                &&& text_contains(m@, name)
                &&& text_contains(m@, i32_text(days))
            } else {
                &&& delta.len() >= 2
                &&& delta[1] matches ClientCall::ListTagsForResource { resource_arn, result }
                &&& resource_arn == arn
                &&& match result {
                    Err(e) => {
                        &&& delta.len() == 2
                        &&& emitted == Seq::<(Seq<char>, Seq<Metric>)>::empty()
                        &&& r matches Err(err)
                        &&& err.severity == Severity::Error
                        &&& err.message@ == e
                    },
                    Ok(tags) => {
                        if pairs_contain_key(tags, override_tag_key()) {
                            &&& delta.len() == 2
                            &&& emitted == seq![
                                (
                                    ns,
                                    seq![
                                        (Metric {
                                            name: MetricName::AlreadyTaggedWithRetention,
                                            value: 1u64,
                                        }),
                                    ],
                                ),
                            ]
                            &&& r matches Ok(m)
                            &&& text_contains(m@, name)
                            &&& (pairs_first_value(tags, override_tag_key()) matches Some(
                                tag_value,
                            ) && text_contains(m@, tag_value))
                        } else {
                            &&& delta.len() >= 3
                            &&& delta[2] matches ClientCall::PutRetentionPolicy {
                                log_group_name,
                                retention_in_days,
                                result,
                            }
                            &&& log_group_name == name
                            &&& retention_in_days == config.retention_days as int
                            &&& match result {
                                Err(e) => {
                                    &&& delta.len() == 3
                                    &&& emitted == Seq::<(Seq<char>, Seq<Metric>)>::empty()
                                    &&& r matches Err(err)
                                    &&& err.severity == Severity::Error
                                    &&& err.message@ == e
                                },
                                Ok(u) => {
                                    &&& emitted == seq![
                                        (ns, seq![(Metric { name: MetricName::Updated, value: 1u64 })]),
                                    ]
                                    &&& if config.log_group_tags.deep_view().len() == 0 {
                                        &&& delta.len() == 3
                                        &&& r matches Ok(m)
                                        &&& m@ == "Retention set successfully"@
                                    } else {
                                        &&& delta.len() == 4
                                        &&& delta[3] matches ClientCall::TagResource {
                                            log_group_arn,
                                            tags,
                                            result,
                                        }
                                        &&& log_group_arn == arn
                                        &&& tags == config.log_group_tags.deep_view()
                                        &&& match result {
                                            Err(e) => {
                                                &&& r matches Err(err)
                                                &&& err.severity == Severity::Error
                                                &&& err.message@ == e
                                            },
                                            Ok(u2) => {
                                                &&& r matches Ok(m)
                                                &&& m@ == "Retention set successfully"@
                                            },
                                        }
                                    }
                                },
                            }
                        }
                    },
                }
            },
        },
    }
}

/// Handles one creation event: looks up the named group's current
/// retention, and applies the same tag-check, set-retention, tag-apply
/// sequence as the sweep's reconciler against the reconstructed ARN, as
/// [`event_post`] describes call by call.
pub fn process_event<
    C: DescribeLogGroups + ListTagsForResource + PutRetentionPolicy + TagResource,
    M: PutMetricData,
>(event: CloudTrailEvent, config: &RetentionConfig, client: &mut C, metrics: &mut M) -> (r: Result<
    String,
    Error,
>)
    ensures
        old(client).calls().is_prefix_of(final(client).calls()),
        old(metrics).emitted().is_prefix_of(final(metrics).emitted()),
        event_post(
            event,
            *config,
            final(client).calls().skip(old(client).calls().len() as int),
            final(metrics).emitted().skip(old(metrics).emitted().len() as int),
            r,
        ),
{
    let ghost n = old(client).calls().len() as int;
    let ghost m0 = old(metrics).emitted().len() as int;
    let log_group_name = event.detail.request_parameters.log_group_name.clone();

    let existing_retention = match get_existing_retention(&log_group_name, client) {
        Err(e) => {
            assert(client.calls().skip(n) =~= seq![client.calls().last()]);
            assert(metrics.emitted().skip(m0) =~= Seq::<(Seq<char>, Seq<Metric>)>::empty());
            return Err(e);
        },
        Ok(days) => days,
    };
    assert(client.calls().skip(n) =~= seq![client.calls().last()]);

    if existing_retention != 0 {
        publish_metric(
            metrics,
            config.metric_namespace.as_str(),
            Metric::new(MetricName::AlreadyHasRetention, 1),
        );
        assert(metrics.emitted().skip(m0) =~= seq![
            (
                config.metric_namespace@,
                seq![(Metric { name: MetricName::AlreadyHasRetention, value: 1u64 })],
            ),
        ]);
        let mut message = String::from_str("Not setting retention for ");
        let ghost head = message@;
        message.append(log_group_name.as_str());
        proof {
            lemma_contains_self(log_group_name@);
            lemma_contains_append_left(head, log_group_name@, log_group_name@);
        }
        let ghost with_name = message@;
        message.append(" because it is set to ");
        proof {
            lemma_contains_append_right(with_name, " because it is set to "@, log_group_name@);
        }
        let days_text = i32_to_string(existing_retention);
        let ghost before_days = message@;
        message.append(days_text.as_str());
        proof {
            lemma_contains_append_right(before_days, days_text@, log_group_name@);
            lemma_contains_self(days_text@);
            lemma_contains_append_left(before_days, days_text@, days_text@);
        }
        let ghost with_days = message@;
        message.append(" days already.");
        proof {
            lemma_contains_append_right(with_days, " days already."@, log_group_name@);
            lemma_contains_append_right(with_days, " days already."@, days_text@);
        }
        return Ok(message);
    }

    let mut log_group_arn = String::from_str("arn:");
    log_group_arn.append(config.aws_partition.as_str());
    log_group_arn.append(":logs:");
    log_group_arn.append(event.detail.aws_region.as_str());
    log_group_arn.append(":");
    log_group_arn.append(event.detail.user_identity.account_id.as_str());
    log_group_arn.append(":log-group:");
    log_group_arn.append(log_group_name.as_str());
    assert(log_group_arn@ == event_log_group_arn(
        config.aws_partition@,
        event.detail.aws_region@,
        event.detail.user_identity.account_id@,
        event.detail.request_parameters.log_group_name@,
    ));

    let tags = match client.list_tags_for_resource(&log_group_arn) {
        Err(e) => {
            assert(client.calls().skip(n) =~= client.calls().subrange(n, n + 2));
            assert(metrics.emitted().skip(m0) =~= Seq::<(Seq<char>, Seq<Metric>)>::empty());
            return Err(Error::from_client(e));
        },
        Ok(tags) => tags,
    };
    assert(client.calls().skip(n) =~= client.calls().subrange(n, n + 2));

    let override_key = String::from_str("retention");
    let existing_tag = tags_lookup(&tags, &override_key);
    if existing_tag.is_some() {
        let tag_value = match existing_tag {
            Some(v) => v,
            None => unreached(),
        };
        publish_metric(
            metrics,
            config.metric_namespace.as_str(),
            Metric::new(MetricName::AlreadyTaggedWithRetention, 1),
        );
        assert(metrics.emitted().skip(m0) =~= seq![
            (
                config.metric_namespace@,
                seq![(Metric { name: MetricName::AlreadyTaggedWithRetention, value: 1u64 })],
            ),
        ]);
        let mut message = String::from_str("Not setting retention for ");
        let ghost head = message@;
        message.append(log_group_name.as_str());
        proof {
            lemma_contains_self(log_group_name@);
            lemma_contains_append_left(head, log_group_name@, log_group_name@);
        }
        let ghost with_name = message@;
        message.append(" because tag `retention`=`");
        proof {
            lemma_contains_append_right(
                with_name,
                " because tag `retention`=`"@,
                log_group_name@,
            );
        }
        let ghost before_value = message@;
        message.append(tag_value.as_str());
        proof {
            lemma_contains_append_right(before_value, tag_value@, log_group_name@);
            lemma_contains_self(tag_value@);
            lemma_contains_append_left(before_value, tag_value@, tag_value@);
        }
        let ghost with_value = message@;
        message.append("` exists on it.");
        proof {
            lemma_contains_append_right(with_value, "` exists on it."@, log_group_name@);
            lemma_contains_append_right(with_value, "` exists on it."@, tag_value@);
        }
        return Ok(message);
    }

    match client.put_retention_policy(&log_group_name, config.retention_days) {
        Err(e) => {
            assert(client.calls().skip(n) =~= client.calls().subrange(n, n + 3));
            assert(metrics.emitted().skip(m0) =~= Seq::<(Seq<char>, Seq<Metric>)>::empty());
            return Err(Error::from_client(e));
        },
        Ok(u) => {},
    }
    assert(client.calls().skip(n) =~= client.calls().subrange(n, n + 3));

    publish_metric(metrics, config.metric_namespace.as_str(), Metric::new(MetricName::Updated, 1));
    assert(metrics.emitted().skip(m0) =~= seq![
        (config.metric_namespace@, seq![(Metric { name: MetricName::Updated, value: 1u64 })]),
    ]);

    if config.log_group_tags.len() > 0 {
        match client.tag_resource(&log_group_arn, &config.log_group_tags) {
            Err(e) => {
                assert(client.calls().skip(n) =~= client.calls().subrange(n, n + 4));
                return Err(Error::from_client(e));
            },
            Ok(u) => {},
        }
        assert(client.calls().skip(n) =~= client.calls().subrange(n, n + 4));
    } else {
        assert(client.calls().skip(n) =~= client.calls().subrange(n, n + 3));
    }
    Ok(String::from_str("Retention set successfully"))
}

} // verus!

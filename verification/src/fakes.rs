//! Scripted, fully verified implementations of the client traits, for use
//! by tests: they serve pre-arranged responses and keep an inspectable
//! record of every call they receive.

use vstd::prelude::*;

use crate::cloudwatch_logs_traits::{
    ClientCall, CloudWatchLogsHistory, DescribeLogGroups, ListTagsForResource, LogGroupPage,
    LogGroupState, PutRetentionPolicy, TagResource, page_result_view, tags_result_view,
    unit_result_view,
};
use crate::metric_publisher::{Metric, PutMetricData};
use crate::text::{pairs_contain_key, pairs_first_value};

verus! {

/// One client call as tests observe it: the operation and its arguments.
#[derive(Debug, Clone, PartialEq, Eq)]
pub enum CallRecord {
    DescribeLogGroups { log_group_name_prefix: Option<String>, next_token: Option<String> },
    ListTagsForResource { resource_arn: String },
    PutRetentionPolicy { log_group_name: String, retention_in_days: i32 },
    TagResource { log_group_arn: String, tags: Vec<(String, String)> },
}

/// The response the tag-listing script holds for `arn`: the first entry
/// with that identifier, or an empty tag set when none is scripted.
pub open spec fn scripted_tags(
    script: Seq<(String, Result<Vec<(String, String)>, String>)>,
    arn: Seq<char>,
) -> Result<Seq<(Seq<char>, Seq<char>)>, Seq<char>>
    decreases script.len(),
{
    if script.len() == 0 {
        Ok(Seq::empty())
    } else if script[0].0@ == arn {
        tags_result_view(script[0].1)
    } else {
        scripted_tags(script.skip(1), arn)
    }
}

/// A log-group client that serves scripted responses.
///
/// Listing pages are consumed in order; once the script is exhausted,
/// further listing calls yield an empty final page. Tag listings are looked
/// up by resource identifier, and a resource with no scripted entry has no
/// tags. Mutations succeed unless the name (for retention) or identifier
/// (for tagging) has a scripted failure.
pub struct FakeCloudWatchLogs {
    pub describe_script: Vec<Result<LogGroupPage, String>>,
    pub tags_script: Vec<(String, Result<Vec<(String, String)>, String>)>,
    pub retention_failures: Vec<(String, String)>,
    pub tag_failures: Vec<(String, String)>,
    /// Every call received so far, oldest first, for inspection by tests.
    pub call_log: Vec<CallRecord>,
    pub history: Ghost<Seq<ClientCall>>,
}

impl FakeCloudWatchLogs {
    /// A fake client with the given scripts: listing pages in order, tag
    /// listings by resource identifier, and per-name / per-identifier
    /// failure messages for the two mutations.
    pub fn new(
        describe_script: Vec<Result<LogGroupPage, String>>,
        tags_script: Vec<(String, Result<Vec<(String, String)>, String>)>,
        retention_failures: Vec<(String, String)>,
        tag_failures: Vec<(String, String)>,
    ) -> (r: FakeCloudWatchLogs)
        ensures
            r.calls() == Seq::<ClientCall>::empty(),
            r.pages_remaining() == describe_script@.len(),
            r.call_log@.len() == 0,
    {
        FakeCloudWatchLogs {
            describe_script,
            tags_script,
            retention_failures,
            tag_failures,
            call_log: Vec::new(),
            history: Ghost(Seq::empty()),
        }
    }

    /// How many calls have been received.
    pub fn call_count(&self) -> (r: usize)
        ensures
            r == self.call_log@.len(),
    {
        self.call_log.len()
    }

    /// Looks up the first scripted failure message for `key`.
    fn scripted_failure(script: &Vec<(String, String)>, key: &String) -> (r: Option<String>)
        ensures
            r is Some <==> pairs_contain_key(script.deep_view(), key@),
            r matches Some(m) ==> pairs_first_value(script.deep_view(), key@) == Some(m@),
    {
        let ghost pairs = script.deep_view();
        proof {
            assert(pairs.skip(0) =~= pairs);
        }
        let mut j: usize = 0;
        while j < script.len()
            invariant
                j <= script.len(),
                pairs == script.deep_view(),
                pairs.len() == script.len(),
                forall|i: int| 0 <= i < j ==> pairs[i].0 != key@,
                forall|i: int| 0 <= i < pairs.len() ==> pairs[i] == (script@[i].0@, script@[i].1@),
                pairs_first_value(pairs, key@) == pairs_first_value(pairs.skip(j as int), key@),
            decreases script.len() - j,
        {
            proof {
                assert(pairs.skip(j as int).len() > 0);
                assert(pairs.skip(j as int)[0] == pairs[j as int]);
            }
            if script[j].0 == *key {
                assert(pairs[j as int].0 == key@);
                return Some(script[j].1.clone());
            }
            proof {
                assert(pairs.skip(j as int).skip(1) =~= pairs.skip(j as int + 1));
            }
            j += 1;
        }
        assert(pairs.skip(j as int) =~= Seq::<(Seq<char>, Seq<char>)>::empty());
        None
    }

    /// Copies a tag list pair by pair.
    fn clone_tags(tags: &Vec<(String, String)>) -> (r: Vec<(String, String)>)
        ensures
            r.deep_view() == tags.deep_view(),
    {
        let mut copied: Vec<(String, String)> = Vec::new();
        let mut j: usize = 0;
        while j < tags.len()
            invariant
                j <= tags.len(),
                copied@.len() == j,
                forall|i: int|
                    0 <= i < j ==> (#[trigger] copied.deep_view()[i]) == tags.deep_view()[i],
            decreases tags.len() - j,
        {
            let key = tags[j].0.clone();
            let value = tags[j].1.clone();
            let ghost key_view = key@;
            let ghost value_view = value@;
            let ghost prev = copied@;
            let ghost prev_vec = copied;
            copied.push((key, value));
            proof {
                assert(key_view == tags@[j as int].0@);
                assert(value_view == tags@[j as int].1@);
                assert forall|i: int| 0 <= i < j + 1 implies (#[trigger] copied.deep_view()[i])
                    == tags.deep_view()[i] by {
                    assert(copied.deep_view()[i] == copied@[i].deep_view());
                    assert(tags.deep_view()[i] == tags@[i].deep_view());
                    if i < j {
                        assert(prev_vec.deep_view()[i] == tags.deep_view()[i]);
                        assert(prev_vec.deep_view()[i] == prev_vec@[i].deep_view());
                        assert(prev_vec@[i] == prev[i]);
                        assert(copied@[i] == prev[i]);
                    } else {
                        assert(copied@[i].0@ == key_view);
                        assert(copied@[i].1@ == value_view);
                        assert(copied@[i].deep_view() == (copied@[i].0@, copied@[i].1@));
                        assert(tags@[i].deep_view() == (tags@[i].0@, tags@[i].1@));
                    }
                }
            }
            j += 1;
        }
        assert(copied.deep_view() =~= tags.deep_view());
        copied
    }
}

impl CloudWatchLogsHistory for FakeCloudWatchLogs {
    open spec fn calls(&self) -> Seq<ClientCall> {
        self.history@
    }

    open spec fn pages_remaining(&self) -> nat {
        self.describe_script@.len()
    }
}

impl DescribeLogGroups for FakeCloudWatchLogs {
    fn describe_log_groups(
        &mut self,
        log_group_name_prefix: Option<String>,
        next_token: Option<String>,
    ) -> (r: Result<LogGroupPage, String>)
        ensures
            old(self).describe_script@.len() > 0 ==> r == old(self).describe_script@[0]
                && final(self).describe_script@ == old(self).describe_script@.skip(1),
            old(self).describe_script@.len() == 0 ==> (r matches Ok(page) && page.log_groups@.len()
                == 0 && page.next_token is None),
    {
        self.call_log.push(
            CallRecord::DescribeLogGroups {
                log_group_name_prefix: log_group_name_prefix.clone(),
                next_token: next_token.clone(),
            },
        );
        let response: Result<LogGroupPage, String> = if self.describe_script.len() > 0 {
            let first = self.describe_script.remove(0);
            assert(self.describe_script@ =~= old(self).describe_script@.skip(1));
            first
        } else {
            Ok(LogGroupPage { log_groups: Vec::new(), next_token: None })
        };
        self.history = Ghost(
            self.history@.push(
                ClientCall::DescribeLogGroups {
                    log_group_name_prefix: log_group_name_prefix.deep_view(),
                    next_token: next_token.deep_view(),
                    result: page_result_view(response),
                },
            ),
        );
        response
    }
}

impl ListTagsForResource for FakeCloudWatchLogs {
    fn list_tags_for_resource(&mut self, resource_arn: &String) -> (r: Result<
        Vec<(String, String)>,
        String,
    >)
        ensures
            tags_result_view(r) == scripted_tags(old(self).tags_script@, resource_arn@),
    {
        self.call_log.push(CallRecord::ListTagsForResource { resource_arn: resource_arn.clone() });
        let ghost script = self.tags_script@;
        proof {
            assert(script.skip(0) =~= script);
        }
        let mut response: Result<Vec<(String, String)>, String> = Ok(Vec::new());
        let mut j: usize = 0;
        let mut found = false;
        while j < self.tags_script.len() && !found
            invariant
                j <= self.tags_script@.len(),
                script == self.tags_script@,
                !found ==> scripted_tags(script, resource_arn@) == scripted_tags(
                    script.skip(j as int),
                    resource_arn@,
                ),
                !found ==> (response matches Ok(v) && v.deep_view() == Seq::<(
                    Seq<char>,
                    Seq<char>,
                )>::empty()),
                found ==> tags_result_view(response) == scripted_tags(script, resource_arn@),
            decreases self.tags_script@.len() - j + (if found { 0int } else { 1int }),
        {
            proof {
                assert(script.skip(j as int).len() > 0);
                assert(script.skip(j as int)[0] == script[j as int]);
            }
            if self.tags_script[j].0 == *resource_arn {
                response = match &self.tags_script[j].1 {
                    Ok(tags) => Ok(Self::clone_tags(tags)),
                    Err(e) => Err(e.clone()),
                };
                found = true;
            } else {
                proof {
                    assert(script.skip(j as int).skip(1) =~= script.skip(j as int + 1));
                }
                j += 1;
            }
        }
        proof {
            if !found {
                assert(script.skip(j as int) =~= Seq::<(
                    String,
                    Result<Vec<(String, String)>, String>,
                )>::empty());
            }
        }
        self.history = Ghost(
            self.history@.push(
                ClientCall::ListTagsForResource {
                    resource_arn: resource_arn@,
                    result: tags_result_view(response),
                },
            ),
        );
        response
    }
}

impl PutRetentionPolicy for FakeCloudWatchLogs {
    fn put_retention_policy(&mut self, log_group_name: &String, retention_in_days: i32) -> (r:
        Result<(), String>)
        ensures
            r is Err <==> pairs_contain_key(
                old(self).retention_failures.deep_view(),
                log_group_name@,
            ),
            r matches Err(m) ==> pairs_first_value(
                old(self).retention_failures.deep_view(),
                log_group_name@,
            ) == Some(m@),
    {
        self.call_log.push(
            CallRecord::PutRetentionPolicy {
                log_group_name: log_group_name.clone(),
                retention_in_days,
            },
        );
        let response: Result<(), String> = match Self::scripted_failure(
            &self.retention_failures,
            log_group_name,
        ) {
            Some(message) => Err(message),
            None => Ok(()),
        };
        self.history = Ghost(
            self.history@.push(
                ClientCall::PutRetentionPolicy {
                    log_group_name: log_group_name@,
                    retention_in_days: retention_in_days as int,
                    result: unit_result_view(response),
                },
            ),
        );
        response
    }
}

impl TagResource for FakeCloudWatchLogs {
    fn tag_resource(&mut self, log_group_arn: &String, tags: &Vec<(String, String)>) -> (r: Result<
        (),
        String,
    >)
        ensures
            r is Err <==> pairs_contain_key(old(self).tag_failures.deep_view(), log_group_arn@),
            r matches Err(m) ==> pairs_first_value(
                old(self).tag_failures.deep_view(),
                log_group_arn@,
            ) == Some(m@),
    {
        self.call_log.push(
            CallRecord::TagResource { log_group_arn: log_group_arn.clone(), tags: tags.clone() },
        );
        let response: Result<(), String> = match Self::scripted_failure(
            &self.tag_failures,
            log_group_arn,
        ) {
            Some(message) => Err(message),
            None => Ok(()),
        };
        self.history = Ghost(
            self.history@.push(
                ClientCall::TagResource {
                    log_group_arn: log_group_arn@,
                    tags: tags.deep_view(),
                    result: unit_result_view(response),
                },
            ),
        );
        response
    }
}

/// A metrics sink that records each batch it receives.
pub struct FakeMetrics {
    /// Every batch received so far, with its namespace, oldest first.
    pub call_log: Vec<(String, Vec<Metric>)>,
    pub history: Ghost<Seq<(Seq<char>, Seq<Metric>)>>,
}

impl FakeMetrics {
    pub fn new() -> (r: FakeMetrics)
        ensures
            r.emitted() == Seq::<(Seq<char>, Seq<Metric>)>::empty(),
            r.call_log@.len() == 0,
    {
        FakeMetrics { call_log: Vec::new(), history: Ghost(Seq::empty()) }
    }
}

impl PutMetricData for FakeMetrics {
    open spec fn emitted(&self) -> Seq<(Seq<char>, Seq<Metric>)> {
        self.history@
    }

    fn put_metric_data(&mut self, namespace: &str, metric_data: Vec<Metric>) {
        self.history = Ghost(self.history@.push((namespace@, metric_data@)));
        self.call_log.push((String::from_str(namespace), metric_data));
    }
}

} // verus!

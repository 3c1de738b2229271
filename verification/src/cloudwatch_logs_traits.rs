//! The log-group client interface, one capability trait per operation, so
//! that the reconciler and the orchestrators can be written generically over
//! anything that can list, tag and set retention.
//!
//! Every operation records itself in a ghost call log (`calls`), including
//! the arguments it was given and the result it produced. The orchestrators'
//! contracts are stated over that log: which calls were made, in which
//! order, with which arguments, and how the results determined the outcome.
//!
//! Implementations of these traits outside this crate (such as an adapter
//! over the real cloud client) are trusted to honour the contracts: each
//! method appends exactly one faithful record of itself, and pagination is
//! finite. [`crate::fakes::FakeCloudWatchLogs`] is a verified
//! implementation.

use vstd::prelude::*;

verus! {

/// A snapshot of one log group at decision time. A `retention_in_days` of 0
/// means "no retention policy set" — a sentinel, not a real value.
#[derive(Debug, Clone)]
pub struct LogGroupState {
    pub log_group_name: String,
    pub arn: String,
    pub retention_in_days: i32,
}

/// The mathematical value of a [`LogGroupState`].
pub struct LogGroupStateView {
    pub log_group_name: Seq<char>,
    pub arn: Seq<char>,
    pub retention_in_days: int,
}

impl View for LogGroupState {
    type V = LogGroupStateView;

    open spec fn view(&self) -> LogGroupStateView {
        LogGroupStateView {
            log_group_name: self.log_group_name@,
            arn: self.arn@,
            retention_in_days: self.retention_in_days as int,
        }
    }
}

impl DeepView for LogGroupState {
    type V = LogGroupStateView;

    open spec fn deep_view(&self) -> LogGroupStateView {
        self.view()
    }
}

/// One page of the paginated log-group listing. An absent `next_token`
/// in a response means there are no further pages.
#[derive(Debug, Clone)]
pub struct LogGroupPage {
    pub log_groups: Vec<LogGroupState>,
    pub next_token: Option<String>,
}

/// The mathematical value of a [`LogGroupPage`].
pub struct LogGroupPageView {
    pub log_groups: Seq<LogGroupStateView>,
    pub next_token: Option<Seq<char>>,
}

impl View for LogGroupPage {
    type V = LogGroupPageView;

    open spec fn view(&self) -> LogGroupPageView {
        LogGroupPageView {
            log_groups: self.log_groups.deep_view(),
            next_token: self.next_token.deep_view(),
        }
    }
}

/// One recorded client operation: its arguments and its result. String
/// errors carry the transport failure's message.
pub enum ClientCall {
    DescribeLogGroups {
        log_group_name_prefix: Option<Seq<char>>,
        next_token: Option<Seq<char>>,
        result: Result<LogGroupPageView, Seq<char>>,
    },
    ListTagsForResource {
        resource_arn: Seq<char>,
        result: Result<Seq<(Seq<char>, Seq<char>)>, Seq<char>>,
    },
    PutRetentionPolicy {
        log_group_name: Seq<char>,
        retention_in_days: int,
        result: Result<(), Seq<char>>,
    },
    TagResource {
        log_group_arn: Seq<char>,
        tags: Seq<(Seq<char>, Seq<char>)>,
        result: Result<(), Seq<char>>,
    },
}

/// The view of a describe result as it is recorded in the call log.
pub open spec fn page_result_view(r: Result<LogGroupPage, String>) -> Result<LogGroupPageView, Seq<char>> {
    match r {
        Ok(page) => Ok(page@),
        Err(e) => Err(e@),
    }
}

/// The view of a tag-listing result as it is recorded in the call log.
pub open spec fn tags_result_view(r: Result<Vec<(String, String)>, String>) -> Result<
    Seq<(Seq<char>, Seq<char>)>,
    Seq<char>,
> {
    match r {
        Ok(tags) => Ok(tags.deep_view()),
        Err(e) => Err(e@),
    }
}

/// The view of a mutation result as it is recorded in the call log.
pub open spec fn unit_result_view(r: Result<(), String>) -> Result<(), Seq<char>> {
    match r {
        Ok(u) => Ok(u),
        Err(e) => Err(e@),
    }
}

/// The ghost record of every operation a client has performed, and a bound
/// on how many listing pages it can still hand out. The bound makes the
/// sweep's pagination loop provably finite, reflecting that the listing is
/// a finite snapshot rather than an endless stream.
pub trait CloudWatchLogsHistory {
    /// Every call made so far, oldest first. The default stands for an
    /// implementation that records nothing; an implementation verified
    /// against the operation contracts overrides it.
    open spec fn calls(&self) -> Seq<ClientCall> {
        Seq::empty()
    }

    /// An upper bound on the listing pages still available. The default
    /// stands for an implementation that paginates nothing; an
    /// implementation verified against the operation contracts overrides
    /// it.
    open spec fn pages_remaining(&self) -> nat {
        0
    }
}

/// Lists log groups, optionally by name prefix, one page at a time.
pub trait DescribeLogGroups: CloudWatchLogsHistory {
    fn describe_log_groups(
        &mut self,
        log_group_name_prefix: Option<String>,
        next_token: Option<String>,
    ) -> (r: Result<LogGroupPage, String>)
        ensures
            final(self).calls() == old(self).calls().push(
                ClientCall::DescribeLogGroups {
                    log_group_name_prefix: log_group_name_prefix.deep_view(),
                    next_token: next_token.deep_view(),
                    result: page_result_view(r),
                },
            ),
            final(self).pages_remaining() <= old(self).pages_remaining(),
            (r matches Ok(page) && page.next_token is Some) ==> final(self).pages_remaining()
                < old(self).pages_remaining(),
    ;
}

/// Reads the tags on a resource. The resource identifier must not carry the
/// trailing wildcard suffix, which this operation rejects.
pub trait ListTagsForResource: CloudWatchLogsHistory {
    fn list_tags_for_resource(&mut self, resource_arn: &String) -> (r: Result<
        Vec<(String, String)>,
        String,
    >)
        ensures
            final(self).calls() == old(self).calls().push(
                ClientCall::ListTagsForResource {
                    resource_arn: resource_arn@,
                    result: tags_result_view(r),
                },
            ),
            final(self).pages_remaining() == old(self).pages_remaining(),
    ;
}

/// Sets the retention policy of a log group, in days.
pub trait PutRetentionPolicy: CloudWatchLogsHistory {
    fn put_retention_policy(&mut self, log_group_name: &String, retention_in_days: i32) -> (r:
        Result<(), String>)
        ensures
            final(self).calls() == old(self).calls().push(
                ClientCall::PutRetentionPolicy {
                    log_group_name: log_group_name@,
                    retention_in_days: retention_in_days as int,
                    result: unit_result_view(r),
                },
            ),
            final(self).pages_remaining() == old(self).pages_remaining(),
    ;
}

/// Merges tags into a resource's tag set.
pub trait TagResource: CloudWatchLogsHistory {
    fn tag_resource(&mut self, log_group_arn: &String, tags: &Vec<(String, String)>) -> (r: Result<
        (),
        String,
    >)
        ensures
            final(self).calls() == old(self).calls().push(
                ClientCall::TagResource {
                    log_group_arn: log_group_arn@,
                    tags: tags.deep_view(),
                    result: unit_result_view(r),
                },
            ),
            final(self).pages_remaining() == old(self).pages_remaining(),
    ;
}

} // verus!

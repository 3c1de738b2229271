//! The "log group created" notification: the fields this system reads from
//! it, and their extraction from the raw payload text.

use vstd::prelude::*;

verus! {

/// The notification's requestParameters: the created group's bare name.
#[derive(Debug, Clone, PartialEq, Eq)]
pub struct CloudTrailEventRequestParameters {
    pub log_group_name: String,
}

/// The notification's userIdentity: the account the group was created in.
#[derive(Debug, Clone, PartialEq, Eq)]
pub struct CloudTrailEventUserIdentity {
    pub account_id: String,
}

/// The notification's detail: region, identity, and request parameters.
#[derive(Debug, Clone, PartialEq, Eq)]
pub struct CloudTrailEventDetail {
    pub aws_region: String,
    pub user_identity: CloudTrailEventUserIdentity,
    pub request_parameters: CloudTrailEventRequestParameters,
}

/// A "log group created" notification, reduced to the fields this system
/// reads.
#[derive(Debug, Clone, PartialEq, Eq)]
pub struct CloudTrailEvent {
    pub detail: CloudTrailEventDetail,
}

impl CloudTrailEvent {
    pub fn new(account_id: &str, aws_region: &str, log_group_name: &str) -> (r: Self)
        ensures
            r.detail.user_identity.account_id@ == account_id@,
            r.detail.aws_region@ == aws_region@,
            r.detail.request_parameters.log_group_name@ == log_group_name@,
    {
        Self {
            detail: CloudTrailEventDetail {
                request_parameters: CloudTrailEventRequestParameters {
                    log_group_name: String::from_str(log_group_name),
                },
                aws_region: String::from_str(aws_region),
                user_identity: CloudTrailEventUserIdentity {
                    account_id: String::from_str(account_id),
                },
            },
        }
    }
}

/// The creation event a piece of text denotes: the account id, region and
/// log-group name that a JSON object carries as strings under
/// `detail.userIdentity.accountId`, `detail.awsRegion` and
/// `detail.requestParameters.logGroupName`; nothing when the text is not
/// such an object.
pub uninterp spec fn event_of_json(text: Seq<char>) -> Option<(Seq<char>, Seq<char>, Seq<char>)>;

/// Relies on serde_json: parses the payload text and reads the string
/// fields `detail.awsRegion`, `detail.userIdentity.accountId` and
/// `detail.requestParameters.logGroupName`. The result depends on the text
/// alone; the error text is the parse diagnostic.
#[verifier::external_body]
pub(crate) fn extract_creation_event(text: &str) -> (r: Result<CloudTrailEvent, String>)
    ensures
        r matches Ok(e) ==> event_of_json(text@) == Some(
            (
                e.detail.user_identity.account_id@,
                e.detail.aws_region@,
                e.detail.request_parameters.log_group_name@,
            ),
        ),
        r is Err <==> event_of_json(text@) is None,
{
    let v: serde_json::Value = serde_json::from_str(text).map_err(|e| e.to_string())?;
    let d = v.get("detail");
    let region = d.and_then(|d| d.get("awsRegion")).and_then(|x| x.as_str());
    let account = d.and_then(|d| d.get("userIdentity")).and_then(|u| u.get("accountId")).and_then(|x| x.as_str());
    let name = d.and_then(|d| d.get("requestParameters")).and_then(|p| p.get("logGroupName")).and_then(|x| x.as_str());
    match (account, region, name) {
        (Some(a), Some(r), Some(n)) => Ok(CloudTrailEvent::new(a, r, n)),
        _ => Err("missing or non-string creation event fields".to_string()),
    }
}

} // verus!

//! Looking up a named log group's current retention through the listing
//! operation.

use vstd::prelude::*;

use crate::cloudwatch_logs_traits::{ClientCall, DescribeLogGroups, LogGroupStateView};
use crate::error::{Error, Severity};
use crate::text::{lemma_contains_append_left, lemma_contains_append_right, lemma_contains_self,
    text_contains};

verus! {

/// The retention of the first group in `groups` named `name`, if any.
pub open spec fn found_group_retention(groups: Seq<LogGroupStateView>, name: Seq<char>) -> Option<
    int,
>
    decreases groups.len(),
{
    if groups.len() == 0 {
        None
    } else if groups[0].log_group_name == name {
        Some(groups[0].retention_in_days)
    } else {
        found_group_retention(groups.skip(1), name)
    }
}

/// Asks the client for the named group and returns its current retention in
/// days, 0 standing for "no retention policy set".
///
/// Exactly one listing call is made, filtered by the group's name. A group
/// that does not appear in the response yields a `Warning`-severity error
/// naming the group: it may have been deleted right after its creation, an
/// expected race rather than a backend failure. A failure of the listing
/// itself is reported at `Error` severity with the failure's own message.
#[verifier::loop_isolation(false)]
pub fn get_existing_retention<C: DescribeLogGroups>(log_group_name: &String, client: &mut C) -> (r:
    Result<i32, Error>)
    ensures
        final(client).pages_remaining() <= old(client).pages_remaining(),
        old(client).calls().is_prefix_of(final(client).calls()),
        final(client).calls().len() == old(client).calls().len() + 1,
        final(client).calls().last() matches ClientCall::DescribeLogGroups {
            log_group_name_prefix,
            next_token,
            result,
        },
        final(client).calls().last()->DescribeLogGroups_log_group_name_prefix == Some(
            log_group_name@,
        ),
        final(client).calls().last()->DescribeLogGroups_next_token is None,
        match final(client).calls().last()->DescribeLogGroups_result {
            Err(e) => {
                &&& r matches Err(err)
                &&& err.severity == Severity::Error
                &&& err.message@ == e
            },
            Ok(page) => match found_group_retention(page.log_groups, log_group_name@) {
                Some(days) => r matches Ok(d) && d as int == days,
                None => {
                    &&& r matches Err(err)
                    &&& err.severity == Severity::Warning
                    &&& text_contains(err.message@, log_group_name@)
                },
            },
        },
{
    let page = match client.describe_log_groups(Some(log_group_name.clone()), None) {
        Err(e) => {
            return Err(Error::from_client(e));
        },
        Ok(page) => page,
    };

    let ghost groups = page.log_groups.deep_view();
    assert(forall|i: int|
        0 <= i < groups.len() ==> (#[trigger] groups[i]) == page.log_groups@[i]@);

    assert(groups.skip(0) =~= groups);
    let mut j: usize = 0;
    while j < page.log_groups.len()
        invariant
            j <= page.log_groups@.len(),
            groups == page.log_groups.deep_view(),
            groups.len() == page.log_groups@.len(),
            forall|i: int| 0 <= i < groups.len() ==> (#[trigger] groups[i]) == page.log_groups@[i]@,
            found_group_retention(groups, log_group_name@) == found_group_retention(
                groups.skip(j as int),
                log_group_name@,
            ),
        decreases page.log_groups@.len() - j,
    {
        proof {
            assert(groups.skip(j as int).len() > 0);
            assert(groups.skip(j as int)[0] == groups[j as int]);
        }
        if page.log_groups[j].log_group_name == *log_group_name {
            return Ok(page.log_groups[j].retention_in_days);
        }
        proof {
            assert(groups.skip(j as int).skip(1) =~= groups.skip(j as int + 1));
        }
        j += 1;
    }
    assert(groups.skip(j as int) =~= Seq::<LogGroupStateView>::empty());

    let mut message = String::from_str("Did not find log group named ");
    let ghost head = message@;
    message.append(log_group_name.as_str());
    proof {
        lemma_contains_self(log_group_name@);
        lemma_contains_append_left(head, log_group_name@, log_group_name@);
    }
    let ghost with_name = message@;
    message.append(". Maybe it was deleted immediately after creation?");
    proof {
        lemma_contains_append_right(
            with_name,
            ". Maybe it was deleted immediately after creation?"@,
            log_group_name@,
        );
    }
    Err(Error { message, severity: Severity::Warning })
}

} // verus!

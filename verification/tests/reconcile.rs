use terraform_aws_default_log_retention::{
    CallRecord, Error, FakeCloudWatchLogs, FakeMetrics, LogGroupPage, LogGroupState,
    RetentionConfig, Severity, UpdateResult, process_all_log_groups, process_log_group,
};

fn test_config() -> RetentionConfig {
    RetentionConfig {
        retention_days: 30,
        log_group_tags: vec![
            ("a".to_string(), "b".to_string()),
            ("c".to_string(), "d".to_string()),
        ],
        metric_namespace: "LogRotation".to_string(),
        aws_partition: "aws".to_string(),
    }
}

fn group(name: &str, arn: &str, retention: i32) -> LogGroupState {
    LogGroupState {
        log_group_name: name.to_string(),
        arn: arn.to_string(),
        retention_in_days: retention,
    }
}

fn client_with_tags(
    tags_script: Vec<(String, Result<Vec<(String, String)>, String>)>,
) -> FakeCloudWatchLogs {
    FakeCloudWatchLogs::new(Vec::new(), tags_script, Vec::new(), Vec::new())
}

#[test]
fn test_process_log_group_success() {
    let config = test_config();
    let log_group_arn = "arn:aws:logs:123:us-west-2:log-group/MyLogGroupWasCreated";
    let mut client = client_with_tags(Vec::new());

    let log_group = group(
        "MyLogGroupWasCreated",
        "arn:aws:logs:123:us-west-2:log-group/MyLogGroupWasCreated:*",
        0,
    );

    let result = process_log_group(&log_group, &config, &mut client).expect("Should not fail");

    assert_eq!(UpdateResult::Updated, result);
    assert_eq!(
        client.call_log,
        vec![
            CallRecord::ListTagsForResource { resource_arn: log_group_arn.to_string() },
            CallRecord::PutRetentionPolicy {
                log_group_name: "MyLogGroupWasCreated".to_string(),
                retention_in_days: 30,
            },
            CallRecord::TagResource {
                log_group_arn: log_group_arn.to_string(),
                tags: config.log_group_tags.clone(),
            },
        ]
    );
}

#[test]
fn test_process_log_group_retention_already_set() {
    let config = test_config();
    let mut client = client_with_tags(Vec::new());

    let log_group = group(
        "MyLogGroupWasCreated",
        "arn:aws:logs:123:us-west-2:log-group/MyLogGroupWasCreated:*",
        30,
    );

    let result = process_log_group(&log_group, &config, &mut client).expect("Should not fail");

    assert_eq!(UpdateResult::AlreadyHasRetention, result);
    assert_eq!(0, client.call_count());
}

#[test]
fn test_process_log_group_no_retention_but_tag_present() {
    let config = test_config();
    let mut client = client_with_tags(vec![(
        "arn:aws:logs:123:us-west-2:log-group/MyLogGroupWasCreated".to_string(),
        Ok(vec![(
            "retention".to_string(),
            "I know what I'm doing and I've tagged this group. Leave me alone!".to_string(),
        )]),
    )]);

    let log_group = group(
        "MyLogGroupWasCreated",
        "arn:aws:logs:123:us-west-2:log-group/MyLogGroupWasCreated:*",
        0,
    );

    let result = process_log_group(&log_group, &config, &mut client).expect("Should not fail");

    assert_eq!(UpdateResult::AlreadyTaggedWithRetention, result);
    assert_eq!(1, client.call_count());
    assert_eq!(
        client.call_log,
        vec![CallRecord::ListTagsForResource {
            resource_arn: "arn:aws:logs:123:us-west-2:log-group/MyLogGroupWasCreated".to_string(),
        }]
    );
}

#[test]
fn test_process_log_group_fails() {
    let config = test_config();
    let mut client = client_with_tags(vec![(
        "arn:aws:logs:123:us-west-2:log-group/NoRetentionAndGetTagsCallFails".to_string(),
        Err("ResourceAlreadyExistsException".to_string()),
    )]);

    let log_group = group(
        "MyLogGroupWasCreated",
        "arn:aws:logs:123:us-west-2:log-group/NoRetentionAndGetTagsCallFails:*",
        0,
    );

    let result = process_log_group(&log_group, &config, &mut client).expect_err("Should fail");

    assert_eq!(Severity::Error, result.severity);
    assert_eq!("ResourceAlreadyExistsException", result.message);
    assert_eq!(1, client.call_count());
}

#[test]
fn test_process_log_group_empty_tag_mapping_skips_tagging() {
    let mut config = test_config();
    config.log_group_tags = Vec::new();
    let mut client = client_with_tags(Vec::new());

    let log_group = group(
        "MyLogGroupWasCreated",
        "arn:aws:logs:123:us-west-2:log-group/MyLogGroupWasCreated:*",
        0,
    );

    let result = process_log_group(&log_group, &config, &mut client).expect("Should not fail");

    assert_eq!(UpdateResult::Updated, result);
    assert_eq!(
        client.call_log,
        vec![
            CallRecord::ListTagsForResource {
                resource_arn: "arn:aws:logs:123:us-west-2:log-group/MyLogGroupWasCreated"
                    .to_string(),
            },
            CallRecord::PutRetentionPolicy {
                log_group_name: "MyLogGroupWasCreated".to_string(),
                retention_in_days: 30,
            },
        ]
    );
}

#[test]
fn test_process_log_group_reconcile_twice_is_idempotent() {
    let config = test_config();
    let mut client = client_with_tags(Vec::new());

    let before = group("g1", "arn:aws:logs:123:us-west-2:log-group/g1:*", 0);
    let first = process_log_group(&before, &config, &mut client).expect("Should not fail");
    assert_eq!(UpdateResult::Updated, first);
    let calls_after_first = client.call_count();

    // The second reconciliation observes the retention the first one set.
    let after = group("g1", "arn:aws:logs:123:us-west-2:log-group/g1:*", 30);
    let second = process_log_group(&after, &config, &mut client).expect("Should not fail");
    assert_eq!(UpdateResult::AlreadyHasRetention, second);
    assert_eq!(calls_after_first, client.call_count());
}

#[test]
fn test_process_log_group_propagates_put_retention_failure() {
    let config = test_config();
    let mut client = FakeCloudWatchLogs::new(
        Vec::new(),
        Vec::new(),
        vec![("g1".to_string(), "InvalidOperationException".to_string())],
        Vec::new(),
    );

    let log_group = group("g1", "arn:aws:logs:123:us-west-2:log-group/g1:*", 0);
    let result: Error = process_log_group(&log_group, &config, &mut client).expect_err("Should fail");

    assert_eq!(Severity::Error, result.severity);
    assert_eq!("InvalidOperationException", result.message);
    assert_eq!(2, client.call_count());
}

fn page(groups: Vec<LogGroupState>, next_token: Option<&str>) -> Result<LogGroupPage, String> {
    Ok(LogGroupPage { log_groups: groups, next_token: next_token.map(str::to_string) })
}

#[test]
fn test_strip_wildcard_only_at_end() {
    let config = test_config();
    let mut client = client_with_tags(Vec::new());

    // A wildcard suffix is stripped; an inner `:*` would be left alone.
    let log_group = group("g", "arn:aws:logs:us-east-1:1:log-group:g:*", 0);
    process_log_group(&log_group, &config, &mut client).expect("Should not fail");
    assert_eq!(
        client.call_log[0],
        CallRecord::ListTagsForResource {
            resource_arn: "arn:aws:logs:us-east-1:1:log-group:g".to_string(),
        }
    );

    let mut client2 = client_with_tags(Vec::new());
    let unsuffixed = group("g", "arn:aws:logs:us-east-1:1:log-group:g", 0);
    process_log_group(&unsuffixed, &config, &mut client2).expect("Should not fail");
    assert_eq!(
        client2.call_log[0],
        CallRecord::ListTagsForResource {
            resource_arn: "arn:aws:logs:us-east-1:1:log-group:g".to_string(),
        }
    );
}

#[test]
fn test_process_all_log_group_success() {
    let config = test_config();
    let mut client = FakeCloudWatchLogs::new(
        vec![
            page(
                vec![
                    group(
                        "MyLogGroupWasCreated",
                        "arn:aws:logs:123:us-west-2:log-group/MyLogGroupWasCreated:*",
                        0,
                    ),
                    group(
                        "AnotherOneWithoutRetention",
                        "arn:aws:logs:123:us-west-2:log-group/AnotherOneWithoutRetention:*",
                        0,
                    ),
                ],
                Some("NextOnesPlease"),
            ),
            page(
                vec![group(
                    "SecondLogGroupAlreadyHasRetention",
                    "arn:aws:logs:123:us-west-2:log-group/SecondLogGroupAlreadyHasRetention:*",
                    90,
                )],
                None,
            ),
        ],
        Vec::new(),
        Vec::new(),
        Vec::new(),
    );
    let mut metrics = FakeMetrics::new();

    let summary = process_all_log_groups(&mut client, &config, &mut metrics)
        .expect("Should not fail");

    assert_eq!("Success", summary.message);
    assert_eq!(3, summary.total_groups);
    assert_eq!(2, summary.updated);
    assert_eq!(1, summary.already_has_retention);
    assert_eq!(0, summary.already_tagged_with_retention);

    // Pagination: the second listing call carried the returned token.
    assert_eq!(
        client.call_log[0],
        CallRecord::DescribeLogGroups { log_group_name_prefix: None, next_token: None }
    );
    assert!(client.call_log.contains(&CallRecord::DescribeLogGroups {
        log_group_name_prefix: None,
        next_token: Some("NextOnesPlease".to_string()),
    }));
    assert!(client.call_log.contains(&CallRecord::PutRetentionPolicy {
        log_group_name: "MyLogGroupWasCreated".to_string(),
        retention_in_days: 30,
    }));
    assert!(client.call_log.contains(&CallRecord::PutRetentionPolicy {
        log_group_name: "AnotherOneWithoutRetention".to_string(),
        retention_in_days: 30,
    }));
    assert!(client.call_log.contains(&CallRecord::TagResource {
        log_group_arn: "arn:aws:logs:123:us-west-2:log-group/MyLogGroupWasCreated".to_string(),
        tags: config.log_group_tags.clone(),
    }));
    assert!(client.call_log.contains(&CallRecord::TagResource {
        log_group_arn: "arn:aws:logs:123:us-west-2:log-group/AnotherOneWithoutRetention"
            .to_string(),
        tags: config.log_group_tags.clone(),
    }));

    // One metrics batch of the five counters, in order.
    assert_eq!(1, metrics.call_log.len());
    let (namespace, counters) = &metrics.call_log[0];
    assert_eq!("LogRotation", namespace);
    let rendered: Vec<(String, u64)> =
        counters.iter().map(|m| (m.name.title().to_string(), m.value)).collect();
    assert_eq!(
        rendered,
        vec![
            ("Total".to_string(), 3),
            ("Updated".to_string(), 2),
            ("AlreadyHasRetention".to_string(), 1),
            ("AlreadyTaggedWithRetention".to_string(), 0),
            ("Errored".to_string(), 0),
        ]
    );
}

#[test]
fn test_process_all_log_group_single_already_tagged_with_retention() {
    let config = test_config();
    let mut client = FakeCloudWatchLogs::new(
        vec![page(
            vec![group(
                "MyLogGroupWasCreated",
                "arn:aws:logs:123:us-west-2:log-group/NoRetentionAndGetTagsCallFails:*",
                0,
            )],
            None,
        )],
        vec![(
            "arn:aws:logs:123:us-west-2:log-group/NoRetentionAndGetTagsCallFails".to_string(),
            Ok(vec![("retention".to_string(), "DoNotTouch".to_string())]),
        )],
        Vec::new(),
        Vec::new(),
    );
    let mut metrics = FakeMetrics::new();

    let summary = process_all_log_groups(&mut client, &config, &mut metrics)
        .expect("Should not fail");

    assert_eq!(1, summary.total_groups);
    assert_eq!(0, summary.updated);
    assert_eq!(0, summary.already_has_retention);
    assert_eq!(1, summary.already_tagged_with_retention);
}

#[test]
fn test_process_all_log_group_partial_success() {
    let config = test_config();
    let mut client = FakeCloudWatchLogs::new(
        vec![
            page(
                vec![
                    group(
                        "MyLogGroupWasCreated",
                        "arn:aws:logs:123:us-west-2:log-group/MyLogGroupWasCreated:*",
                        0,
                    ),
                    group(
                        "AnotherOneWithoutRetention",
                        "arn:aws:logs:123:us-west-2:log-group/AnotherOneWithoutRetention:*",
                        0,
                    ),
                    group(
                        "NoRetentionAndGetTagsCallFails",
                        "arn:aws:logs:123:us-west-2:log-group/NoRetentionAndGetTagsCallFails:*",
                        0,
                    ),
                ],
                Some("MoreToCome"),
            ),
            page(
                vec![group(
                    "SecondLogGroupAlreadyHasRetention",
                    "arn:aws:logs:123:us-west-2:log-group/SecondLogGroupAlreadyHasRetention:*",
                    90,
                )],
                None,
            ),
        ],
        vec![(
            "arn:aws:logs:123:us-west-2:log-group/NoRetentionAndGetTagsCallFails".to_string(),
            Err("DataAlreadyAcceptedException".to_string()),
        )],
        Vec::new(),
        vec![(
            "arn:aws:logs:123:us-west-2:log-group/AnotherOneWithoutRetention".to_string(),
            "InvalidOperationException".to_string(),
        )],
    );
    let mut metrics = FakeMetrics::new();

    let error = process_all_log_groups(&mut client, &config, &mut metrics)
        .expect_err("Should fail");

    assert_eq!(Severity::Error, error.severity);
    assert!(error.message.starts_with("Failed to update some log group retentions: "));
    assert!(error.message.contains("DataAlreadyAcceptedException"));
    assert!(error.message.contains("InvalidOperationException"));

    // Every group was still processed: both pages were listed and the
    // second page's group was seen after the failures.
    assert!(client.call_log.contains(&CallRecord::DescribeLogGroups {
        log_group_name_prefix: None,
        next_token: Some("MoreToCome".to_string()),
    }));
    assert!(client.call_log.contains(&CallRecord::PutRetentionPolicy {
        log_group_name: "MyLogGroupWasCreated".to_string(),
        retention_in_days: 30,
    }));

    // One metrics batch with accurate counts: 4 total = 1 updated + 1 with
    // retention + 0 exempt + 2 errored.
    assert_eq!(1, metrics.call_log.len());
    let (_, counters) = &metrics.call_log[0];
    let values: Vec<u64> = counters.iter().map(|m| m.value).collect();
    assert_eq!(vec![4, 1, 1, 0, 2], values);
}

#[test]
fn test_process_all_log_groups_listing_failure_stops_sweep() {
    let config = test_config();
    let mut client = FakeCloudWatchLogs::new(
        vec![Err("ThrottlingException".to_string())],
        Vec::new(),
        Vec::new(),
        Vec::new(),
    );
    let mut metrics = FakeMetrics::new();

    let error = process_all_log_groups(&mut client, &config, &mut metrics)
        .expect_err("Should fail");

    assert_eq!(Severity::Error, error.severity);
    assert_eq!("ThrottlingException", error.message);
    assert_eq!(0, metrics.call_log.len());
}

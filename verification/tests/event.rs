use terraform_aws_default_log_retention::{
    CallRecord, CloudTrailEvent, Error, FakeCloudWatchLogs, FakeMetrics, LogGroupPage,
    LogGroupState, RetentionConfig, Severity, get_existing_retention, parse_event,
    parse_failure_error, process_error, process_event,
};

fn test_config() -> RetentionConfig {
    RetentionConfig {
        retention_days: 30,
        log_group_tags: vec![
            ("a".to_string(), "b".to_string()),
            ("c".to_string(), "d".to_string()),
        ],
        metric_namespace: "LogRotation".to_string(),
        aws_partition: "aws".to_string(),
    }
}

fn group(name: &str, retention: i32) -> LogGroupState {
    LogGroupState {
        log_group_name: name.to_string(),
        arn: format!("arn:aws:logs:us-east-1:123456789:log-group:{}:*", name),
        retention_in_days: retention,
    }
}

fn describe_response(name: &str, retention: i32) -> Result<LogGroupPage, String> {
    Ok(LogGroupPage { log_groups: vec![group(name, retention)], next_token: None })
}

#[test]
fn test_process_event_success_no_tags() {
    let mut config = test_config();
    config.log_group_tags = Vec::new();
    let event = CloudTrailEvent::new("123456789", "us-east-1", "MyLogGroupWasCreated");
    let log_group_arn = "arn:aws:logs:us-east-1:123456789:log-group:MyLogGroupWasCreated";

    let mut client = FakeCloudWatchLogs::new(
        vec![describe_response("MyLogGroupWasCreated", 0)],
        Vec::new(),
        Vec::new(),
        Vec::new(),
    );
    let mut metrics = FakeMetrics::new();

    let result = process_event(event, &config, &mut client, &mut metrics)
        .expect("Should not fail");

    assert_eq!("Retention set successfully", result);
    assert_eq!(
        client.call_log,
        vec![
            CallRecord::DescribeLogGroups {
                log_group_name_prefix: Some("MyLogGroupWasCreated".to_string()),
                next_token: None,
            },
            CallRecord::ListTagsForResource { resource_arn: log_group_arn.to_string() },
            CallRecord::PutRetentionPolicy {
                log_group_name: "MyLogGroupWasCreated".to_string(),
                retention_in_days: 30,
            },
        ]
    );
    assert_eq!(1, metrics.call_log.len());
    assert_eq!("Updated", metrics.call_log[0].1[0].name.title());
}

#[test]
fn test_process_event_applies_provenance_tags() {
    let config = test_config();
    let event = CloudTrailEvent::new("123456789", "us-east-1", "MyLogGroupWasCreated");
    let log_group_arn = "arn:aws:logs:us-east-1:123456789:log-group:MyLogGroupWasCreated";

    let mut client = FakeCloudWatchLogs::new(
        vec![describe_response("MyLogGroupWasCreated", 0)],
        Vec::new(),
        Vec::new(),
        Vec::new(),
    );
    let mut metrics = FakeMetrics::new();

    let result = process_event(event, &config, &mut client, &mut metrics)
        .expect("Should not fail");

    assert_eq!("Retention set successfully", result);
    assert_eq!(
        client.call_log[3],
        CallRecord::TagResource {
            log_group_arn: log_group_arn.to_string(),
            tags: config.log_group_tags.clone(),
        }
    );
}

#[test]
fn test_process_event_success_no_tags_different_aws_partition() {
    let mut config = test_config();
    config.log_group_tags = Vec::new();
    config.aws_partition = "aws-cn".to_string();
    let event = CloudTrailEvent::new("123456789", "us-east-1", "MyLogGroupWasCreated");
    let log_group_arn = "arn:aws-cn:logs:us-east-1:123456789:log-group:MyLogGroupWasCreated";

    let mut client = FakeCloudWatchLogs::new(
        vec![describe_response("MyLogGroupWasCreated", 0)],
        Vec::new(),
        Vec::new(),
        Vec::new(),
    );
    let mut metrics = FakeMetrics::new();

    process_event(event, &config, &mut client, &mut metrics).expect("Should not fail");

    assert_eq!(
        client.call_log[1],
        CallRecord::ListTagsForResource { resource_arn: log_group_arn.to_string() }
    );
}

#[test]
fn test_process_event_fails_when_put_retention_policy_fails() {
    let config = test_config();
    let event = CloudTrailEvent::new("123456789", "us-east-1", "MyLogGroupWasCreated");

    let mut client = FakeCloudWatchLogs::new(
        vec![describe_response("MyLogGroupWasCreated", 0)],
        Vec::new(),
        vec![(
            "MyLogGroupWasCreated".to_string(),
            "DataAlreadyAcceptedException".to_string(),
        )],
        Vec::new(),
    );
    let mut metrics = FakeMetrics::new();

    let error = process_event(event, &config, &mut client, &mut metrics)
        .expect_err("Should fail");

    assert_eq!(Severity::Error, error.severity);
    assert_eq!("DataAlreadyAcceptedException", error.message);
    assert_eq!(0, metrics.call_log.len());
}

#[test]
fn test_process_event_fails_when_tag_log_group_fails() {
    let config = test_config();
    let event = CloudTrailEvent::new("123456789", "us-east-1", "MyLogGroupWasCreated");

    let mut client = FakeCloudWatchLogs::new(
        vec![describe_response("MyLogGroupWasCreated", 0)],
        Vec::new(),
        Vec::new(),
        vec![(
            "arn:aws:logs:us-east-1:123456789:log-group:MyLogGroupWasCreated".to_string(),
            "DataAlreadyAcceptedException".to_string(),
        )],
    );
    let mut metrics = FakeMetrics::new();

    let error = process_event(event, &config, &mut client, &mut metrics)
        .expect_err("Should fail");

    assert_eq!(Severity::Error, error.severity);
    assert_eq!("DataAlreadyAcceptedException", error.message);
}

#[test]
fn test_process_event_retention_already_set() {
    let config = test_config();
    let event = CloudTrailEvent::new("123456789", "us-east-1", "MyLogGroupWasCreated");

    let mut client = FakeCloudWatchLogs::new(
        vec![describe_response("MyLogGroupWasCreated", 30)],
        Vec::new(),
        Vec::new(),
        Vec::new(),
    );
    let mut metrics = FakeMetrics::new();

    let result = process_event(event, &config, &mut client, &mut metrics)
        .expect("Should not fail");

    assert_eq!(
        "Not setting retention for MyLogGroupWasCreated because it is set to 30 days already.",
        result
    );
    assert_eq!(1, client.call_count());
    assert_eq!(1, metrics.call_log.len());
    assert_eq!("AlreadyHasRetention", metrics.call_log[0].1[0].name.title());
}

#[test]
fn test_process_event_do_not_overwrite_when_retention_tag_set() {
    let config = test_config();
    let event = CloudTrailEvent::new("123456789", "us-east-1", "MyLogGroupWasCreated");

    let mut client = FakeCloudWatchLogs::new(
        vec![describe_response("MyLogGroupWasCreated", 0)],
        vec![(
            "arn:aws:logs:us-east-1:123456789:log-group:MyLogGroupWasCreated".to_string(),
            Ok(vec![("retention".to_string(), "Do not override please".to_string())]),
        )],
        Vec::new(),
        Vec::new(),
    );
    let mut metrics = FakeMetrics::new();

    let result = process_event(event, &config, &mut client, &mut metrics)
        .expect("Should not fail");

    assert!(result.contains("MyLogGroupWasCreated"));
    assert!(result.contains("Do not override please"));
    assert_eq!(2, client.call_count());
    assert_eq!("AlreadyTaggedWithRetention", metrics.call_log[0].1[0].name.title());
}

#[test]
fn test_process_event_group_not_found_is_warning() {
    let config = test_config();
    let event = CloudTrailEvent::new("123456789", "us-east-1", "MyLogGroupWasCreated");

    let mut client = FakeCloudWatchLogs::new(
        vec![Ok(LogGroupPage { log_groups: Vec::new(), next_token: None })],
        Vec::new(),
        Vec::new(),
        Vec::new(),
    );
    let mut metrics = FakeMetrics::new();

    let error = process_event(event, &config, &mut client, &mut metrics)
        .expect_err("Should fail");

    assert_eq!(Severity::Warning, error.severity);
    assert!(error.message.contains("MyLogGroupWasCreated"));
    assert_eq!(0, metrics.call_log.len());
}

#[test]
fn test_parse_event_success() {
    let expected = CloudTrailEvent::new("123", "us-east-77", "SomeLogGroup");
    let input = "{\"detail\": {\"awsRegion\": \"us-east-77\", \"userIdentity\": {\"accountId\": \"123\"}, \"requestParameters\": {\"logGroupName\": \"SomeLogGroup\"}}}";

    assert_eq!(expected, parse_event(input, None).expect("Should succeed"));
}

#[test]
fn test_parse_event_fail() {
    let input = "{\"invalid\": \"input\"}";
    let context = "request id 1231231233123123123, arn:aws:whatever:my-awesome-stuff";

    let result = parse_event(input, Some(context))
        .expect_err("Should be an error deserializing the structure");

    assert_eq!(Severity::Warning, result.severity);
    assert!(result.message.contains("{\"invalid\": \"input\"}"));
    assert!(result.message.contains(context));
}

#[test]
fn test_parse_failure_error_carries_all_three_parts() {
    let error = parse_failure_error(
        "{\"invalid\": \"input\"}",
        Some("request id 123"),
        "missing field detail",
    );
    assert_eq!(Severity::Warning, error.severity);
    assert!(error.message.contains("{\"invalid\": \"input\"}"));
    assert!(error.message.contains("request id 123"));
    assert!(error.message.contains("missing field detail"));
}

#[test]
fn test_process_error_severity_error() {
    process_error(Error {
        severity: Severity::Error,
        message: "".to_string(),
    })
    .expect_err("Should be an error");
}

#[test]
fn test_process_error_severity_warning() {
    process_error(Error {
        severity: Severity::Warning,
        message: "".to_string(),
    })
    .expect("Should be successful");
}

#[test]
fn test_process_event_bad_input() {
    // A malformed payload parses to a Warning, which the harness boundary
    // converts into a successful response carrying the warning's message.
    let input = "{\"invalid\": \"input\"}";
    let error = parse_event(input, None).expect_err("Should not parse");
    let response = process_error(error).expect("Should be OK with error message (warning).");
    assert!(response.contains("{\"invalid\": \"input\"}"));
}

#[test]
fn test_get_existing_retention() {
    let g = "MyLogGroup";

    let mut client = FakeCloudWatchLogs::new(
        vec![describe_response(g, 0)],
        Vec::new(),
        Vec::new(),
        Vec::new(),
    );
    assert_eq!(0, get_existing_retention(&g.to_string(), &mut client).unwrap());
    assert_eq!(
        client.call_log[0],
        CallRecord::DescribeLogGroups {
            log_group_name_prefix: Some(g.to_string()),
            next_token: None,
        }
    );

    let mut client = FakeCloudWatchLogs::new(
        vec![describe_response(g, 30)],
        Vec::new(),
        Vec::new(),
        Vec::new(),
    );
    assert_eq!(30, get_existing_retention(&g.to_string(), &mut client).unwrap());
}

#[test]
fn test_no_log_groups_found_results_in_warning() {
    let g = "MyLogGroup";

    let mut client = FakeCloudWatchLogs::new(
        vec![Ok(LogGroupPage { log_groups: Vec::new(), next_token: None })],
        Vec::new(),
        Vec::new(),
        Vec::new(),
    );

    let err = get_existing_retention(&g.to_string(), &mut client).unwrap_err();

    assert_eq!(Severity::Warning, err.severity);
    assert!(err.message.contains(g));
}

#[test]
fn test_wrong_log_groups_found_results_in_warning() {
    let g = "MyLogGroup";

    let mut client = FakeCloudWatchLogs::new(
        vec![describe_response("SomeRandomOtherLogGroupThatIDidNotAskFor", 0)],
        Vec::new(),
        Vec::new(),
        Vec::new(),
    );

    let err = get_existing_retention(&g.to_string(), &mut client).unwrap_err();

    assert_eq!(Severity::Warning, err.severity);
    assert!(err.message.contains(g));
}

#[test]
fn test_get_existing_retention_listing_failure_is_error() {
    let mut client = FakeCloudWatchLogs::new(
        vec![Err("ThrottlingException".to_string())],
        Vec::new(),
        Vec::new(),
        Vec::new(),
    );

    let err = get_existing_retention(&"MyLogGroup".to_string(), &mut client).unwrap_err();

    assert_eq!(Severity::Error, err.severity);
    assert_eq!("ThrottlingException", err.message);
}

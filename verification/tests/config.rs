use terraform_aws_default_log_retention::{
    RetentionConfig, i32_to_string, parse_i32, parse_log_group_tags, parse_retention_days,
};

#[test]
fn test_retention() {
    assert_eq!(1, parse_retention_days(Some("1")));
}

#[test]
fn test_retention_invalid() {
    assert_eq!(30, parse_retention_days(Some("asdasdasd")));
}

#[test]
fn test_retention_not_set() {
    assert_eq!(30, parse_retention_days(None));
}

#[test]
fn test_retention_zero_and_negative_fall_back() {
    assert_eq!(30, parse_retention_days(Some("0")));
    assert_eq!(30, parse_retention_days(Some("-7")));
}

#[test]
fn test_retention_huge_value_falls_back() {
    assert_eq!(30, parse_retention_days(Some("99999999999999999999")));
}

#[test]
fn test_parse_i32_exact_values() {
    assert_eq!(Some(30), parse_i32("30"));
    assert_eq!(Some(30), parse_i32("+30"));
    assert_eq!(Some(-30), parse_i32("-30"));
    assert_eq!(Some(0), parse_i32("0"));
    assert_eq!(Some(30), parse_i32("0030"));
    assert_eq!(Some(2147483647), parse_i32("2147483647"));
    assert_eq!(Some(-2147483648), parse_i32("-2147483648"));
    assert_eq!(None, parse_i32("2147483648"));
    assert_eq!(None, parse_i32("-2147483649"));
    assert_eq!(None, parse_i32(""));
    assert_eq!(None, parse_i32("-"));
    assert_eq!(None, parse_i32("1 2"));
    assert_eq!(None, parse_i32("12a"));
}

#[test]
fn test_log_group_tags_none() {
    assert_eq!(parse_log_group_tags(None), Vec::new());
}

#[test]
fn test_log_group_tags_valid() {
    let tags_json = "{\"a\": \"b\", \"c\": \"d\"}";

    let mut tags = parse_log_group_tags(Some(tags_json));
    tags.sort();

    let expected = vec![
        ("a".to_string(), "b".to_string()),
        ("c".to_string(), "d".to_string()),
    ];
    assert_eq!(tags, expected);
}

#[test]
fn test_log_group_tags_invalid_none() {
    assert_eq!(parse_log_group_tags(Some("true")), Vec::new());
}

#[test]
fn test_log_group_tags_empty() {
    assert_eq!(parse_log_group_tags(Some("{}")), Vec::new());
}

#[test]
fn test_log_group_tags_non_string_values_rejected() {
    assert_eq!(parse_log_group_tags(Some("{\"a\": 1}")), Vec::new());
}

#[test]
fn test_i32_to_string_exact_values() {
    assert_eq!("0", i32_to_string(0));
    assert_eq!("30", i32_to_string(30));
    assert_eq!("1237", i32_to_string(1237));
    assert_eq!("-45", i32_to_string(-45));
    assert_eq!("2147483647", i32_to_string(2147483647));
    assert_eq!("-2147483648", i32_to_string(-2147483648));
}

#[test]
fn test_config_defaults() {
    let config = RetentionConfig::from_raw(None, None, None, None);
    assert_eq!(30, config.retention_days);
    assert_eq!(Vec::<(String, String)>::new(), config.log_group_tags);
    assert_eq!("LogRotation", config.metric_namespace);
    assert_eq!("aws", config.aws_partition);
}

#[test]
fn test_config_from_raw_values() {
    let config = RetentionConfig::from_raw(
        Some("90"),
        Some("{\"team\": \"infra\"}"),
        Some("MyNamespace"),
        Some("aws-us-gov"),
    );
    assert_eq!(90, config.retention_days);
    assert_eq!(vec![("team".to_string(), "infra".to_string())], config.log_group_tags);
    assert_eq!("MyNamespace", config.metric_namespace);
    assert_eq!("aws-us-gov", config.aws_partition);
}

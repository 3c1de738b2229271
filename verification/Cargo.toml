[package]
name = "terraform_aws_default_log_retention"
version = "0.1.0"
edition = "2021"
publish = false

[dependencies]
serde_json = "*"
aws-config = "*"
aws-sdk-cloudwatch = "*"
aws-sdk-cloudwatchlogs = "*"
aws-smithy-types = "*"
lambda_runtime = "*"
tokio = { version = "*", features = ["full"] }
metrics = "*"
metrics_cloudwatch_embedded = "*"
log = "*"
env_logger = "*"
tracing = "*"

[package]
name = "drink_images"
version = "0.1.0"
edition = "2021"
publish = false

[dependencies]
aws_lambda_events = "*"
lambda_runtime = "*"
log = "*"
serde_json = "*"
simple_logger = "*"
rusoto_core = { version = "0.48", default-features = false, features = ["rustls"] }
rusoto_dynamodb = { version = "0.48", default-features = false, features = ["rustls"] }
rusoto_xray = { version = "0.48", default-features = false, features = ["rustls"] }
tokio = { version = "1", features = ["macros", "rt"] }

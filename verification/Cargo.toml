[package]
name = "ssmpuller"
version = "0.1.0"
edition = "2021"
publish = false

[dependencies]
aws-config = "*"
aws-sdk-ssm = "*"
aws-types = "*"
structopt = "*"
tokio = { version = "*", features = ["macros", "rt-multi-thread"] }

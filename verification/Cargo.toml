[package]
name = "sfn_paw"
version = "0.1.0"
edition = "2021"
publish = false

[dependencies]
aws-config = "*"
aws-sdk-sfn = "*"
aws-smithy-types = "*"
tokio = { version = "*", features = ["macros", "rt-multi-thread"] }
console = "*"
dialoguer = "*"
indicatif = "*"
async-trait = "*"

[dev-dependencies]
chrono = "*"

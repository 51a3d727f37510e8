[package]
name = "crystal_snapshots"
version = "0.1.0"
edition = "2021"
publish = false

[dependencies]
async-graphql = { version = "7", default-features = false, features = ["dataloader"] }
aws-sdk-s3 = { version = "1", default-features = false }
sea-orm = { version = "1", default-features = false, features = ["macros"] }
tokio = { version = "1", features = ["rt"] }
tracing = "0.1"

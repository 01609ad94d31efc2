[package]
name = "s3_adapter"
version = "0.1.0"
edition = "2021"
publish = false

[dependencies]
aws-config = "*"
aws-sdk-s3 = "*"

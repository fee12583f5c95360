[package]
name = "data_lander"
version = "0.1.0"
edition = "2021"
publish = false

[dependencies]
regex = "=1.13.1"
zip = { version = "=9.1.0", default-features = false, features = ["deflate"] }
polars = { version = "=0.55.2", default-features = false, features = ["csv", "parquet"] }
tempfile = "=3.27.0"
log = "=0.4.34"
env_logger = { version = "=0.11.11", default-features = false }
dotenvy = "=0.15.7"
tracing = "=0.1.44"
tokio = { version = "=1.54.1", features = ["rt-multi-thread", "macros", "fs", "io-util", "time"] }
reqwest = { version = "=0.12.28", default-features = false, features = ["rustls-tls"] }
aws-config = { version = "=1.13.0", default-features = false, features = ["rt-tokio", "default-https-client"] }
aws-sdk-s3 = { version = "=1.155.0", default-features = false, features = ["rt-tokio", "default-https-client"] }

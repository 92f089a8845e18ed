[package]
name = "hartex"
version = "0.1.0"
edition = "2021"
publish = false

[dependencies]
owo-colors = "=4.4.0"
rdkafka = { version = "=0.39.0", default-features = false }
rand = "=0.9.5"
twilight-model = "=0.18.0"
twilight-util = { version = "=0.18.0", features = ["builder", "snowflake"] }
twilight-validate = "=0.18.0"
twilight-mention = "=0.18.0"
fluent-syntax = "=0.12.0"
fluent-bundle = "=0.16.0"
unic-langid = "=0.9.6"
serde = { version = "=1.0.229", features = ["derive"] }
toml = "=1.2.1"
quote = "=1.0.47"
proc-macro2 = "=1.0.107"

[package]
name = "datafusion_query_cache"
version = "0.1.0"
edition = "2021"
publish = false

[dependencies]
async-trait = "0.1"
chrono = "0.4"
datafusion = { version = "50", default-features = false }
futures = "0.3"
regex = "1"

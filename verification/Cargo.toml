[package]
name = "call_trace"
version = "0.1.0"
edition = "2021"
publish = false

[dependencies]
alloy-primitives = "0.7"
alloy-eips = "0.1"
alloy-rpc-types = "0.1"
alloy-rpc-types-trace = "0.1"
alloy-rpc-client = { version = "0.1", default-features = false, features = ["reqwest"] }
alloy-transport = "0.1"
alloy-transport-http = { version = "0.1", default-features = false, features = ["reqwest"] }
futures = "0.3"
reqwest = { version = "0.12", default-features = false }
tokio = { version = "1", features = ["sync", "rt", "macros"] }
tracing = "0.1"

[package]
name = "jt_init_logging"
version = "0.1.0"
edition = "2021"
publish = false

[dependencies]
tracing = "0.1"
tracing-subscriber = { version = "0.3", features = ["env-filter"] }
tracing-glog = "*"
console-subscriber = "*"
clap = { version = "4", features = ["derive"] }

[package]
name = "resp_benchmark"
version = "0.1.0"
edition = "2021"
publish = false

[dependencies]
rand = "=0.8.8"
zipf = "=7.0.2"
tokio = { version = "=1.54.1", features = ["rt", "macros", "sync", "time"] }
redis = { version = "=0.25.5", features = ["tokio-comp", "cluster-async"] }
awaitgroup = "=0.7.0"
core_affinity = "=0.8.3"
colored = "=2.2.0"
clap = { version = "=4.6.7", features = ["derive"] }
serde = { version = "=1.0.229", features = ["derive"] }
serde_json = "=1.0.154"
toml = "=0.8.23"
chrono = "=0.4.45"
num_cpus = "=1.17.0"
number_range = "=0.3.2"
rust_xlsxwriter = { version = "=0.101.0", features = ["serde"] }

[dev-dependencies]
nom = "7"

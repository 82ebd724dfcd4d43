[package]
name = "typedb_console"
version = "0.1.0"
edition = "2021"
publish = false

[dependencies]
clap = { version = "4", features = ["derive"] }
futures = "0.3"
glob = "0.3"
home = "*"
itertools = "*"
rpassword = "7"
rustyline = "*"
sentry = { version = "*", default-features = false }
serde_json = "1"
tempdir = "0.3"
tokio = { version = "1", features = ["rt-multi-thread", "sync"] }
typedb-driver = "*"
typeql = "*"

[package]
name = "overseer"
version = "0.1.0"
edition = "2021"
rust-version = "1.95"

[dependencies]
chrono = { version = "=0.4.45", features = ["serde"] }
clap = { version = "=4.5.61", features = ["derive"] }
clap_complete = "=4.5.67"
gix = "=0.77.0"
jj-lib = "=0.37.0"
kstring = "=2.0.2"
owo-colors = "=4.2.3"
rusqlite = { version = "=0.37.0", features = ["bundled"] }
serde = { version = "=1.0.229", features = ["derive"] }
serde_json = "=1.0.154"
thiserror = "=2.0.21"
ulid = "=1.2.1"

[package]
name = "prolog_service"
version = "0.1.0"
edition = "2021"
publish = false

[dependencies]
scryer-prolog = { version = "0.10", default-features = false }
serde = { version = "1", features = ["derive"] }
serde_json = "1"
tokio = { version = "1", features = ["rt-multi-thread", "macros", "sync", "signal"] }
warp = { version = "0.3", default-features = false }
dotenvy = "0.15"
flexi_logger = { version = "0.29", features = ["async"] }
log = "0.4"
once_cell = "1"

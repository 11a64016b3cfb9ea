[package]
name = "mze"
version = "0.1.0"
edition = "2021"
publish = false

[dependencies]
rusqlite = { version = "0.31", features = ["bundled"] }
rand = "0.8"
rand_core = "0.6"
rand_pcg = "0.3"
actix-web = { version = "4", default-features = false, features = ["macros"] }
clap = { version = "4", features = ["derive"] }
color-backtrace = "0.6"
env_logger = "0.11"
futures-util = "0.3"
log = "0.4"
mime = "0.3"
serde = { version = "1", features = ["derive"] }
tera = { version = "1", default-features = false }
thiserror = "1"
tokio = { version = "1", features = ["rt", "macros"] }

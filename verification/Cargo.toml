[package]
name = "librarygrid"
version = "0.1.0"
edition = "2021"
publish = false

[dependencies]
actix-files = "0.6"
actix-web = { version = "4", default-features = false, features = ["macros"] }
env_logger = "*"
flate2 = "1"
home = "0.5"
log = "0.4"
serde = { version = "1", features = ["derive"] }
tar = { version = "0.4", default-features = false }
text_io = "*"
tokio = { version = "1", features = ["rt-multi-thread", "macros"] }
tokio-postgres = "0.7"
toml = "*"

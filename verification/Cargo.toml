[package]
name = "board"
version = "0.1.0"
edition = "2021"
publish = false

[dependencies]
anyhow = "1"
dotenvy = "0.15"
poem = "*"
poem-openapi = { version = "*", features = ["swagger-ui"] }
sea-orm = { version = "*", default-features = false, features = ["macros", "runtime-tokio-rustls", "with-chrono"] }
tokio = { version = "1", features = ["macros", "rt-multi-thread"] }
tracing-subscriber = { version = "*", features = ["env-filter"] }

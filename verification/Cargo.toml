[package]
name = "cmsis_update"
version = "0.1.0"
edition = "2021"
publish = false

[dependencies]
hyper = { version = "0.14", features = ["client", "http1", "tcp"] }
http = "0.2"
tokio = { version = "1", features = ["rt"] }
hyper-rustls = "0.24"
futures = "0.3"
diesel = { version = "2", features = ["sqlite"] }
libsqlite3-sys = { version = "*", features = ["bundled"] }
minidom = "*"
slog = "*"
slog-term = "*"
slog-async = "*"

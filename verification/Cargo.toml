[package]
name = "papyr"
version = "0.1.1"
edition = "2021"
publish = false

[dependencies]
chrono = "=0.4.45"
clap = { version = "=4.6.7", default-features = false, features = ["std", "derive", "help", "usage", "error-context"] }
typst = "=0.15.1"
typst-html = "=0.15.1"
typst-kit = { version = "=0.15.1", features = ["embedded-fonts", "system-packages", "emit-diagnostics"] }
ecow = "=0.2.6"
comemo = "=0.5.1"
serde = { version = "=1.0.229", features = ["derive"] }
serde_json = "=1.0.154"
serde_yaml_ng = "=0.10.0"
axum = { version = "=0.8.9", default-features = false, features = ["http1", "tokio", "tracing"] }
tokio = { version = "=1.54.1", features = ["rt-multi-thread", "net", "sync"] }
tokio-stream = { version = "=0.1.19", features = ["sync"] }
tower-http = { version = "=0.7.1", features = ["fs", "trace"] }
notify = "=8.2.1"
tracing = "=0.1.44"
tracing-subscriber = { version = "=0.3.23", default-features = false, features = ["std", "fmt", "env-filter"] }
ureq = "=3.5.1"

[dev-dependencies]
regex = "=1.13.1"

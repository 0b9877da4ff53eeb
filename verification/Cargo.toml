[package]
name = "fusion_design"
version = "0.1.0"
edition = "2021"
publish = false

[dependencies]
anyhow = "1"
base64 = "0.22"
clap = { version = "4", features = ["derive"] }
dirs = "5"
futures = "0.3"
image = { version = "0.25", default-features = false, features = ["png", "jpeg"] }
printpdf = { version = "*", default-features = false }
reqwest = { version = "0.12", default-features = false, features = ["blocking", "json", "stream"] }
resvg = { version = "*", default-features = false, features = ["text", "system-fonts"] }
serde = { version = "1", features = ["derive"] }
serde_json = "1"
thiserror = "2"
tokio = { version = "1", features = ["rt-multi-thread", "macros", "time"] }
tracing = "0.1"
tracing-appender = "0.2"
tracing-subscriber = { version = "0.3", features = ["env-filter"] }

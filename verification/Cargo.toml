[package]
name = "cosmic-ext-applet-per-app-layout"
version = "0.1.0"
edition = "2021"
publish = false

[dependencies]
anyhow = "1"
cosmic-client-toolkit = "0.2.0"
futures = "0.3"
i18n-embed = { version = "*", features = ["fluent-system", "desktop-requester"] }
i18n-embed-fl = "*"
rust-embed = "*"
serde = { version = "1", features = ["derive"] }
tokio = { version = "1", features = ["sync"] }
tracing = "0.1"
tracing-subscriber = "0.3"

[package]
name = "mcpls_core"
version = "0.3.9"
edition = "2021"
publish = false

[dependencies]
fs4 = "=0.12.0"
futures = "=0.3.34"
lsp-types = "=0.97.0"
rmcp = { version = "=3.8.0", default-features = false, features = ["server"] }
serde = { version = "=1.0.229", features = ["derive"] }
serde_json = "=1.0.154"
thiserror = "=2.0.21"
tokio = { version = "=1.54.1", features = ["rt-multi-thread", "macros", "sync", "time", "io-util", "net", "fs", "process"] }
tracing = "=0.1.44"
url = "=2.5.8"
windows-sys = { version = "=0.61.2", features = ["Win32_Foundation", "Win32_System_Console"] }

[dev-dependencies]
tempfile = "=3.27.0"

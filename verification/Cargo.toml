[package]
name = "nextbase"
version = "0.1.0"
edition = "2021"
publish = false

[dependencies]
anstream = { version = "=0.6.21", default-features = false, features = ["auto"] }
anyhow = "=1.0.104"
arboard = { version = "=3.7.0", default-features = false }
axum = { version = "=0.8.9", default-features = false, features = ["http1", "query", "tokio"] }
chrono = { version = "=0.4.45", default-features = false, features = ["now", "std"] }
clap = { version = "=4.6.7", default-features = false, features = ["std", "derive", "help", "usage", "error-context"] }
hound = "=3.5.1"
indicatif = { version = "=0.17.11", default-features = false }
inquire = { version = "=0.7.5", default-features = false, features = ["crossterm"] }
libc = "=0.2.191"
owo-colors = "=4.4.0"
ratatui = { version = "=0.29.0", default-features = false, features = ["crossterm"] }
reqwest = { version = "=0.12.28", default-features = false, features = ["json", "multipart", "stream", "rustls-tls"] }
rubato = "=3.0.0"
serde = { version = "=1.0.229", features = ["derive"] }
serde_json = { version = "=1.0.154", features = ["arbitrary_precision", "preserve_order"] }
sysinfo = { version = "=0.33.1", default-features = false, features = ["system"] }
tokio = { version = "=1.54.1", features = ["full"] }
uuid = { version = "=1.29.0", features = ["v4"] }

[package]
name = "baelyks-notification-server"
version = "0.1.0"
edition = "2021"
publish = false

[dependencies]
chrono = "=0.4.45"
clap = { version = "=4.6.7", default-features = false, features = ["derive", "std"] }
derive_more = { version = "=2.1.1", features = ["debug"] }
dirs = "=7.0.0"
fern = "=0.7.1"
freedesktop-desktop-entry = "=0.8.4"
freedesktop-icons = "=0.4.0"
futures = "=0.3.34"
image = { version = "=0.25.10", default-features = false, features = ["png"] }
log = "=0.4.34"
rand = "=0.8.8"
serde = { version = "=1.0.229", features = ["derive"] }
tokio = { version = "=1.54.1", features = ["rt", "time"] }
zbus = { version = "=5.19.0", default-features = false, features = ["tokio"] }
zvariant = { version = "=5.15.1", default-features = false }

[dev-dependencies]
nom = "=8.0.0"

[package]
name = "remote_fs"
version = "0.1.0"
edition = "2021"
publish = false

[dependencies]
bcrypt = "=0.19.3"
chrono = "=0.4.45"
jsonwebtoken = { version = "=11.1.0", features = ["rust_crypto"] }
axum = "*"
tokio = { version = "*", features = ["full"] }
reqwest = { version = "*", default-features = false, features = ["json"] }
serde = { version = "*", features = ["derive"] }
serde_json = "=1.0.151"
rusqlite = { version = "*", features = ["bundled"] }
fuser = "*"
daemonize = "*"
rpassword = "*"
signal-hook = "*"
users = "*"
libc = "*"
walkdir = "*"

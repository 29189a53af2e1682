[package]
name = "rustybar"
version = "0.1.0"
edition = "2021"
publish = false

[dependencies]
uuid = { version = "=0.8.2", features = ["v4"] }
dbus = { version = "=0.9.12", features = ["vendored"] }
dbus-tokio = "=0.6.0"
tokio = { version = "=0.3.7", features = ["full"] }
futures = "=0.3.34"
serde = { version = "=1.0.229", features = ["derive"] }
serde_json = "=1.0.154"
toml = "=0.5.11"
structopt = "=0.3.26"
chrono = "=0.4.45"
async-trait = "=0.1.92"
smart-default = "=0.6.0"

[package]
name = "septic_config_generator"
version = "0.1.0"
edition = "2021"
publish = false

[dependencies]
calamine = "=0.36.1"
chrono = "=0.4.45"
clap = { version = "=4.6.7", features = ["derive"] }
csv = "=1.4.0"
diffy = { version = "=0.5.2", features = ["std", "color"] }
encoding_rs = "=0.8.42"
glob = "=0.3.4"
minijinja = { version = "=2.24.0", features = ["loader"] }
serde = { version = "=1.0.229", features = ["derive"] }
serde_yaml = "=0.9.34"

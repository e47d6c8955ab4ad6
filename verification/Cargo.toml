[package]
name = "calenpomo"
version = "0.1.0"
edition = "2021"
publish = false

[dependencies]
chrono = { version = "0.4", features = ["serde"] }
chrono-tz = "*"
icalendar = { version = "*", features = ["recurrence"] }
serde = { version = "1", features = ["derive"] }
serde_json = "1"
toml = "*"
interprocess = "2"
clap = { version = "4", features = ["derive"] }
dirs = "*"
thiserror = "*"
ctrlc = "*"
libc = "0.2"

[dev-dependencies]
tempfile = "3"

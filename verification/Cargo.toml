[package]
name = "filequeue"
version = "0.1.0"
edition = "2021"
publish = false

[dependencies]
byteorder = "1"
clap = "2"
inotify = "*"
libc = "0.2"
rdkafka = "*"
serde = { version = "1", features = ["derive"] }
serde_yaml = "0.8"
signalbool = "*"
slog-envlogger = "*"

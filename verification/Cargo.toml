[package]
name = "pinga"
version = "0.1.0"
edition = "2021"
publish = false

[dependencies]
chrono = { version = "0.4", default-features = false, features = ["now"] }
dns-lookup = "2"
egui = { version = "0.26", default-features = false }
egui_extras = { version = "0.26", default-features = false }
egui_plot = { version = "0.26", default-features = false }
itertools = "0.12"
serde = { version = "1", features = ["derive"] }
surge-ping = "0.8"
tokio = { version = "1", default-features = false, features = ["rt", "net", "time"] }

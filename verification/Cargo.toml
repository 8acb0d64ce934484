[package]
name = "push_planner"
version = "0.1.0"
edition = "2021"
publish = false

[dependencies]
chrono = { version = "0.4", default-features = false, features = ["std"] }
jiff = { version = "0.2", default-features = false, features = ["std"] }
once_cell = "1"
thiserror = "2"
timeago = { version = "0.4", default-features = false }

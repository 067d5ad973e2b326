[package]
name = "gcode_tsp"
version = "0.1.0"
edition = "2021"
publish = false

[dependencies]
chrono = "*"
fern = "*"
log = "*"
num-format = "*"
serde = { version = "*", features = ["derive"] }
serde_json = "*"

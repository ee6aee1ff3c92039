[package]
name = "rene"
version = "0.1.0"
edition = "2021"
publish = false

[dependencies]
three-d = { version = "=0.18.2", features = ["window", "egui-gui"] }
three-d-asset = { version = "=0.9.2", features = ["obj"] }
rfd = { version = "=0.17.2", default-features = false, features = ["xdg-portal"] }

[package]
name = "ubuntu-miracast-server"
version = "0.1.0"
edition = "2021"
publish = false

[dependencies]
chrono = "0.4"
clap = { version = "4", features = ["derive"] }
dirs = "5"
gst-plugin-gtk4 = "0.13"
gstreamer = "0.23"
gtk4 = "0.9"
libadwaita = "0.7"
log = { version = "0.4", features = ["std"] }
neli = "0.7"
rand = "0.8"
regex = "1"
serde_json = "1"
zbus = "4"

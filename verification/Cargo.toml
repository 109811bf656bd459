[package]
name = "formatpen"
version = "0.1.0"
edition = "2021"
publish = false

[dependencies]
anyhow = "=1.0.104"
zbus = "=5.19.0"
gtk4 = "=0.11.5"
libadwaita = { version = "=0.9.2", features = ["v1_4"] }
glib = "=0.22.10"
gio = "=0.22.10"
appimageupdate = "=0.4.1"

[package]
name = "keywatch"
version = "0.1.0"
edition = "2021"
publish = false

[dependencies]
evdev = "0.12"
notify = "4"
gtk = "0.15"
gdk = "0.15"
log = "0.4"
env_logger = "0.9"

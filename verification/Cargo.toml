[package]
name = "rumpel"
version = "0.3.0"
edition = "2021"
publish = false

[dependencies]
gstreamer = "*"
gtk4 = "*"
gst-plugin-gtk4 = "*"

[package]
name = "lcf_explorer"
version = "0.1.0"
edition = "2021"
publish = false

[dependencies]
encoding_rs = "*"
lcf = "*"
eframe = { version = "*", default-features = false, features = ["glow", "x11", "default_fonts"] }
egui = "*"
egui_ltreeview = "*"
rfd = { version = "*", default-features = false, features = ["gtk3"] }

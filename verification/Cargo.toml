[package]
name = "bin_ast"
version = "0.1.0"
edition = "2021"
publish = false

[dependencies]
cpp_demangle = "0.4"
eframe = { version = "0.32", default-features = false, features = ["accesskit", "default_fonts", "glow", "x11"] }
egui = "0.32"
egui_dock = "0.17"
goblin = "0.10"
rfd = "0.15"

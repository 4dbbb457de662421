[package]
name = "srg"
version = "0.1.0"
edition = "2021"

[dependencies]
macroquad = "0.3"
egui = "0.12"
egui-macroquad = "0.4"
quad-rand = "0.2"

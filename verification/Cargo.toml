[package]
name = "cas_graph"
version = "0.1.0"
edition = "2021"
publish = false

[dependencies]
egui = "0.31"
egui-snarl = "0.7"
egui-wgpu = { version = "0.31", features = ["winit"] }
egui-winit = "0.31"
egui_extras = { version = "0.31", features = ["all_loaders"] }
winit = "0.30"
pollster = "0.4"

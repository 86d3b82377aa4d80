[package]
name = "graph_calc"
version = "0.1.0"
edition = "2021"
publish = false

[dependencies]
anyhow = "1"
directories = "=5.0.1"
egui = "=0.29.1"
egui_plot = "=0.29.0"
meval = "=0.2.0"
serde = { version = "1", features = ["derive"] }
toml = "=0.8.23"

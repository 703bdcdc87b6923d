[package]
name = "fraggen"
version = "0.1.0"
edition = "2021"
publish = false

[dependencies]
apollo-compiler = "0.8"
clap = { version = "4", features = ["derive"] }
color-eyre = "0.6"
eyre = "0.6"
thiserror = "1"

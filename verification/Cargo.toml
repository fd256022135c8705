[package]
name = "kangc"
version = "0.1.0"
edition = "2021"
publish = false

[dependencies]
logos = "=0.15.1"
ariadne = "=0.4.1"
serde = { version = "=1.0.229", features = ["derive"] }
serde_json = "=1.0.154"
inkwell = { version = "=0.5.0", features = ["llvm14-0-prefer-dynamic"] }

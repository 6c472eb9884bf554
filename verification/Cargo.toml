[package]
name = "nippo"
version = "0.1.0"
edition = "2021"
publish = false

[dependencies]
diff = "*"
envy = "*"
serde = { version = "*", features = ["derive"] }

[package]
name = "sdmorph"
version = "0.1.0"
edition = "2021"
publish = false

[dependencies]
rand = "*"
anyhow = "*"
base64 = "*"
dotenvy = "*"
futures = "*"
image = { version = "*", default-features = false, features = ["png"] }
once_cell = "*"
reqwest = { version = "*", default-features = false, features = ["json"] }
serde = { version = "*", features = ["derive"] }
serde_json = "*"
tokio = { version = "*", features = ["macros", "rt-multi-thread"] }

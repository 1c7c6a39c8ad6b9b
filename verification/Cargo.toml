[package]
name = "siriusu"
version = "0.1.0"
edition = "2021"
publish = false

[dependencies]
anyhow = "1"
config = "*"
dotenvy = "*"
roga = "*"
salvo = "*"
serde = { version = "1", features = ["derive"] }
tokio = { version = "1", features = ["macros", "rt-multi-thread"] }

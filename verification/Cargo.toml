[package]
name = "shogi_kifu_converter"
version = "0.1.0"
edition = "2021"
publish = false

[dependencies]
shogi_core = "*"
shogi_legality_lite = "*"
shogi_official_kifu = "*"
csa = "*"
encoding_rs = "*"
nom = "7"
serde = { version = "1", features = ["derive"] }
serde_json = "1"
serde_repr = "*"
thiserror = "*"

[package]
name = "ncsu_exam_lib"
version = "0.1.0"
edition = "2021"
publish = false

[dependencies]
reqwest = { version = "*", default-features = false }
select = "*"
tokio = { version = "*", features = ["rt", "macros"] }
serde = { version = "*", features = ["derive"] }
serde_json = "*"

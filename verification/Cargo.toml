[package]
name = "bitstore"
version = "0.1.0"
edition = "2021"
publish = false

[dependencies]
bitvec = "1"
num_cpus = "1"
actix-web = { version = "4", default-features = false, features = ["macros"] }
serde = { version = "1", features = ["derive"] }

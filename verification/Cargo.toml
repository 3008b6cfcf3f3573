[package]
name = "hash256_miner"
version = "0.1.0"
edition = "2021"
publish = false

[dependencies]
chrono = { version = "=0.4.45", default-features = false, features = ["clock"] }
dotenv = "=0.15.0"
hex = "=0.4.3"
ocl = "=0.19.7"
tokio = { version = "=1.54.1", features = ["macros", "rt-multi-thread", "time"] }

[dev-dependencies]
tiny-keccak = { version = "=2.0.2", features = ["keccak"] }

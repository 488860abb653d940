[package]
name = "ember_sgm_backend"
version = "0.1.0"
edition = "2021"
publish = false

[dependencies]
hashbrown = "*"
indexmap = "2"
itertools = "*"
futures = "*"
tokio = { version = "1", features = ["full"] }
serde = { version = "1", features = ["derive"] }
serde_json = "1"
neo4rs = "*"
dotenv = "*"
num_cpus = "*"
project-root = "*"
polars = { version = "*", default-features = false }

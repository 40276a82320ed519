[package]
name = "constraint_counter"
version = "0.1.0"
edition = "2021"
publish = false

[dependencies]
acvm = "=0.46.0"
ark-bn254 = "=0.4.0"
ark-ff = "=0.4.2"
ark-r1cs-std = "=0.4.0"
ark-relations = "=0.4.0"
ark-std = "=0.4.0"
clap = { version = "=4.6.7", features = ["derive"] }
serde = { version = "=1.0.229", features = ["derive"] }
serde_json = "=1.0.154"

[package]
name = "noir_ivc"
version = "0.1.0"
edition = "2021"
publish = false

[dependencies]
acvm = "0.46.0"
ark-ff = "0.4.2"
ark-bn254 = "0.4.0"
ff = "0.13"
halo2curves = "0.6.1"
num = "0.4.3"
serde = { version = "1", features = ["derive"] }
serde_json = "1"
thiserror = "1.0.69"

[dev-dependencies]
bellpepper-core = "0.4.0"

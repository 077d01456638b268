[package]
name = "zkm_core_executor"
version = "0.1.0"
edition = "2021"
publish = false

[dependencies]
hashbrown = "=0.14.5"
num-bigint = "=0.4.8"
k256 = "=0.13.4"
p256 = "=0.13.2"
p3-field = "=0.8.0"
p3-koala-bear = "=0.8.0"
p3-symmetric = "=0.8.0"
libloading = "0.8"
tempfile = "3"
thiserror = "1"
log = "0.4"
serde = { version = "1", features = ["derive"] }

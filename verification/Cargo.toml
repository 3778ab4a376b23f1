[package]
name = "gluesql_encryption"
version = "0.1.0"
edition = "2021"
publish = false

[dependencies]
ring = "=0.17.14"
rand_chacha = { version = "=0.9.0", features = ["os_rng"] }
postcard = { version = "=1.1.3", features = ["alloc"] }
gluesql-core = "=0.16.3"
bigdecimal = "=0.4.2"
async-trait = "=0.1.92"
futures = "=0.3.34"

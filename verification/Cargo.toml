[package]
name = "rustsat_mc"
version = "0.1.0"
edition = "2021"
publish = false

[dependencies]
num-bigint = "0.4"
rustsat = "0.5"
thiserror = "1"

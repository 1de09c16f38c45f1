[package]
name = "cross_table_lookup"
version = "0.1.0"
edition = "2021"
publish = false

[dependencies]
plonky2 = "=0.2.2"

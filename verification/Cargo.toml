[package]
name = "semantic_analysis"
version = "0.1.0"
edition = "2021"
publish = false

[dependencies]
sti = "=0.5.0"

[package]
name = "rdf-fusion-storage"
version = "0.1.0"
edition = "2021"
publish = false

[dependencies]
ahash = "0.8"
hashbrown = "0.15"
md-5 = "=0.10.6"
redb = "=4.4.0"

[package]
name = "geohash"
version = "0.1.0"
edition = "2021"
publish = false

[dependencies]
geo-types = "0.7"
libm = "0.2"

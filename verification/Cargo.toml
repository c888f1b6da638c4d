[package]
name = "spatialtime"
version = "0.1.0"
edition = "2021"
publish = false

[dependencies]
byteorder = "*"
flatgeobuf = "=6.0.1"
geozero = "=0.15.1"
geo = "=0.33.1"
zstd = "=0.14.0"

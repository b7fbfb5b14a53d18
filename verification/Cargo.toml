[package]
name = "formoniq"
version = "0.1.0"
edition = "2021"
publish = false

[dependencies]
byteorder = "1"
itertools = "*"
mshio = "*"
nalgebra = "*"
rayon = "1"
tracing = "0.1"

[package]
name = "diffeq_gmrfs"
version = "0.1.0"
edition = "2021"
publish = false

[dependencies]
libflate = "=2.3.2"
matfile = "=0.5.0"
nalgebra = "=0.35.0"
ndarray = "=0.17.2"
num-traits = "=0.2.19"
sprs = "=0.11.6"
thiserror = "=2.0.21"

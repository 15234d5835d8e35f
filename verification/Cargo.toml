[package]
name = "gitsha"
version = "0.1.0"
edition = "2021"
publish = false

[dependencies]
sha1 = "*"
crossbeam = "*"
num_cpus = "*"
libflate = "*"
structopt = "*"

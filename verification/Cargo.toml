[package]
name = "asatsuyu"
version = "0.1.0"
edition = "2021"
publish = false

[dependencies]
logos = "*"
rowan = "*"
smol_str = "*"
la-arena = "*"
include_dir = "*"
libcst = "*"
pyo3 = "*"

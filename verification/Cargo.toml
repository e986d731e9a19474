[package]
name = "fejvm"
version = "0.1.0"
edition = "2021"
publish = false

[dependencies]
bitflags = "2"
cesu8 = "1.1.0"
strum_macros = "0.24"
thiserror = "1"

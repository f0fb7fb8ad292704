[package]
name = "memsession"
version = "0.1.0"
edition = "2021"
publish = false

[dependencies]
memflow = "0.1"
memflow-win32 = "0.1"

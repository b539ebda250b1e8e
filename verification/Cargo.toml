[package]
name = "typeref"
version = "0.1.0"
edition = "2021"
publish = false

[dependencies]
quote = { version = "1", default-features = false }
syn = { version = "2", default-features = false, features = ["clone-impls", "derive", "parsing", "printing"] }

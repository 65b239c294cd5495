[package]
name = "nom_lua"
version = "0.1.0"
edition = "2021"
publish = false

[dependencies]
nom = "3.2"
dot = "0.1"

[dev-dependencies]
quickcheck = { version = "1.0", default-features = false }

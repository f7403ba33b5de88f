[package]
name = "orbgame"
version = "0.1.0"
edition = "2021"
publish = false

[dependencies]
orbtk = "=0.3.1-alpha3"
ron = "0.8"
serde = "1"
serde_derive = "1"

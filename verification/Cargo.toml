[package]
name = "heyting"
version = "0.15.2"
edition = "2021"
publish = false

[dependencies]
hyperball = "*"
precinct = "*"
statskit = "*"
subsume = { version = "0.17", default-features = false }
tranz = "*"
vicinity = "*"

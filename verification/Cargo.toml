[package]
name = "simplicityhl"
version = "0.6.0-rc.0"
edition = "2021"
publish = false

[dependencies]
semver = "1"
chumsky = "0.11"
itertools = "0.13"
either = "1"
arbitrary = "1"
syn = { version = "2", features = ["full"] }
quote = "1"
proc-macro2 = "1"
simplicity-lang = "*"

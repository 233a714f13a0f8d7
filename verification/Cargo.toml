[package]
name = "faq_resolver"
version = "0.1.0"
edition = "2021"
publish = false

[dev-dependencies]
rust-fuzzy-search = "*"

[package]
name = "xml_serde"
version = "0.1.0"
edition = "2021"
publish = false

[dependencies]
xml-rs = "0.8"

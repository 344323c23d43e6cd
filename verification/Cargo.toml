[package]
name = "crm"
version = "0.2.3"
edition = "2021"
publish = false

[dependencies]
toml_edit = "0.22"
ureq = "2"

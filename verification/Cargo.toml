[package]
name = "entity_selector"
version = "0.1.0"
edition = "2021"
publish = false

[dependencies]
rusty-leveldb = "=4.0.1"
app_dirs = "=1.2.1"
structopt = "=0.3.26"

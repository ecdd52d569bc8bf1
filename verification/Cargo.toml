[package]
name = "io-maildir"
version = "0.1.0"
edition = "2021"
publish = false

[dependencies]
gethostname = "=1.1.0"
log = "=0.4.35"
mail-parser = "=0.11.9"
thiserror = "=2.0.21"

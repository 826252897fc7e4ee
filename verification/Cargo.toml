[package]
name = "pagong"
version = "0.1.0"
edition = "2021"
publish = false

[dependencies]
pulldown-cmark = { version = "0.8", default-features = false }
anyhow = "1"
atom_syndication = "0.12"
chrono = "0.4"
clap = "2"
quick-xml = "0.22"

[package]
name = "staticcc"
version = "0.1.0"
edition = "2021"
publish = false

[dependencies]
argparse = "=0.2.2"
chrono = "=0.4.45"
comrak = "=0.41.1"
rss = "=2.1.2"
thiserror = "=2.0.21"

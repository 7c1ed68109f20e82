[package]
name = "garden"
version = "0.1.0"
edition = "2021"
publish = false

[dependencies]
anyhow = "=1.0.104"
argparse = "=0.2.2"
atty = "=0.2.14"
glob = "=0.3.4"
indextree = "4"
subprocess = "=0.2.15"
yansi = "=0.5.1"
yaml-rust = "=0.4.5"

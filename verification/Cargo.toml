[package]
name = "crawler"
version = "0.1.0"
edition = "2021"
publish = false

[dependencies]
url = "2"
html5ever = "0.26"
clap = "2"
curl = "0.4"
num_cpus = "1"
threadpool = "1"

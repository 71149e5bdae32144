[package]
name = "gawsh"
version = "0.1.0"
edition = "2021"
publish = false

[dependencies]
anyhow = "1"
argh = "0.1"
chrono = "0.4"
colog = "1"
dashmap = "*"
git2 = { version = "*", default-features = false }
log = "0.4"
markup = "*"
num_cpus = "1"
rayon = "1"
sled = "0.34"
syntect = { version = "4", default-features = false, features = ["default-fancy"] }
thread_local = "1"

[dev-dependencies]
tempfile = "3"

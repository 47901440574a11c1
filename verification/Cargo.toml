[package]
name = "branchless_hooks"
version = "0.1.0"
edition = "2021"
publish = false

[dependencies]
console = "=0.15.11"
eyre = "=0.6.14"
git2 = { version = "=0.14.4", default-features = false }
itertools = "=0.10.5"
os_str_bytes = "=6.0.1"
regex = "=1.13.1"
tracing = "=0.1.44"

[package]
name = "gavin_rust_blog_os"
version = "0.1.0"
edition = "2021"
publish = false

[dependencies]
lazy_static = { version = "1.4.0", features = ["spin_no_std"] }
spin = "0.5.2"
volatile = "0.2.6"
x86_64 = { version = "0.15", default-features = false, features = ["instructions"] }

[package]
name = "flowgraph"
version = "0.1.0"
edition = "2021"
publish = false

[dependencies]
nom = "8"
rustc-hash = "2"
yew = { version = "0.21", features = ["csr"] }
web-sys = { version = "0.3", features = ["HtmlTextAreaElement"] }

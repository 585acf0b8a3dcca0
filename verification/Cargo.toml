[package]
name = "page_render"
version = "0.1.0"
edition = "2021"
publish = false

[dependencies]
ariadne = "=0.2.0"
bytemuck = "=1.25.2"
image = { version = "=0.24.9", default-features = false, features = ["png"] }
thiserror = "=1.0.69"
typst = "=0.11.1"
typst-render = "=0.11.1"

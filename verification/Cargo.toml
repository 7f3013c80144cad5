[package]
name = "blitz_dom"
version = "0.1.0"
edition = "2021"
publish = false

[dependencies]
slab = "=0.4.12"
selectors = "=0.41.0"
stylo = "=0.22.0"
stylo_dom = "=0.22.0"
html5ever = "=0.40.1"
taffy = "=0.15.0"
euclid = "=0.22.14"
app_units = "=0.7.8"
atomic_refcell = "=0.1.14"
url = "=2.5.8"
data-url = "=0.3.2"
ureq = { version = "=2.12.1", default-features = false }
image = { version = "=0.25.10", default-features = false, features = ["png", "jpeg", "gif"] }
usvg = "=0.48.1"
peniko = "=0.2.0"
winit = { version = "=0.30.13", default-features = false, features = ["x11"] }

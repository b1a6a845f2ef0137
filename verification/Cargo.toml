[package]
name = "comp_state"
version = "0.1.0"
edition = "2021"
publish = false

[dependencies]
slotmap = "*"
topo = "*"
anymap = "*"
seed = "*"
wasm-bindgen = "*"
web-sys = { version = "*", features = ["HtmlElement", "MouseEvent", "Window", "Document", "Element"] }

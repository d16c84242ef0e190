[package]
name = "pimtron"
version = "0.1.0"
edition = "2021"
publish = false

[dependencies]
chrono = { version = "0.4", default-features = false, features = ["alloc", "std"] }
pulldown-cmark = { version = "0.13", default-features = false, features = ["html"] }
base64 = "0.22"
syntect = { version = "5", default-features = false, features = ["default-fancy"] }
gray_matter = "0.3"
include_dir = "0.7"
serde = { version = "1", features = ["derive"] }
serde_json = "1"
leptos = { version = "0.8", features = ["csr"] }
leptos_meta = "0.8"
leptos_router = "0.8"
gloo-net = "0.6"
web-sys = { version = "0.3", features = ["Window", "Document", "Element", "HtmlCanvasElement", "Storage", "Navigator", "Performance", "DomRect", "HtmlElement", "MouseEvent"] }
wasm-bindgen = "0.2"
wasm-bindgen-futures = "0.4"
js-sys = "0.3"
console_error_panic_hook = "0.1"

[package]
name = "playground"
version = "0.1.0"
edition = "2021"
publish = false

[dependencies]
wasm-bindgen = "*"
wasm-bindgen-futures = "*"
js-sys = "*"
web-sys = { version = "*", features = ["Window", "Document", "Element", "HtmlElement", "HtmlCanvasElement", "Node", "EventTarget", "Event", "PointerEvent", "MouseEvent", "DomRect", "console"] }
wgpu = "*"
bytemuck = { version = "*", features = ["derive"] }

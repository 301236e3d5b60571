[package]
name = "chama"
version = "0.1.0"
edition = "2021"
publish = false

[dependencies]
uuid = { version = "1", features = ["v4", "serde"] }
geo = "0.23"
serde = { version = "1", features = ["derive"] }
serde_json = "1"
thiserror = "1"
yew = { version = "0.20", features = ["csr"] }
gloo-render = "0.1"
wasm-bindgen = "0.2"
js-sys = "0.3"
web-sys = { version = "0.3", features = ["Window", "Document", "Element", "HtmlElement", "HtmlCanvasElement", "CanvasRenderingContext2d", "MouseEvent", "KeyboardEvent", "DragEvent", "PointerEvent", "Event", "EventTarget", "HtmlInputElement", "HtmlAnchorElement", "HtmlButtonElement", "HtmlLabelElement", "HtmlSpanElement", "DomTokenList", "Node", "console"] }
console_error_panic_hook = "0.1"
rand = "0.8"
regex = "1"

[package]
name = "checkbox_frontend"
version = "0.1.0"
edition = "2021"
publish = false

[dependencies]
brotli = "=8.0.4"
flate2 = "=1.1.10"
bytes = "=1.12.1"
spacetimedb-client-api-messages = "=2.0.5"
spacetimedb-lib = "=2.0.5"
spacetimedb-sats = "=2.0.5"
spacetimedb = "=2.0.5"
serde = { version = "=1.0.229", features = ["derive"] }
serde_json = "=1.0.154"
wasm-bindgen = "=0.2.130"
wasm-bindgen-futures = "=0.4.80"
js-sys = "=0.3.107"
console_error_panic_hook = "=0.1.7"
leptos = { version = "=0.8.23", features = ["csr"] }
web-sys = { version = "=0.3.107", features = ["Window", "Document", "Element", "HtmlElement", "CssStyleDeclaration", "HtmlCanvasElement", "WebGlRenderingContext", "WebGlTexture", "WebGlShader", "WebGlProgram", "WebGlBuffer", "WebGlUniformLocation", "WebSocket", "BinaryType", "MessageEvent", "CloseEvent", "ErrorEvent", "Event", "Worker", "WorkerOptions", "WorkerType", "DedicatedWorkerGlobalScope", "Location", "console", "MouseEvent", "TouchEvent", "Touch", "TouchList", "WheelEvent", "DomRect"] }

[package]
name = "xpbd_cloth"
version = "0.1.0"
edition = "2021"
publish = false

[dependencies]
yew = "0.17"
wasm-bindgen = "0.2"
js-sys = "0.3"
web-sys = { version = "0.3", features = ["HtmlCanvasElement", "WebGlBuffer", "WebGlProgram", "WebGlRenderingContext", "WebGlShader", "WebGlUniformLocation", "Window"] }

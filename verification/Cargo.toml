[package]
name = "dubplate"
version = "0.1.0"
edition = "2021"
publish = false

[dependencies]
leptos = { version = "*", features = ["csr"] }
leptos-shadcn-ui = "*"
wasm-bindgen = "*"
wasm-bindgen-futures = "*"
js-sys = "*"
web-sys = { version = "*", features = ["Blob", "File", "FileList", "Worker", "WorkerOptions", "WorkerType", "MessageEvent", "Url", "Storage", "Window", "Navigator", "DragEvent", "DataTransfer", "DomStringList", "HtmlElement", "CssStyleDeclaration", "Document", "Element", "Event", "console", "DedicatedWorkerGlobalScope"] }
serde = { version = "*", features = ["derive"] }
serde_json = "*"
serde-wasm-bindgen = "*"
console_error_panic_hook = "*"

[package]
name = "ascii_frames"
version = "0.1.0"
edition = "2021"
publish = false

[dependencies]
base64 = "=0.22.1"
cascii-core-view = { version = "=0.7.2", features = ["serde", "web"] }
console_error_panic_hook = "=0.1.7"
gloo-timers = "=0.3.0"
js-sys = "=0.3.106"
serde = { version = "=1.0.229", features = ["derive"] }
serde_json = "=1.0.154"
serde-wasm-bindgen = "=0.6.5"
wasm-bindgen = "=0.2.129"
wasm-bindgen-futures = "=0.4.79"
web-sys = { version = "=0.3.106", features = ["Window", "Node", "Element", "HtmlElement", "HtmlAudioElement", "HtmlMediaElement", "HtmlCanvasElement", "HtmlInputElement", "InputEvent", "MouseEvent", "EventTarget", "Event"] }
yew = { version = "=0.21.0", features = ["csr"] }
yew_icons = { version = "=0.8.0", features = ["LucideBrush", "LucideEye", "LucideEyeOff", "LucidePause", "LucidePlay", "LucideSkipForward", "LucideVolume2", "LucideVolumeX", "LucideXCircle"] }

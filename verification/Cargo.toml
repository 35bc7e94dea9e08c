[package]
name = "schnake"
version = "0.1.0"
edition = "2021"
publish = false

[dependencies]
miniz_oxide = "=0.9.1"
qrcodegen = "=1.8.0"
serde = { version = "=1.0.229", features = ["derive"] }
serde_json = "=1.0.154"
wasm-bindgen = "=0.2.130"
wasm-bindgen-futures = "=0.4.80"
js-sys = "=0.3.107"
console_error_panic_hook = "=0.1.7"
web-sys = { version = "=0.3.107", features = ["Document", "Window", "Node", "Element", "HtmlElement", "HtmlCanvasElement", "HtmlInputElement", "HtmlButtonElement", "CanvasRenderingContext2d", "Storage", "Event", "EventTarget", "KeyboardEvent", "MessageEvent", "RtcPeerConnection", "RtcDataChannel", "RtcDataChannelState", "RtcDataChannelEvent", "RtcConfiguration", "RtcIceServer", "RtcIceGatheringState", "RtcSdpType", "RtcSessionDescription", "RtcSessionDescriptionInit"] }

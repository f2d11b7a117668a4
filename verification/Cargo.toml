[package]
name = "kara"
version = "0.1.0"
edition = "2021"
publish = false

[dependencies]
anyhow = "1"
chrono = { version = "0.4", default-features = false, features = ["clock"] }
cosmic-text = "=0.15.0"
dirs = "*"
gstreamer = "0.23"
gstreamer-app = "0.23"
gstreamer-video = "0.23"
image = { version = "=0.25.10", default-features = false, features = ["png", "jpeg", "gif", "webp"] }
serde = { version = "1", features = ["derive"] }
serde_json = "1"
signal-hook = "0.3"
smithay = { version = "=0.7.0", default-features = false, features = ["wayland_frontend", "desktop", "renderer_gl", "backend_drm", "backend_gbm", "renderer_multi", "backend_libinput", "backend_session"] }
smithay-client-toolkit = "=0.19.2"
tiny-skia = "=0.11.4"
tracing = "0.1"
tracing-subscriber = { version = "0.3", features = ["env-filter"] }
wayland-client = "0.31"
xcursor = "=0.3.11"
xkbcommon = "0.8"

[package]
name = "process_viewer"
version = "0.1.0"
edition = "2021"
publish = false

[dependencies]
cairo-rs = "0.9"
gdk = "0.13"
gdk-pixbuf = "0.9"
gio = "0.9"
glib = "0.10"
gtk = "0.9"
libc = "0.2"
pango = "0.9"
serde = { version = "1", features = ["derive"] }
serde_any = { version = "0.5", default-features = false, features = ["toml"] }
sysinfo = "0.9"

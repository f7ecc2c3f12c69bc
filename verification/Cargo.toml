[package]
name = "cool_scroll"
version = "0.1.0"
edition = "2021"
publish = false

[dependencies]
anyhow = "=1.0.104"
bite-gpui = { version = "~1.21", default-features = false }
bite-gp-engine = { version = "~1.21", default-features = false }
bite-gp-shared-string = { version = "~1.21", default-features = false }
bite-gp-types = { version = "~1.21", default-features = false }
lyon = "=1.0.19"
parley = "=0.12.0"
skrifa = "=0.44.0"
smallvec = "=1.16.4"
tiny-skia = "=0.11.4"

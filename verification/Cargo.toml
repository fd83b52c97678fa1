[package]
name = "dampen_core"
version = "0.1.0"
edition = "2021"
publish = false

[dependencies]
roxmltree = "=0.20.0"
serde = { version = "=1.0.229", features = ["derive"] }
csscolorparser = "=0.7.2"
proc-macro2 = "=1.0.107"
quote = "=1.0.47"
syn = { version = "=2.0.119", features = ["full"] }
prettyplease = { version = "=0.2.37", features = ["verbatim"] }
thiserror = "=2.0.21"

[dev-dependencies]
serde_json = "=1.0.154"

[package]
name = "typed-openapi"
version = "0.1.0"
edition = "2021"
publish = false

[dependencies]
bon = "=3.10.3"
clap = { version = "=4.6.7", features = ["string"] }
heck = "=0.5.0"
http = "=1.5.0"
openapiv3 = "=2.2.0"
postcard = { version = "=1.1.3", features = ["alloc"] }
prettyplease = "=0.2.37"
proc-macro2 = "=1.0.107"
quote = "=1.0.47"
regress = "=0.12.0"
roas-overlay = "=0.3.0"
schemars = "=0.8.22"
serde = { version = "=1.0.229", features = ["derive"] }
serde_json = { version = "=1.0.154", features = ["preserve_order"] }
serde_path_to_error = "=0.1.20"
serde_yaml_ng = "=0.10.0"
syn = { version = "=2.0.119", features = ["full", "visit-mut"] }
thiserror = "=2.0.21"
typify = "=0.8.0"

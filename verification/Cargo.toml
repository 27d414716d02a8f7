[package]
name = "swc_lexer"
version = "0.1.0"
edition = "2021"
publish = false

[dependencies]
swc_common = "=0.29.40"
swc_ecma_ast = "=0.94.21"
swc_ecma_parser = "=0.122.32"
swc_macros_common = "=0.3.7"
from_variant = "=0.1.5"
swc_visit = "=0.5.5"
serde = "=1.0.219"
napi = { version = "=2.16.17", default-features = false, features = ["napi4"] }
napi-derive = "=2.16.13"
wasm-bindgen = "=0.2.129"
wee_alloc = "=0.4.5"

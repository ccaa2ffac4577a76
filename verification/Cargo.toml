[package]
name = "lua_config"
version = "0.1.0"
edition = "2021"
publish = false

[dependencies]
json = "0.12"
rlua = "0.20"
reqwest = { version = "0.12", features = ["blocking"] }

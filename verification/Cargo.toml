[package]
name = "chainbills"
version = "0.1.0"
edition = "2021"
publish = false

[dependencies]
anchor-lang = "0.31"
anchor-spl = "0.31"
cosmwasm-std = "2"
cw-utils = "2"
cw20 = "2"
sylvia = "1"

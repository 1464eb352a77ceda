[package]
name = "ghwcli"
version = "0.1.0"
edition = "2021"
publish = false

[dependencies]
select = "*"
curl = "*"
serde = "*"
serde_derive = "*"
serde_json = "*"
clioptions = "*"
text-diff = "*"

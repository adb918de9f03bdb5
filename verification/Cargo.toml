[package]
name = "rustdoc_seeker"
version = "0.1.0"
edition = "2021"
publish = false

[dependencies]
fst = { version = "0.4", features = ["levenshtein"] }
regex-automata = "0.1"
serde_json = "1"
rustc-hash = "*"
thiserror = "*"

[package]
name = "phrase_trie"
version = "0.1.0"
edition = "2021"
publish = false

[dependencies]
convert_case = "=0.8.0"
regex = "=1.13.1"
regex-filtered = "=0.2.1"
triomphe = "=0.1.17"

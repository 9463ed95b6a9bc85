[package]
name = "yarner_bib"
version = "0.1.0"
edition = "2021"
publish = false

[dependencies]
biblatex = "0.4"
linked-hash-map = "0.5"
pathdiff = "0.2"
toml = "0.5"
yarner-lib = "*"

[dev-dependencies]
regex = "1"

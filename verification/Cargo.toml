[package]
name = "sentence_splitter"
version = "0.1.0"
edition = "2021"
publish = false

[dependencies]
hashbrown = "0.15"
icu_segmenter = "2"
serde_json = "1"
whatlang = "0.16"

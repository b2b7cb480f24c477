[package]
name = "speech_pipeline"
version = "0.1.0"
edition = "2021"
publish = false

[dependencies]
audrey = { version = "=0.3.0", default-features = false, features = ["wav", "flac", "ogg_vorbis"] }

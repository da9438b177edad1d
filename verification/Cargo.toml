[package]
name = "pluck_synth"
version = "0.1.0"
edition = "2021"
publish = false

[dependencies]
anyhow = "=1.0.104"
assert_no_alloc = "=1.1.2"
cpal = "0.15"
fundsp = "0.15"
midi-msg = "=0.9.0"
midir = "0.9"
read_input = "=0.8.6"

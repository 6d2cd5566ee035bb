[package]
name = "midi_comping"
version = "0.1.0"
edition = "2021"
publish = false

[dependencies]
chordparser = "*"
midly = "*"

[package]
name = "trackfish"
version = "0.1.0"
edition = "2021"
publish = false

[dependencies]
rand = "0.8"
id3 = "1"
ndarray = "0.16"
log = "0.4"
once_cell = "1"
jni = "0.21"
ndk-context = "0.1"

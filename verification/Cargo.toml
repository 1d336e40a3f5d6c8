[package]
name = "doodle_core"
version = "0.1.0"
edition = "2021"
publish = false

[dependencies]
libm = "=0.2.16"
num-bigint = "=0.4.8"
num-integer = "=0.1.47"
num-traits = "=0.2.19"
unicode-normalization = "=0.1.25"
unicode-segmentation = "=1.13.3"

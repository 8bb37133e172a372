[package]
name = "mental_poker"
version = "0.1.0"
edition = "2021"
publish = false

[dependencies]
ark-bn254 = "0.3"
ark-ec = "0.3"
ark-ff = "0.3"
ark-serialize = "0.3"
ark-std = "0.3"
ark-marlin = "0.3"
blake2 = "0.9"
digest = "0.9"
rand = "0.8"

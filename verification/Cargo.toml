[package]
name = "packed_str"
version = "0.1.0"
edition = "2021"
publish = false

[dependencies]
extra-default = "=0.2.0"
len-trait = "=0.6.1"
push-trait = "=0.6.0"
quickcheck = { version = "=1.1.0", default-features = false }
void = "=1.0.2"

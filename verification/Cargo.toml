[package]
name = "mech_core"
version = "0.1.0"
edition = "2021"
publish = false

[dependencies]
seahash = "4"
hashbrown = "*"
indexmap = "*"
hashmap_core = "*"
num-traits = "0.2"
lazy_static = "1"
serde = { version = "1", features = ["derive"] }
rayon = "1"
tokio = { version = "1", features = ["rt-multi-thread", "macros", "time"] }
tokio-stream = "0.1"
futures = "0.3"
nalgebra = "*"
time = "0.1"
map_in_place = "*"

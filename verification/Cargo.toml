[package]
name = "voxelmap_cache"
version = "0.1.0"
edition = "2021"
publish = false

[dependencies]
byteorder = "1"
docopt = "1"
filetime = "0.2"
glob = "0.3"
lodepng = "3"
rustc-serialize = "0.3"
serde = { version = "1", features = ["derive"] }
serde_json = "1"
threadpool = "1"
zip = { version = "0.6", default-features = false, features = ["deflate"] }

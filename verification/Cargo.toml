[package]
name = "vector_terrain"
version = "0.1.0"
edition = "2021"
publish = false

[dependencies]
async-stream = "=0.3.6"
clap = { version = "=4.6.7", features = ["derive"] }
contour = "=0.13.1"
either = "=1.19.0"
futures = "=0.3.34"
geo-types = "=0.7.20"
image = "=0.25.10"
mercantile = "=0.0.1"
mvt = "=0.15.0"
num_cpus = "=1.17.0"
oxigdal-algorithms = "=0.1.7"
oxigdal-core = "=0.1.7"
pmtiles = { version = "=0.26.0", features = ["mmap-async-tokio", "iter-async", "write"] }
tokio = { version = "=1.54.1", features = ["full"] }
webp = "=0.3.1"

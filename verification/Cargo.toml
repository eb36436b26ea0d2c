[package]
name = "denoiser"
version = "0.1.0"
edition = "2021"
publish = false

[dependencies]
anyhow = "1"
egui = { version = "0.34", default-features = false, features = ["default_fonts"] }
image = { version = "0.25", default-features = false, features = ["bmp", "dds", "exr", "ff", "gif", "hdr", "ico", "jpeg", "png", "pnm", "qoi", "tga", "tiff", "webp"] }
imageproc = { version = "0.26", default-features = false }
opencv = { version = "0.98", default-features = false, features = ["imgcodecs", "imgproc", "photo"] }
pure-onnx-ocr = { version = "*", default-features = false }
tokio = { version = "1", features = ["macros", "rt-multi-thread"] }

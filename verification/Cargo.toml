[package]
name = "applicant_advocate"
version = "0.1.0"
edition = "2021"
publish = false

[dependencies]
serde = { version = "1", features = ["derive"] }
serde_json = "1"
thiserror = "*"
zip = "*"
quick-xml = "*"
pdf-extract = "*"
docx-rs = "*"
ureq = { version = "*", features = ["json"] }

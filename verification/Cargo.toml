[package]
name = "papervault"
version = "0.1.0"
edition = "2021"
publish = false

[dependencies]
anyhow = "1"
blake3 = "1"
chrono = { version = "0.4", default-features = false, features = ["clock", "std"] }
crossbeam = "0.8"
dirs-next = "2"
egui = { version = "0.30", default-features = false }
notify-debouncer-full = { version = "0.4", default-features = false }
pdf_oxide = { version = "0.3", default-features = false }
pdfium-render = { version = "0.8", default-features = false, features = ["pdfium_latest"] }
rayon = "1"
rusqlite = { version = "0.32", features = ["bundled"] }
serde = { version = "1", features = ["derive"] }
serde_json = "1"
tantivy = { version = "0.22", default-features = false, features = ["mmap"] }
thiserror = "1"
tracing = "0.1"
tracing-subscriber = { version = "0.3", default-features = false, features = ["env-filter", "fmt", "std"] }
ureq = { version = "2", default-features = false, features = ["json", "tls"] }

[dev-dependencies]
lopdf = { version = "0.34", default-features = false, features = ["nom_parser"] }
printpdf = { version = "0.7", default-features = false }
tempfile = "3"

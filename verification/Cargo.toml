[package]
name = "raql"
version = "0.1.0"
edition = "2021"
publish = false

[dependencies]
la-arena = "0.3.1"
rustc-hash = "2.1"
toml = "0.9"
miette = "7.6"
thiserror = "2.0"
serde = { version = "1.0", features = ["derive"] }
camino = "1.2"
crossbeam-channel = "0.5"
ra_ap_base_db = "=0.0.325"
ra_ap_hir = "=0.0.325"
ra_ap_hir_expand = "=0.0.325"
ra_ap_hir_ty = "=0.0.325"
ra_ap_ide = "=0.0.325"
ra_ap_ide_db = "=0.0.325"
ra_ap_load-cargo = "=0.0.325"
ra_ap_paths = "=0.0.325"
ra_ap_project_model = "=0.0.325"
ra_ap_span = "=0.0.325"
ra_ap_syntax = "=0.0.325"
ra_ap_vfs = "=0.0.325"
ra_ap_vfs-notify = "=0.0.325"

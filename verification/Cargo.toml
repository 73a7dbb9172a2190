[package]
name = "aida64_keys_lib"
version = "0.1.0"
edition = "2021"
publish = false

[dependencies]
chrono = "=0.4.45"
rand = "=0.7.3"
strum = "=0.24.1"
strum_macros = "=0.24.3"
thiserror = "=1.0.69"
eframe = "0.16"
egui-datepicker = "0.3"
clipboard = "0.5"

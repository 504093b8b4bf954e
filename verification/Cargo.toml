[package]
name = "task_irq"
version = "0.1.0"
edition = "2021"
publish = false

[dependencies]
axstd = { version = "=0.3.0-preview.3", features = ["alloc", "multitask", "irq"] }

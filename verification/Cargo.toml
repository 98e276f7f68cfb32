[package]
name = "schnellui_widgets"
version = "0.1.0"
edition = "2021"
publish = false

[dependencies]
smallvec = "1"
unicode-segmentation = "1"
slotmap = "1"

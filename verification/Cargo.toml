[package]
name = "rust_game_of_life"
version = "0.1.0"
edition = "2021"
publish = false

[dependencies]
rand = "=0.8.8"
bevy = { version = "=0.5.0", default-features = false, features = ["render", "bevy_winit", "bevy_wgpu", "x11"] }
# bevy 0.5 builds only with the `full` feature of syn switched on for its
# procedural macros, and does not ask for it. darling does; it is listed for
# that alone, and no code of this crate names it.
darling = "=0.10.2"

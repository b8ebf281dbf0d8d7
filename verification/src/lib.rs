pub mod addons;
pub mod assets;
pub mod commands;
pub mod config;
pub mod fs;
pub mod godot;
pub mod text;

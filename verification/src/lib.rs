//! Verified core of the Underpane live-wallpaper host: wallpaper ids,
//! configuration lookups, protocol routing and related text handling.

pub mod text;
pub mod paths;
pub mod string_map;
pub mod config;
pub mod encoding;
pub mod protocol;
pub mod wallpapers;
pub mod desktop;
pub mod monitors;
pub mod tracker;
pub mod locale;
pub mod install;

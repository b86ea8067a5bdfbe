pub mod alpha_to_path;
pub mod data_provider;
pub mod drag_common;
pub mod drop;
pub mod keyboard_layout;
pub mod menu;
pub mod reader;

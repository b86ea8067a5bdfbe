pub mod data_provider;
pub mod data_source;
pub mod drag;
pub mod drag_common;
pub mod drop;
pub mod keyboard_layout;
pub mod util;

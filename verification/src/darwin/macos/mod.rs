pub mod data_provider;
pub mod drag_common;
pub mod menu;
pub mod reader;
pub mod util;

use vstd::prelude::*;

pub mod android;
pub mod api_model;
pub mod blur;
pub mod clipboard_events_manager;
pub mod clipboard_reader;
pub mod context;
pub mod darwin;
pub mod data_provider_manager;
pub mod data_source_manager;
pub mod decimal;
pub mod drag_manager;
pub mod drop_manager;
pub mod error;
pub mod hot_key_manager;
pub mod ids;
pub mod keyboard_layout_manager;
pub mod menu;
pub mod registry;
pub mod value_promise;
pub mod writer_data;
pub mod writer_manager;

verus! {

} // verus!

pub mod ios;
pub mod macos;

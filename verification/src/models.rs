pub mod host;
pub mod panel;

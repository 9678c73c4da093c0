pub mod picker;
pub mod backend;
pub mod http;

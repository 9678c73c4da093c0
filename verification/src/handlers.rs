pub mod file;
pub mod redirect;
pub mod rewriter;
pub mod status;
pub mod web;

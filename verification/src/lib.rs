pub mod status;
pub mod text;
pub mod headers;
pub mod body;
pub mod shared_body;
pub mod request;
pub mod router;
pub mod lb;
pub mod url;
pub mod cookie;
pub mod response;
pub mod message;
pub mod parser;
pub mod config;
pub mod lbconfig;
pub mod handler;
pub mod middleware;
pub mod conntrack;
pub mod client;
pub mod server;
pub mod content_types;
pub mod handlers;
pub mod chunked;

//! The decision logic of an HTTP tunnel server.

pub mod accept;
pub mod bytes;
pub mod client_auth;
pub mod config;
pub mod control;
pub mod forward;
pub mod forward_laws;
pub mod http;
pub mod paths;
pub mod peek;
pub mod request_laws;
pub mod responses;
pub mod sink;
pub mod text;
pub mod tunnel_id;
pub mod urls;

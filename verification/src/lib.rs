//! A verified core for a small HTTP/1.1 user service: request parsing,
//! routing over five fixed routes, the JSON codec for the user resource,
//! the handlers over a modelled store, and the response encoding.

pub mod body;
pub mod handlers;
pub mod http;
pub mod json;
pub mod text;
pub mod laws;
pub mod store;
pub mod types;

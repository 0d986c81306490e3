//! A small HTTP/1.x request parser: raw request text in, a structured
//! request (method, resource, version, headers, body) out.
pub mod laws;
pub mod request;
pub mod text;

pub use request::{HttpRequest, Method, Resource, Version};

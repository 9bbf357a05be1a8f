//! The computing core of an HTTP client session: query strings, request heads, the cookie jar
//! and the decoding of response bodies. Nothing here performs I/O.

pub mod cookies;
pub mod decode;
pub mod header_list;
pub mod json;
pub mod origin;
pub mod pairs;
pub mod params;
pub mod request;
pub mod response;
pub mod session;
pub mod text;

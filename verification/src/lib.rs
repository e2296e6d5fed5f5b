//! Cookies of an HTTP request: the `Cookie` header, read once per request,
//! kept beside the request and looked up by name.

pub mod cookies;
pub mod jar;
pub mod laws;
pub mod pair;
pub mod text;

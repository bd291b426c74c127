//! The logic of an HTTP request and response inspection service: what its
//! handlers compute from a request, stated and proved.
pub mod text;
pub mod problem;
pub mod auth;
pub mod redirect;
pub mod encoding;
pub mod random;
pub mod dynamic_data;
pub mod sse;
pub mod inspect;

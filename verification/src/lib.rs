//! Static-asset delivery core: resolves request paths against an immutable
//! in-memory asset store and produces complete response descriptors (status,
//! content type, cache directive, body bytes), including a single runtime
//! port-token substitution on the entry HTML document.

pub mod paths;
pub mod policy;
pub mod respond;
pub mod store;
pub mod textsub;

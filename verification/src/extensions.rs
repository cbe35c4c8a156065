//! Extensions to the server.

pub mod ratelimit;

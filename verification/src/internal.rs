//! The inner workings of the server: how a request becomes a response, and
//! how a connection goes on.

pub mod handle;
pub mod pipeline;

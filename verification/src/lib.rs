//! A synchronous HTTP/1.1 server engine: request parsing, routing, the
//! middleware pipeline and response framing, stated as contracts and proved.
//!
//! The engine reads and writes no socket. It is handed the bytes that were
//! received, and hands back the bytes to send and what to do with the
//! connection; a route or a middleware that fails says so in its result.

pub mod bytes;
pub mod content_type;
pub mod cookie;
pub mod error;
pub mod extensions;
pub mod header;
pub mod internal;
pub mod method;
pub mod middleware;
pub mod path;
pub mod query;
pub mod request;
pub mod response;
pub mod route;
pub mod server;
pub mod server_sent_events;
pub mod status;
pub mod text;

pub use content_type::Content;
pub use cookie::SetCookie;
pub use error::Error;
pub use extensions::ratelimit::RateLimiter;
pub use header::Header;
pub use method::Method;
pub use middleware::Middleware;
pub use query::Query;
pub use request::Request;
pub use response::Response;
pub use route::Route;
pub use server::Server;
pub use server_sent_events::Event;

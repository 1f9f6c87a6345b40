//! A small HTTP server framework: routes with typed path parameters, a request
//! parser, a response builder and the connection state machine that an event
//! loop drives.

pub mod bytes;
pub mod clock;
pub mod connection;
pub mod context;
pub mod json;
pub mod matcher;
pub mod number;
pub mod reactor;
pub mod request;
pub mod response;
pub mod route;
pub mod router;
pub mod server;
pub mod slab;
pub mod table;
pub mod template;
pub mod text;
pub mod utils;

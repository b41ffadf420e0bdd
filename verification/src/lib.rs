//! A minimal embeddable HTTP server core: request parsing, route
//! compilation and matching with named path parameters, request
//! resolution, and response rendering, with machine-checked contracts
//! for each step.

pub mod dict;
pub mod formatter;
pub mod handler;
pub mod methods;
pub mod parsers;
pub mod request;
pub mod response;
pub mod route;
pub mod router;
pub mod server;
pub mod status;
pub mod text;

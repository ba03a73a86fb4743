//! Request parsing, routing and session logic of a small HTTP server.
pub mod text;
pub mod table;
pub mod errors;
pub mod message;
pub mod response;
pub mod session;
pub mod percent;
pub mod server;
pub mod upload;
pub mod cgi;
pub mod loader;
pub mod mux;

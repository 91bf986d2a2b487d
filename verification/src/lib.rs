//! A minimal HTTP/1.1-like server core: request framing and parsing,
//! response synthesis, and a model of a fixed-size worker pool with a
//! FIFO job queue.
//!
//! The server around this library accepts connections, hands each one
//! as a job to the pool, and lets the worker that takes it read the
//! request off the socket and write the response back. Everything that
//! decides — when a request is framed, what it parses to, which bytes
//! answer it, and how jobs move through the pool — lives here; the
//! sockets, threads and environment stay with the caller.

mod bytes;
pub mod conn;
pub mod parser;
pub mod pool;
pub mod response;

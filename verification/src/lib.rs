//! Verified core of a CGI-to-HTTP gateway with a tee streaming cache.
//!
//! The library translates an inbound HTTP request into a CGI/1.1 variable
//! set, parses the header block a CGI backend writes on its standard
//! output, turns the parsed headers into an outbound HTTP response
//! descriptor, and models the dual-sink ("tee") copy that serves a
//! download to a client while caching it on disk.  All I/O — spawning the
//! backend, sockets, files — lives outside this crate; the library works
//! on plain values and states exactly what it computes.

pub mod cache;
pub mod cgi;
pub mod header;
pub mod response;
pub mod subprocess;
pub mod tee;
pub mod translate;

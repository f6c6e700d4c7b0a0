//! A host-routed reverse proxy: a line-oriented routing configuration is parsed
//! per request, scoped to the request's Host header, into a single destination;
//! the forwarding decisions around the outbound call are made here as well.
pub mod config;
pub mod forward;

//! A fixed-capacity ring-buffer message queue shared between one producer and
//! any number of consumers, together with a small byte-parser framework and an
//! HTTP/1.1 request decoder built on it.
pub mod backingstore;
pub mod messagequeue;
pub mod queue_laws;
pub mod parser;
pub mod parser_laws;
pub mod http;
pub mod http_laws;

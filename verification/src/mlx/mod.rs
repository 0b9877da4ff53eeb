//! The client of the local inference service: where it is, how requests are retried, how answers
//! are read.

pub mod address;
pub mod chat;
pub mod endpoint;
pub mod retry;
pub mod status;
pub mod stream;

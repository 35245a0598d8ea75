//! A small HTTP client, without the sockets: what is sent for a request, where
//! it goes, and what the bytes that come back mean.

pub mod error;
pub mod formdata;
pub mod head_laws;
pub mod lines;
pub mod parser;
pub mod plain;
pub mod requester;
pub mod response;
pub mod response_laws;
pub mod structs;
pub mod text;
pub mod transport;

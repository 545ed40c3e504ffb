//! Parsing of the head of an HTTP/1.x response: the status line and the
//! header block, read off a byte buffer, with every step proved against a
//! mathematical model of the wire format.

pub mod bytes;
pub mod error;
pub mod line;
pub mod header;
pub mod status;
pub mod response;
pub mod theorems;

//! A minimal client-side HTTP/1.x implementation with machine-checked contracts.
//!
//! The library serializes a request into the text that goes on the wire and parses
//! what comes back: status line, header block and body, with content-length, chunked
//! and close-delimited framing. It does no input or output of its own. A transport
//! reads lines and bytes and hands them to the step functions of [`response`]; the
//! `read_*` functions do the same over bytes held in memory.

pub mod async_connection;
pub mod async_connection_factory;
pub mod error;
pub mod exchange;
pub mod fields;
pub mod header;
pub mod laws;
pub mod reader;
pub mod request;
pub mod response;
pub mod text;
pub mod version;

pub use async_connection::{AsyncConnection, Connection, Transport};
pub use async_connection_factory::AsyncConnectionFactory;
pub use error::{ErrorKind, HttpError};
pub use exchange::MemoryConnection;
pub use reader::ByteReader;
pub use request::{serialize_http_request, Authority, Request, Uri};
pub use response::{
    chunk_step, header_line_step, parse_chunk_size_line, parse_response_status_line,
    read_chunked_body, read_response, read_response_body, read_response_headers,
    read_response_status_line, select_body_framing, BodyFraming, ChunkStep, HeaderStep, Response,
};
pub use version::Version;

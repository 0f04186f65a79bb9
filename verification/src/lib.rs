//! A small HTTP/1.1 message engine with verified framing.
//!
//! The request parser reads a byte source incrementally until the CRLFCRLF
//! header boundary, validates the request line, builds a case-insensitive
//! header map and a length-bounded body stream; the response writer picks a
//! framing strategy and serializes a response onto a byte sink.

pub mod handler;
pub mod header;
pub mod query_string;
pub mod request;
pub mod response;
pub mod server;
pub mod status;
pub mod stream;
pub mod strutil;
pub mod url;

pub use handler::dump_request;
pub use handler::guess_content_type;
pub use handler::EchoHandler;
pub use header::Headers;
pub use header::Names;
pub use header::Names as HeaderNames;
pub use query_string::QueryParam;
pub use query_string::QueryString;
pub use request::Body;
pub use request::InvalidMethod;
pub use request::Method;
pub use request::ParseError;
pub use request::Request;
pub use response::Response;
pub use server::Handler;
pub use server::Server;
pub use status::StatusCode;
pub use stream::BufSource;
pub use stream::ByteSource;
pub use stream::ReadFault;
pub use url::URL;
